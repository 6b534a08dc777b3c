//! Ids of types, stable across compilations.
use crate::hash::{short_hash, short_hash_of};
use crate::toylang::typed_ast::{source_views, SourceType, SourceTypeView};
use crate::toylang::wire_types::{enc_sources, put_sources};
use crate::wire::{enc_str, put_str};
use vstd::prelude::*;

verus! {

broadcast use {vstd::seq::group_seq_axioms, vstd::std_specs::vec::group_vec_axioms};

/// What is hashed for the id of a type: its name and its type arguments, in
/// binary form.
pub open spec fn preimage(name: Seq<char>, type_args: Seq<SourceTypeView>) -> Seq<u8> {
    enc_str(name) + enc_sources(type_args)
}

/// The id of a type.
pub open spec fn type_id(name: Seq<char>, type_args: Seq<SourceTypeView>) -> u64 {
    short_hash(preimage(name, type_args))
}

/// The id of a type. A struct itself, apart from what it is applied to, is
/// identified by its name and no type arguments.
pub fn compute(name: &str, type_args: &Vec<SourceType>) -> (r: u64)
    ensures
        r == type_id(name@, source_views(type_args@)),
{
    let mut bytes: Vec<u8> = Vec::new();
    put_str(&mut bytes, name);
    put_sources(&mut bytes, type_args);
    assert(bytes@ =~= preimage(name@, source_views(type_args@)));
    short_hash_of(bytes.as_slice())
}

} // verus!
