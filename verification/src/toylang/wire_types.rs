//! The binary form of types.
use crate::toylang::typed_ast::{resolved_views, source_views, ResolvedType, ResolvedTypeView, SourceType, SourceTypeView};
use crate::wire::{
    variant_error, variant_text, dec_str, dec_u32, dec_u64, enc_str, enc_u32, enc_u64, get_str, get_u32, get_u64, lemma_str, lemma_u32,
    lemma_u64, put_str, put_u32, put_u64, read_at, Wire,
};
use vstd::prelude::*;
use vstd::utf8::encode_utf8;

verus! {

broadcast use {vstd::seq::group_seq_axioms, vstd::std_specs::vec::group_vec_axioms};

/// The binary form of a source type.
#[verifier::opaque]
pub open spec fn enc_source(v: SourceTypeView) -> Seq<u8>
    decreases v, 0int,
{
    match v {
        SourceTypeView::I32 => enc_u32(0),
        SourceTypeView::I64 => enc_u32(1),
        SourceTypeView::F64 => enc_u32(2),
        SourceTypeView::Bool => enc_u32(3),
        SourceTypeView::Void => enc_u32(4),
        SourceTypeView::Usize => enc_u32(5),
        SourceTypeView::TypeParam(f0) => enc_u32(6) + enc_str(f0),
        SourceTypeView::StructRef { name, type_args } => enc_u32(7) + enc_str(name) + enc_sources(type_args),
        SourceTypeView::RustType { name, type_args } => enc_u32(8) + enc_str(name) + enc_sources(type_args),
        SourceTypeView::Ref { inner } => enc_u32(9) + enc_source(*inner),
        SourceTypeView::Str => enc_u32(10),
        SourceTypeView::ByteSlice => enc_u32(11),
    }
}

/// Reads a source type.
#[verifier::opaque]
pub open spec fn dec_source(b: Seq<u8>) -> Result<(SourceTypeView, Seq<u8>), Seq<char>>
    decreases b.len(), 0int,
{
    match dec_u32(b) {
        Err(e) => Err(e),
        Ok((tag, r)) => if tag == 0 {
            Ok((SourceTypeView::I32, r))
        } else if tag == 1 {
            Ok((SourceTypeView::I64, r))
        } else if tag == 2 {
            Ok((SourceTypeView::F64, r))
        } else if tag == 3 {
            Ok((SourceTypeView::Bool, r))
        } else if tag == 4 {
            Ok((SourceTypeView::Void, r))
        } else if tag == 5 {
            Ok((SourceTypeView::Usize, r))
        } else if tag == 6 {
            dec_source_type_param(r)
        } else if tag == 7 {
            if r.len() < b.len() {
                dec_source_struct_ref(r)
            } else {
                arbitrary()
            }
        } else if tag == 8 {
            if r.len() < b.len() {
                dec_source_rust_type(r)
            } else {
                arbitrary()
            }
        } else if tag == 9 {
            if r.len() < b.len() {
                dec_source_ref(r)
            } else {
                arbitrary()
            }
        } else if tag == 10 {
            Ok((SourceTypeView::Str, r))
        } else if tag == 11 {
            Ok((SourceTypeView::ByteSlice, r))
        } else {
            Err(variant_text(tag as nat, 12))
        },
    }
}

/// Reads what follows the number of `TypeParam` in a source type.
#[verifier::opaque]
pub open spec fn dec_source_type_param(r: Seq<u8>) -> Result<(SourceTypeView, Seq<u8>), Seq<char>>
{
    match dec_str(r) {
        Err(e) => Err(e),
        Ok((f0, r0)) => Ok((SourceTypeView::TypeParam(f0), r0)),
    }
}

/// Reads what follows the number of `StructRef` in a source type.
#[verifier::opaque]
pub open spec fn dec_source_struct_ref(r: Seq<u8>) -> Result<(SourceTypeView, Seq<u8>), Seq<char>>
    decreases r.len(), 8int,
{
    match dec_str(r) {
        Err(e) => Err(e),
        Ok((name, r0)) => if r0.len() < r.len() {
            match dec_sources(r0) {
                Err(e) => Err(e),
                Ok((type_args, r1)) => Ok((SourceTypeView::StructRef { name: name, type_args: type_args }, r1)),
            }
        } else {
            arbitrary()
        },
    }
}

/// Reads what follows the number of `RustType` in a source type.
#[verifier::opaque]
pub open spec fn dec_source_rust_type(r: Seq<u8>) -> Result<(SourceTypeView, Seq<u8>), Seq<char>>
    decreases r.len(), 8int,
{
    match dec_str(r) {
        Err(e) => Err(e),
        Ok((name, r0)) => if r0.len() < r.len() {
            match dec_sources(r0) {
                Err(e) => Err(e),
                Ok((type_args, r1)) => Ok((SourceTypeView::RustType { name: name, type_args: type_args }, r1)),
            }
        } else {
            arbitrary()
        },
    }
}

/// Reads what follows the number of `Ref` in a source type.
#[verifier::opaque]
pub open spec fn dec_source_ref(r: Seq<u8>) -> Result<(SourceTypeView, Seq<u8>), Seq<char>>
    decreases r.len(), 8int,
{
    match dec_source(r) {
        Err(e) => Err(e),
        Ok((inner, r0)) => Ok((SourceTypeView::Ref { inner: Box::new(inner) }, r0)),
    }
}

/// Whether every length in a source type fits in 64 bits.
#[verifier::opaque]
pub open spec fn fits_source(v: SourceTypeView) -> bool
    decreases v, 0int,
{
    match v {
        SourceTypeView::TypeParam(f0) => encode_utf8(f0).len() <= u64::MAX,
        SourceTypeView::StructRef { name, type_args } => encode_utf8(name).len() <= u64::MAX && fits_sources(type_args),
        SourceTypeView::RustType { name, type_args } => encode_utf8(name).len() <= u64::MAX && fits_sources(type_args),
        SourceTypeView::Ref { inner } => fits_source(*inner),
        _ => true,
    }
}

/// A source type is read back from its binary form.
pub proof fn lemma_source(v: SourceTypeView, rest: Seq<u8>)
    requires
        fits_source(v),
    ensures
        dec_source(enc_source(v) + rest) == Ok::<_, Seq<char>>((v, rest)),
        enc_source(v).len() > 0,
    decreases v, 1int,
{
    reveal(enc_source);
    reveal(dec_source);
    match v {
        SourceTypeView::I32 => {
            lemma_u32(0, rest);
        },
        SourceTypeView::I64 => {
            lemma_u32(1, rest);
        },
        SourceTypeView::F64 => {
            lemma_u32(2, rest);
        },
        SourceTypeView::Bool => {
            lemma_u32(3, rest);
        },
        SourceTypeView::Void => {
            lemma_u32(4, rest);
        },
        SourceTypeView::Usize => {
            lemma_u32(5, rest);
        },
        SourceTypeView::TypeParam(f0) => {
            let payload = enc_str(f0);
            lemma_source_type_param(v, rest);
            lemma_u32(6, payload + rest);
            assert(enc_source(v) + rest =~= enc_u32(6) + (payload + rest));
        },
        SourceTypeView::StructRef { name, type_args } => {
            reveal(enc_sources);
            reveal(dec_source_struct_ref);
            let payload = enc_str(name) + enc_sources(type_args);
            lemma_source_struct_ref(v, rest);
            lemma_u32(7, payload + rest);
            assert(enc_source(v) + rest =~= enc_u32(7) + (payload + rest));
        },
        SourceTypeView::RustType { name, type_args } => {
            reveal(enc_sources);
            reveal(dec_source_rust_type);
            let payload = enc_str(name) + enc_sources(type_args);
            lemma_source_rust_type(v, rest);
            lemma_u32(8, payload + rest);
            assert(enc_source(v) + rest =~= enc_u32(8) + (payload + rest));
        },
        SourceTypeView::Ref { inner } => {
            reveal(dec_source_ref);
            let payload = enc_source(*inner);
            lemma_source_ref(v, rest);
            lemma_u32(9, payload + rest);
            assert(enc_source(v) + rest =~= enc_u32(9) + (payload + rest));
        },
        SourceTypeView::Str => {
            lemma_u32(10, rest);
        },
        SourceTypeView::ByteSlice => {
            lemma_u32(11, rest);
        },
    }
}

proof fn lemma_source_type_param(v: SourceTypeView, rest: Seq<u8>)
    requires
        v is TypeParam,
        fits_source(v),
    ensures
        v matches SourceTypeView::TypeParam(f0) ==> dec_source_type_param(enc_str(f0) + rest) == Ok::<_, Seq<char>>((v, rest)),
    decreases v, 0int,
{
    reveal(fits_source);
    reveal(dec_source_type_param);
    match v {
        SourceTypeView::TypeParam(f0) => {
            let t0 = rest;
            lemma_str(f0, t0);
            assert(enc_str(f0) + rest =~= enc_str(f0) + t0);
        },
        _ => {},
    }
}

proof fn lemma_source_struct_ref(v: SourceTypeView, rest: Seq<u8>)
    requires
        v is StructRef,
        fits_source(v),
    ensures
        v matches SourceTypeView::StructRef { name, type_args } ==> dec_source_struct_ref(enc_str(name) + enc_sources(type_args) + rest) == Ok::<_, Seq<char>>((v, rest)),
    decreases v, 0int,
{
    reveal(fits_source);
    reveal(dec_source_struct_ref);
    reveal(fits_sources);
    reveal(dec_sources);
    match v {
        SourceTypeView::StructRef { name, type_args } => {
            let t1 = rest;
            lemma_sources(type_args, t1);
            let t0 = (enc_sources(type_args) + t1);
            lemma_str(name, t0);
            assert(enc_str(name) + enc_sources(type_args) + rest =~= enc_str(name) + t0);
        },
        _ => {},
    }
}

proof fn lemma_source_rust_type(v: SourceTypeView, rest: Seq<u8>)
    requires
        v is RustType,
        fits_source(v),
    ensures
        v matches SourceTypeView::RustType { name, type_args } ==> dec_source_rust_type(enc_str(name) + enc_sources(type_args) + rest) == Ok::<_, Seq<char>>((v, rest)),
    decreases v, 0int,
{
    reveal(fits_source);
    reveal(dec_source_rust_type);
    reveal(fits_sources);
    reveal(dec_sources);
    match v {
        SourceTypeView::RustType { name, type_args } => {
            let t1 = rest;
            lemma_sources(type_args, t1);
            let t0 = (enc_sources(type_args) + t1);
            lemma_str(name, t0);
            assert(enc_str(name) + enc_sources(type_args) + rest =~= enc_str(name) + t0);
        },
        _ => {},
    }
}

proof fn lemma_source_ref(v: SourceTypeView, rest: Seq<u8>)
    requires
        v is Ref,
        fits_source(v),
    ensures
        v matches SourceTypeView::Ref { inner } ==> dec_source_ref(enc_source(*inner) + rest) == Ok::<_, Seq<char>>((v, rest)),
    decreases v, 0int,
{
    reveal(fits_source);
    reveal(dec_source_ref);
    reveal(dec_source);
    match v {
        SourceTypeView::Ref { inner } => {
            let t0 = rest;
            lemma_source(*inner, t0);
            assert(enc_source(*inner) + rest =~= enc_source(*inner) + t0);
        },
        _ => {},
    }
}

/// Appends the binary form of a source type.
pub fn put_source(out: &mut Vec<u8>, v: &SourceType)
    ensures
        final(out)@ == old(out)@ + enc_source(v.model()),
        fits_source(v.model()),
    decreases v, 0int,
{
    let ghost before = out@;
    match v {
        SourceType::I32 => {
            proof {
                reveal(enc_source);
                reveal(fits_source);
            }
            put_u32(out, 0);
        },
        SourceType::I64 => {
            proof {
                reveal(enc_source);
                reveal(fits_source);
            }
            put_u32(out, 1);
        },
        SourceType::F64 => {
            proof {
                reveal(enc_source);
                reveal(fits_source);
            }
            put_u32(out, 2);
        },
        SourceType::Bool => {
            proof {
                reveal(enc_source);
                reveal(fits_source);
            }
            put_u32(out, 3);
        },
        SourceType::Void => {
            proof {
                reveal(enc_source);
                reveal(fits_source);
            }
            put_u32(out, 4);
        },
        SourceType::Usize => {
            proof {
                reveal(enc_source);
                reveal(fits_source);
            }
            put_u32(out, 5);
        },
        SourceType::TypeParam(f0) => {
            proof {
                reveal(enc_source);
                reveal(fits_source);
            }
            put_u32(out, 6);
            put_str(out, f0);
            assert(out@ =~= before + enc_source(v.model()));
        },
        SourceType::StructRef { name, type_args } => {
            proof {
                reveal(enc_source);
                reveal(fits_source);
                reveal(enc_sources);
                reveal(fits_sources);
            }
            put_u32(out, 7);
            put_str(out, name);
            put_sources(out, type_args);
            assert(out@ =~= before + enc_source(v.model()));
        },
        SourceType::RustType { name, type_args } => {
            proof {
                reveal(enc_source);
                reveal(fits_source);
                reveal(enc_sources);
                reveal(fits_sources);
            }
            put_u32(out, 8);
            put_str(out, name);
            put_sources(out, type_args);
            assert(out@ =~= before + enc_source(v.model()));
        },
        SourceType::Ref { inner } => {
            proof {
                reveal(enc_source);
                reveal(fits_source);
            }
            put_u32(out, 9);
            put_source(out, inner);
            assert(out@ =~= before + enc_source(v.model()));
        },
        SourceType::Str => {
            proof {
                reveal(enc_source);
                reveal(fits_source);
            }
            put_u32(out, 10);
        },
        SourceType::ByteSlice => {
            proof {
                reveal(enc_source);
                reveal(fits_source);
            }
            put_u32(out, 11);
        },
    }
}

/// Reads a source type at a position.
pub fn get_source(b: &[u8], pos: usize) -> (r: Result<(SourceType, usize), String>)
    requires
        pos <= b@.len(),
    ensures
        read_at(
            b@,
            pos as int,
            dec_source(b@.skip(pos as int)),
            match r {
                Ok((v, p)) => Ok((v.model(), p as int)),
                Err(e) => Err(e@),
            },
        ),
    decreases b@.len() - pos, 0int,
{
    proof {
        reveal(dec_source);
        reveal(dec_source_struct_ref);
        reveal(dec_source_rust_type);
        reveal(dec_source_ref);
    }
    let (tag, p) = match get_u32(b, pos) {
        Err(e) => {
            return Err(e);
        },
        Ok(x) => x,
    };
    if tag == 0 {
        Ok((SourceType::I32, p))
    } else if tag == 1 {
        Ok((SourceType::I64, p))
    } else if tag == 2 {
        Ok((SourceType::F64, p))
    } else if tag == 3 {
        Ok((SourceType::Bool, p))
    } else if tag == 4 {
        Ok((SourceType::Void, p))
    } else if tag == 5 {
        Ok((SourceType::Usize, p))
    } else if tag == 6 {
        get_source_type_param(b, p)
    } else if tag == 7 {
        get_source_struct_ref(b, p)
    } else if tag == 8 {
        get_source_rust_type(b, p)
    } else if tag == 9 {
        get_source_ref(b, p)
    } else if tag == 10 {
        Ok((SourceType::Str, p))
    } else if tag == 11 {
        Ok((SourceType::ByteSlice, p))
    } else {
        Err(variant_error(tag, 12))
    }
}

fn get_source_type_param(b: &[u8], pos: usize) -> (r: Result<(SourceType, usize), String>)
    requires
        pos <= b@.len(),
    ensures
        read_at(
            b@,
            pos as int,
            dec_source_type_param(b@.skip(pos as int)),
            match r {
                Ok((v, p)) => Ok((v.model(), p as int)),
                Err(e) => Err(e@),
            },
        ),
{
    proof {
        reveal(dec_source_type_param);
    }
    let (f0, p0) = match get_str(b, pos) {
        Err(e) => {
            return Err(e);
        },
        Ok(x) => x,
    };
    Ok((SourceType::TypeParam(f0), p0))
}

fn get_source_struct_ref(b: &[u8], pos: usize) -> (r: Result<(SourceType, usize), String>)
    requires
        pos <= b@.len(),
    ensures
        read_at(
            b@,
            pos as int,
            dec_source_struct_ref(b@.skip(pos as int)),
            match r {
                Ok((v, p)) => Ok((v.model(), p as int)),
                Err(e) => Err(e@),
            },
        ),
    decreases b@.len() - pos, 8int,
{
    proof {
        reveal(dec_source_struct_ref);
        reveal(dec_sources);
    }
    let (name, p0) = match get_str(b, pos) {
        Err(e) => {
            return Err(e);
        },
        Ok(x) => x,
    };
    let (type_args, p1) = match get_sources(b, p0) {
        Err(e) => {
            return Err(e);
        },
        Ok(x) => x,
    };
    Ok((SourceType::StructRef { name: name, type_args: type_args }, p1))
}

fn get_source_rust_type(b: &[u8], pos: usize) -> (r: Result<(SourceType, usize), String>)
    requires
        pos <= b@.len(),
    ensures
        read_at(
            b@,
            pos as int,
            dec_source_rust_type(b@.skip(pos as int)),
            match r {
                Ok((v, p)) => Ok((v.model(), p as int)),
                Err(e) => Err(e@),
            },
        ),
    decreases b@.len() - pos, 8int,
{
    proof {
        reveal(dec_source_rust_type);
        reveal(dec_sources);
    }
    let (name, p0) = match get_str(b, pos) {
        Err(e) => {
            return Err(e);
        },
        Ok(x) => x,
    };
    let (type_args, p1) = match get_sources(b, p0) {
        Err(e) => {
            return Err(e);
        },
        Ok(x) => x,
    };
    Ok((SourceType::RustType { name: name, type_args: type_args }, p1))
}

fn get_source_ref(b: &[u8], pos: usize) -> (r: Result<(SourceType, usize), String>)
    requires
        pos <= b@.len(),
    ensures
        read_at(
            b@,
            pos as int,
            dec_source_ref(b@.skip(pos as int)),
            match r {
                Ok((v, p)) => Ok((v.model(), p as int)),
                Err(e) => Err(e@),
            },
        ),
    decreases b@.len() - pos, 8int,
{
    proof {
        reveal(dec_source_ref);
        reveal(dec_source);
    }
    let (inner, p0) = match get_source(b, pos) {
        Err(e) => {
            return Err(e);
        },
        Ok(x) => x,
    };
    Ok((SourceType::Ref { inner: Box::new(inner) }, p0))
}

/// The binary forms of several, one behind the other: a source type each.
#[verifier::opaque]
pub open spec fn enc_source_items(s: Seq<SourceTypeView>) -> Seq<u8>
    decreases s, 0int,
{
    if s.len() == 0 {
        Seq::empty()
    } else {
        enc_source(s[0]) + enc_source_items(s.drop_first())
    }
}

/// The binary form of a list, whose elements are a source type each.
#[verifier::opaque]
pub open spec fn enc_sources(s: Seq<SourceTypeView>) -> Seq<u8>
    decreases s, 1int,
{
    enc_u64(s.len()) + enc_source_items(s)
}

/// Reads `count` elements, a source type each.
#[verifier::opaque]
pub open spec fn dec_source_items(count: nat, b: Seq<u8>) -> Result<(Seq<SourceTypeView>, Seq<u8>), Seq<char>>
    decreases b.len(), 2int,
{
    if count == 0 {
        Ok((Seq::empty(), b))
    } else {
        match dec_source(b) {
            Err(e) => Err(e),
            Ok((first, r)) => if r.len() < b.len() {
                match dec_source_items((count - 1) as nat, r) {
                    Err(e) => Err(e),
                    Ok((others, s)) => Ok((seq![first] + others, s)),
                }
            } else {
                arbitrary()
            },
        }
    }
}

/// Reads a list, whose elements are a source type each.
#[verifier::opaque]
pub open spec fn dec_sources(b: Seq<u8>) -> Result<(Seq<SourceTypeView>, Seq<u8>), Seq<char>>
    decreases b.len(), 3int,
{
    match dec_u64(b) {
        Err(e) => Err(e),
        Ok((count, r)) => if r.len() < b.len() {
            dec_source_items(count as nat, r)
        } else {
            arbitrary()
        },
    }
}

/// Whether every length in a list fits in 64 bits.
#[verifier::opaque]
pub open spec fn fits_sources(s: Seq<SourceTypeView>) -> bool
    decreases s, 1int,
{
    s.len() <= u64::MAX && forall|i: int| 0 <= i < s.len() ==> fits_source(#[trigger] s[i])
}

proof fn lemma_source_items(s: Seq<SourceTypeView>, rest: Seq<u8>)
    requires
        forall|i: int| 0 <= i < s.len() ==> fits_source(#[trigger] s[i]),
    ensures
        dec_source_items(s.len(), enc_source_items(s) + rest) == Ok::<_, Seq<char>>((s, rest)),
    decreases s, 2int,
{
    reveal(enc_source_items);
    reveal(dec_source_items);
    reveal(enc_source);
    reveal(dec_source);
    if s.len() == 0 {
        assert(enc_source_items(s) + rest =~= rest);
        assert(s =~= Seq::empty());
    } else {
        let others = s.drop_first();
        assert forall|i: int| 0 <= i < others.len() implies fits_source(#[trigger] others[i]) by {
            assert(others[i] == s[i + 1]);
        }
        lemma_source_items(others, rest);
        assert(fits_source(s[0]));
        lemma_source(s[0], enc_source_items(others) + rest);
        assert(enc_source_items(s) + rest =~= enc_source(s[0]) + (enc_source_items(others) + rest));
        assert(s =~= seq![s[0]] + others);
    }
}

/// A list is read back from its binary form.
pub proof fn lemma_sources(s: Seq<SourceTypeView>, rest: Seq<u8>)
    requires
        fits_sources(s),
    ensures
        dec_sources(enc_sources(s) + rest) == Ok::<_, Seq<char>>((s, rest)),
        enc_sources(s).len() >= 8,
    decreases s, 3int,
{
    reveal(enc_sources);
    reveal(dec_sources);
    reveal(fits_sources);
    reveal(fits_source);
    reveal(enc_source_items);
    reveal(dec_source_items);
    lemma_source_items(s, rest);
    lemma_u64(s.len(), enc_source_items(s) + rest);
    assert(enc_sources(s) + rest =~= enc_u64(s.len()) + (enc_source_items(s) + rest));
}

proof fn lemma_enc_source_items_push(s: Seq<SourceTypeView>, v: SourceTypeView)
    ensures
        enc_source_items(s.push(v)) == enc_source_items(s) + enc_source(v),
    decreases s.len(),
{
    reveal(enc_source_items);
    reveal(enc_source);
    if s.len() == 0 {
        assert(s.push(v).drop_first() =~= s);
        assert(enc_source_items(s.push(v)) =~= enc_source(v) + enc_source_items(s));
        assert(enc_source_items(s) + enc_source(v) =~= enc_source(v) + enc_source_items(s));
    } else {
        assert(s.push(v).drop_first() =~= s.drop_first().push(v));
        lemma_enc_source_items_push(s.drop_first(), v);
        assert(enc_source_items(s.push(v)) =~= enc_source_items(s) + enc_source(v));
    }
}

/// Appends the binary form of a list.
pub fn put_sources(out: &mut Vec<u8>, v: &Vec<SourceType>)
    ensures
        final(out)@ == old(out)@ + enc_sources(source_views(v@)),
        fits_sources(source_views(v@)),
    decreases v, 1int,
{
    proof {
        reveal(enc_sources);
        reveal(fits_sources);
        reveal(enc_source_items);
        reveal(fits_source);
    }
    let ghost before = out@;
    let ghost all = source_views(v@);
    put_u64(out, v.len() as u64);
    let mut i: usize = 0;
    assert(all.take(0) =~= Seq::empty());
    assert(out@ =~= before + enc_u64(all.len()) + enc_source_items(all.take(0)));
    while i < v.len()
        invariant
            i <= v@.len(),
            all == source_views(v@),
            out@ == before + enc_u64(all.len()) + enc_source_items(all.take(i as int)),
            forall|j: int| 0 <= j < i ==> fits_source(#[trigger] all[j]),
        decreases v@.len() - i,
    {
        
        put_source(out, &v[i]);
        proof {
            let one = v@[i as int].model();
            assert(all.take(i + 1) =~= all.take(i as int).push(one));
            lemma_enc_source_items_push(all.take(i as int), one);
            assert(out@ =~= before + enc_u64(all.len()) + enc_source_items(all.take(i + 1)));
        }
        i += 1;
    }
    assert(all.take(v@.len() as int) =~= all);
    assert(out@ =~= before + enc_sources(all));
}

/// Reads a list at a position.
pub fn get_sources(b: &[u8], pos: usize) -> (r: Result<(Vec<SourceType>, usize), String>)
    requires
        pos <= b@.len(),
    ensures
        read_at(
            b@,
            pos as int,
            dec_sources(b@.skip(pos as int)),
            match r {
                Ok((v, p)) => Ok((source_views(v@), p as int)),
                Err(e) => Err(e@),
            },
        ),
    decreases b@.len() - pos, 3int,
{
    proof {
        reveal(dec_sources);
        reveal(dec_source_items);
    }
    let (count, start) = match get_u64(b, pos) {
        Err(e) => {
            return Err(e);
        },
        Ok(x) => x,
    };
    let ghost whole = dec_source_items(count as nat, b@.skip(start as int));
    let mut out: Vec<SourceType> = Vec::new();
    let mut p: usize = start;
    let mut i: u64 = 0;
    assert(whole is Ok ==> source_views(out@) + whole->Ok_0.0 =~= whole->Ok_0.0);
    while i < count
        invariant
            i <= count,
            pos < start <= p <= b@.len(),
            dec_sources(b@.skip(pos as int)) == whole,
            whole == (match dec_source_items((count - i) as nat, b@.skip(p as int)) {
                Ok((others, s)) => Ok((source_views(out@) + others, s)),
                Err(e) => Err(e),
            }),
        decreases count - i,
    {
        let ghost done = source_views(out@);
        proof {
            reveal(dec_source_items);
            reveal(dec_source);
        }
        let (one, q) = match get_source(b, p) {
            Err(e) => {
                return Err(e);
            },
            Ok(x) => x,
        };
        let ghost first = one.model();
        out.push(one);
        assert(source_views(out@) =~= done.push(first));
        assert(forall|others: Seq<SourceTypeView>|
            #[trigger] (source_views(out@) + others) =~= done + (seq![first] + others));
        p = q;
        i += 1;
    }
    proof {
        reveal(dec_source_items);
    }
    assert(source_views(out@) + Seq::<SourceTypeView>::empty() =~= source_views(out@));
    Ok((out, p))
}

/// The binary form of a resolved type.
#[verifier::opaque]
pub open spec fn enc_resolved(v: ResolvedTypeView) -> Seq<u8>
    decreases v, 0int,
{
    match v {
        ResolvedTypeView::I32 => enc_u32(0),
        ResolvedTypeView::I64 => enc_u32(1),
        ResolvedTypeView::F64 => enc_u32(2),
        ResolvedTypeView::Bool => enc_u32(3),
        ResolvedTypeView::Void => enc_u32(4),
        ResolvedTypeView::Usize => enc_u32(5),
        ResolvedTypeView::TypeParam(f0) => enc_u32(6) + enc_str(f0),
        ResolvedTypeView::Struct { name, type_args, field_types } => enc_u32(7) + enc_str(name) + enc_resolveds(type_args) + enc_resolveds(field_types),
        ResolvedTypeView::RustType { name, type_args } => enc_u32(8) + enc_str(name) + enc_resolveds(type_args),
        ResolvedTypeView::Ref { inner } => enc_u32(9) + enc_resolved(*inner),
        ResolvedTypeView::Str => enc_u32(10),
        ResolvedTypeView::ByteSlice => enc_u32(11),
    }
}

/// Reads a resolved type.
#[verifier::opaque]
pub open spec fn dec_resolved(b: Seq<u8>) -> Result<(ResolvedTypeView, Seq<u8>), Seq<char>>
    decreases b.len(), 0int,
{
    match dec_u32(b) {
        Err(e) => Err(e),
        Ok((tag, r)) => if tag == 0 {
            Ok((ResolvedTypeView::I32, r))
        } else if tag == 1 {
            Ok((ResolvedTypeView::I64, r))
        } else if tag == 2 {
            Ok((ResolvedTypeView::F64, r))
        } else if tag == 3 {
            Ok((ResolvedTypeView::Bool, r))
        } else if tag == 4 {
            Ok((ResolvedTypeView::Void, r))
        } else if tag == 5 {
            Ok((ResolvedTypeView::Usize, r))
        } else if tag == 6 {
            dec_resolved_type_param(r)
        } else if tag == 7 {
            if r.len() < b.len() {
                dec_resolved_struct(r)
            } else {
                arbitrary()
            }
        } else if tag == 8 {
            if r.len() < b.len() {
                dec_resolved_rust_type(r)
            } else {
                arbitrary()
            }
        } else if tag == 9 {
            if r.len() < b.len() {
                dec_resolved_ref(r)
            } else {
                arbitrary()
            }
        } else if tag == 10 {
            Ok((ResolvedTypeView::Str, r))
        } else if tag == 11 {
            Ok((ResolvedTypeView::ByteSlice, r))
        } else {
            Err(variant_text(tag as nat, 12))
        },
    }
}

/// Reads what follows the number of `TypeParam` in a resolved type.
#[verifier::opaque]
pub open spec fn dec_resolved_type_param(r: Seq<u8>) -> Result<(ResolvedTypeView, Seq<u8>), Seq<char>>
{
    match dec_str(r) {
        Err(e) => Err(e),
        Ok((f0, r0)) => Ok((ResolvedTypeView::TypeParam(f0), r0)),
    }
}

/// Reads what follows the number of `Struct` in a resolved type.
#[verifier::opaque]
pub open spec fn dec_resolved_struct(r: Seq<u8>) -> Result<(ResolvedTypeView, Seq<u8>), Seq<char>>
    decreases r.len(), 8int,
{
    match dec_str(r) {
        Err(e) => Err(e),
        Ok((name, r0)) => if r0.len() < r.len() {
            match dec_resolveds(r0) {
                Err(e) => Err(e),
                Ok((type_args, r1)) => if r1.len() < r.len() {
                    match dec_resolveds(r1) {
                        Err(e) => Err(e),
                        Ok((field_types, r2)) => Ok((ResolvedTypeView::Struct { name: name, type_args: type_args, field_types: field_types }, r2)),
                    }
                } else {
                    arbitrary()
                },
            }
        } else {
            arbitrary()
        },
    }
}

/// Reads what follows the number of `RustType` in a resolved type.
#[verifier::opaque]
pub open spec fn dec_resolved_rust_type(r: Seq<u8>) -> Result<(ResolvedTypeView, Seq<u8>), Seq<char>>
    decreases r.len(), 8int,
{
    match dec_str(r) {
        Err(e) => Err(e),
        Ok((name, r0)) => if r0.len() < r.len() {
            match dec_resolveds(r0) {
                Err(e) => Err(e),
                Ok((type_args, r1)) => Ok((ResolvedTypeView::RustType { name: name, type_args: type_args }, r1)),
            }
        } else {
            arbitrary()
        },
    }
}

/// Reads what follows the number of `Ref` in a resolved type.
#[verifier::opaque]
pub open spec fn dec_resolved_ref(r: Seq<u8>) -> Result<(ResolvedTypeView, Seq<u8>), Seq<char>>
    decreases r.len(), 8int,
{
    match dec_resolved(r) {
        Err(e) => Err(e),
        Ok((inner, r0)) => Ok((ResolvedTypeView::Ref { inner: Box::new(inner) }, r0)),
    }
}

/// Whether every length in a resolved type fits in 64 bits.
#[verifier::opaque]
pub open spec fn fits_resolved(v: ResolvedTypeView) -> bool
    decreases v, 0int,
{
    match v {
        ResolvedTypeView::TypeParam(f0) => encode_utf8(f0).len() <= u64::MAX,
        ResolvedTypeView::Struct { name, type_args, field_types } => encode_utf8(name).len() <= u64::MAX && fits_resolveds(type_args) && fits_resolveds(field_types),
        ResolvedTypeView::RustType { name, type_args } => encode_utf8(name).len() <= u64::MAX && fits_resolveds(type_args),
        ResolvedTypeView::Ref { inner } => fits_resolved(*inner),
        _ => true,
    }
}

/// A resolved type is read back from its binary form.
pub proof fn lemma_resolved(v: ResolvedTypeView, rest: Seq<u8>)
    requires
        fits_resolved(v),
    ensures
        dec_resolved(enc_resolved(v) + rest) == Ok::<_, Seq<char>>((v, rest)),
        enc_resolved(v).len() > 0,
    decreases v, 1int,
{
    reveal(enc_resolved);
    reveal(dec_resolved);
    match v {
        ResolvedTypeView::I32 => {
            lemma_u32(0, rest);
        },
        ResolvedTypeView::I64 => {
            lemma_u32(1, rest);
        },
        ResolvedTypeView::F64 => {
            lemma_u32(2, rest);
        },
        ResolvedTypeView::Bool => {
            lemma_u32(3, rest);
        },
        ResolvedTypeView::Void => {
            lemma_u32(4, rest);
        },
        ResolvedTypeView::Usize => {
            lemma_u32(5, rest);
        },
        ResolvedTypeView::TypeParam(f0) => {
            let payload = enc_str(f0);
            lemma_resolved_type_param(v, rest);
            lemma_u32(6, payload + rest);
            assert(enc_resolved(v) + rest =~= enc_u32(6) + (payload + rest));
        },
        ResolvedTypeView::Struct { name, type_args, field_types } => {
            reveal(enc_resolveds);
            reveal(dec_resolved_struct);
            let payload = enc_str(name) + enc_resolveds(type_args) + enc_resolveds(field_types);
            lemma_resolved_struct(v, rest);
            lemma_u32(7, payload + rest);
            assert(enc_resolved(v) + rest =~= enc_u32(7) + (payload + rest));
        },
        ResolvedTypeView::RustType { name, type_args } => {
            reveal(enc_resolveds);
            reveal(dec_resolved_rust_type);
            let payload = enc_str(name) + enc_resolveds(type_args);
            lemma_resolved_rust_type(v, rest);
            lemma_u32(8, payload + rest);
            assert(enc_resolved(v) + rest =~= enc_u32(8) + (payload + rest));
        },
        ResolvedTypeView::Ref { inner } => {
            reveal(dec_resolved_ref);
            let payload = enc_resolved(*inner);
            lemma_resolved_ref(v, rest);
            lemma_u32(9, payload + rest);
            assert(enc_resolved(v) + rest =~= enc_u32(9) + (payload + rest));
        },
        ResolvedTypeView::Str => {
            lemma_u32(10, rest);
        },
        ResolvedTypeView::ByteSlice => {
            lemma_u32(11, rest);
        },
    }
}

proof fn lemma_resolved_type_param(v: ResolvedTypeView, rest: Seq<u8>)
    requires
        v is TypeParam,
        fits_resolved(v),
    ensures
        v matches ResolvedTypeView::TypeParam(f0) ==> dec_resolved_type_param(enc_str(f0) + rest) == Ok::<_, Seq<char>>((v, rest)),
    decreases v, 0int,
{
    reveal(fits_resolved);
    reveal(dec_resolved_type_param);
    match v {
        ResolvedTypeView::TypeParam(f0) => {
            let t0 = rest;
            lemma_str(f0, t0);
            assert(enc_str(f0) + rest =~= enc_str(f0) + t0);
        },
        _ => {},
    }
}

proof fn lemma_resolved_struct(v: ResolvedTypeView, rest: Seq<u8>)
    requires
        v is Struct,
        fits_resolved(v),
    ensures
        v matches ResolvedTypeView::Struct { name, type_args, field_types } ==> dec_resolved_struct(enc_str(name) + enc_resolveds(type_args) + enc_resolveds(field_types) + rest) == Ok::<_, Seq<char>>((v, rest)),
    decreases v, 0int,
{
    reveal(fits_resolved);
    reveal(dec_resolved_struct);
    reveal(fits_resolveds);
    reveal(dec_resolveds);
    match v {
        ResolvedTypeView::Struct { name, type_args, field_types } => {
            let t2 = rest;
            lemma_resolveds(field_types, t2);
            let t1 = (enc_resolveds(field_types) + t2);
            lemma_resolveds(type_args, t1);
            let t0 = (enc_resolveds(type_args) + t1);
            lemma_str(name, t0);
            assert(enc_str(name) + enc_resolveds(type_args) + enc_resolveds(field_types) + rest =~= enc_str(name) + t0);
        },
        _ => {},
    }
}

proof fn lemma_resolved_rust_type(v: ResolvedTypeView, rest: Seq<u8>)
    requires
        v is RustType,
        fits_resolved(v),
    ensures
        v matches ResolvedTypeView::RustType { name, type_args } ==> dec_resolved_rust_type(enc_str(name) + enc_resolveds(type_args) + rest) == Ok::<_, Seq<char>>((v, rest)),
    decreases v, 0int,
{
    reveal(fits_resolved);
    reveal(dec_resolved_rust_type);
    reveal(fits_resolveds);
    reveal(dec_resolveds);
    match v {
        ResolvedTypeView::RustType { name, type_args } => {
            let t1 = rest;
            lemma_resolveds(type_args, t1);
            let t0 = (enc_resolveds(type_args) + t1);
            lemma_str(name, t0);
            assert(enc_str(name) + enc_resolveds(type_args) + rest =~= enc_str(name) + t0);
        },
        _ => {},
    }
}

proof fn lemma_resolved_ref(v: ResolvedTypeView, rest: Seq<u8>)
    requires
        v is Ref,
        fits_resolved(v),
    ensures
        v matches ResolvedTypeView::Ref { inner } ==> dec_resolved_ref(enc_resolved(*inner) + rest) == Ok::<_, Seq<char>>((v, rest)),
    decreases v, 0int,
{
    reveal(fits_resolved);
    reveal(dec_resolved_ref);
    reveal(dec_resolved);
    match v {
        ResolvedTypeView::Ref { inner } => {
            let t0 = rest;
            lemma_resolved(*inner, t0);
            assert(enc_resolved(*inner) + rest =~= enc_resolved(*inner) + t0);
        },
        _ => {},
    }
}

/// Appends the binary form of a resolved type.
pub fn put_resolved(out: &mut Vec<u8>, v: &ResolvedType)
    ensures
        final(out)@ == old(out)@ + enc_resolved(v.model()),
        fits_resolved(v.model()),
    decreases v, 0int,
{
    let ghost before = out@;
    match v {
        ResolvedType::I32 => {
            proof {
                reveal(enc_resolved);
                reveal(fits_resolved);
            }
            put_u32(out, 0);
        },
        ResolvedType::I64 => {
            proof {
                reveal(enc_resolved);
                reveal(fits_resolved);
            }
            put_u32(out, 1);
        },
        ResolvedType::F64 => {
            proof {
                reveal(enc_resolved);
                reveal(fits_resolved);
            }
            put_u32(out, 2);
        },
        ResolvedType::Bool => {
            proof {
                reveal(enc_resolved);
                reveal(fits_resolved);
            }
            put_u32(out, 3);
        },
        ResolvedType::Void => {
            proof {
                reveal(enc_resolved);
                reveal(fits_resolved);
            }
            put_u32(out, 4);
        },
        ResolvedType::Usize => {
            proof {
                reveal(enc_resolved);
                reveal(fits_resolved);
            }
            put_u32(out, 5);
        },
        ResolvedType::TypeParam(f0) => {
            proof {
                reveal(enc_resolved);
                reveal(fits_resolved);
            }
            put_u32(out, 6);
            put_str(out, f0);
            assert(out@ =~= before + enc_resolved(v.model()));
        },
        ResolvedType::Struct { name, type_args, field_types } => {
            proof {
                reveal(enc_resolved);
                reveal(fits_resolved);
                reveal(enc_resolveds);
                reveal(fits_resolveds);
            }
            put_u32(out, 7);
            put_str(out, name);
            put_resolveds(out, type_args);
            put_resolveds(out, field_types);
            assert(out@ =~= before + enc_resolved(v.model()));
        },
        ResolvedType::RustType { name, type_args } => {
            proof {
                reveal(enc_resolved);
                reveal(fits_resolved);
                reveal(enc_resolveds);
                reveal(fits_resolveds);
            }
            put_u32(out, 8);
            put_str(out, name);
            put_resolveds(out, type_args);
            assert(out@ =~= before + enc_resolved(v.model()));
        },
        ResolvedType::Ref { inner } => {
            proof {
                reveal(enc_resolved);
                reveal(fits_resolved);
            }
            put_u32(out, 9);
            put_resolved(out, inner);
            assert(out@ =~= before + enc_resolved(v.model()));
        },
        ResolvedType::Str => {
            proof {
                reveal(enc_resolved);
                reveal(fits_resolved);
            }
            put_u32(out, 10);
        },
        ResolvedType::ByteSlice => {
            proof {
                reveal(enc_resolved);
                reveal(fits_resolved);
            }
            put_u32(out, 11);
        },
    }
}

/// Reads a resolved type at a position.
pub fn get_resolved(b: &[u8], pos: usize) -> (r: Result<(ResolvedType, usize), String>)
    requires
        pos <= b@.len(),
    ensures
        read_at(
            b@,
            pos as int,
            dec_resolved(b@.skip(pos as int)),
            match r {
                Ok((v, p)) => Ok((v.model(), p as int)),
                Err(e) => Err(e@),
            },
        ),
    decreases b@.len() - pos, 0int,
{
    proof {
        reveal(dec_resolved);
        reveal(dec_resolved_struct);
        reveal(dec_resolved_rust_type);
        reveal(dec_resolved_ref);
    }
    let (tag, p) = match get_u32(b, pos) {
        Err(e) => {
            return Err(e);
        },
        Ok(x) => x,
    };
    if tag == 0 {
        Ok((ResolvedType::I32, p))
    } else if tag == 1 {
        Ok((ResolvedType::I64, p))
    } else if tag == 2 {
        Ok((ResolvedType::F64, p))
    } else if tag == 3 {
        Ok((ResolvedType::Bool, p))
    } else if tag == 4 {
        Ok((ResolvedType::Void, p))
    } else if tag == 5 {
        Ok((ResolvedType::Usize, p))
    } else if tag == 6 {
        get_resolved_type_param(b, p)
    } else if tag == 7 {
        get_resolved_struct(b, p)
    } else if tag == 8 {
        get_resolved_rust_type(b, p)
    } else if tag == 9 {
        get_resolved_ref(b, p)
    } else if tag == 10 {
        Ok((ResolvedType::Str, p))
    } else if tag == 11 {
        Ok((ResolvedType::ByteSlice, p))
    } else {
        Err(variant_error(tag, 12))
    }
}

fn get_resolved_type_param(b: &[u8], pos: usize) -> (r: Result<(ResolvedType, usize), String>)
    requires
        pos <= b@.len(),
    ensures
        read_at(
            b@,
            pos as int,
            dec_resolved_type_param(b@.skip(pos as int)),
            match r {
                Ok((v, p)) => Ok((v.model(), p as int)),
                Err(e) => Err(e@),
            },
        ),
{
    proof {
        reveal(dec_resolved_type_param);
    }
    let (f0, p0) = match get_str(b, pos) {
        Err(e) => {
            return Err(e);
        },
        Ok(x) => x,
    };
    Ok((ResolvedType::TypeParam(f0), p0))
}

fn get_resolved_struct(b: &[u8], pos: usize) -> (r: Result<(ResolvedType, usize), String>)
    requires
        pos <= b@.len(),
    ensures
        read_at(
            b@,
            pos as int,
            dec_resolved_struct(b@.skip(pos as int)),
            match r {
                Ok((v, p)) => Ok((v.model(), p as int)),
                Err(e) => Err(e@),
            },
        ),
    decreases b@.len() - pos, 8int,
{
    proof {
        reveal(dec_resolved_struct);
        reveal(dec_resolveds);
    }
    let (name, p0) = match get_str(b, pos) {
        Err(e) => {
            return Err(e);
        },
        Ok(x) => x,
    };
    let (type_args, p1) = match get_resolveds(b, p0) {
        Err(e) => {
            return Err(e);
        },
        Ok(x) => x,
    };
    let (field_types, p2) = match get_resolveds(b, p1) {
        Err(e) => {
            return Err(e);
        },
        Ok(x) => x,
    };
    Ok((ResolvedType::Struct { name: name, type_args: type_args, field_types: field_types }, p2))
}

fn get_resolved_rust_type(b: &[u8], pos: usize) -> (r: Result<(ResolvedType, usize), String>)
    requires
        pos <= b@.len(),
    ensures
        read_at(
            b@,
            pos as int,
            dec_resolved_rust_type(b@.skip(pos as int)),
            match r {
                Ok((v, p)) => Ok((v.model(), p as int)),
                Err(e) => Err(e@),
            },
        ),
    decreases b@.len() - pos, 8int,
{
    proof {
        reveal(dec_resolved_rust_type);
        reveal(dec_resolveds);
    }
    let (name, p0) = match get_str(b, pos) {
        Err(e) => {
            return Err(e);
        },
        Ok(x) => x,
    };
    let (type_args, p1) = match get_resolveds(b, p0) {
        Err(e) => {
            return Err(e);
        },
        Ok(x) => x,
    };
    Ok((ResolvedType::RustType { name: name, type_args: type_args }, p1))
}

fn get_resolved_ref(b: &[u8], pos: usize) -> (r: Result<(ResolvedType, usize), String>)
    requires
        pos <= b@.len(),
    ensures
        read_at(
            b@,
            pos as int,
            dec_resolved_ref(b@.skip(pos as int)),
            match r {
                Ok((v, p)) => Ok((v.model(), p as int)),
                Err(e) => Err(e@),
            },
        ),
    decreases b@.len() - pos, 8int,
{
    proof {
        reveal(dec_resolved_ref);
        reveal(dec_resolved);
    }
    let (inner, p0) = match get_resolved(b, pos) {
        Err(e) => {
            return Err(e);
        },
        Ok(x) => x,
    };
    Ok((ResolvedType::Ref { inner: Box::new(inner) }, p0))
}

/// The binary forms of several, one behind the other: a resolved type each.
#[verifier::opaque]
pub open spec fn enc_resolved_items(s: Seq<ResolvedTypeView>) -> Seq<u8>
    decreases s, 0int,
{
    if s.len() == 0 {
        Seq::empty()
    } else {
        enc_resolved(s[0]) + enc_resolved_items(s.drop_first())
    }
}

/// The binary form of a list, whose elements are a resolved type each.
#[verifier::opaque]
pub open spec fn enc_resolveds(s: Seq<ResolvedTypeView>) -> Seq<u8>
    decreases s, 1int,
{
    enc_u64(s.len()) + enc_resolved_items(s)
}

/// Reads `count` elements, a resolved type each.
#[verifier::opaque]
pub open spec fn dec_resolved_items(count: nat, b: Seq<u8>) -> Result<(Seq<ResolvedTypeView>, Seq<u8>), Seq<char>>
    decreases b.len(), 2int,
{
    if count == 0 {
        Ok((Seq::empty(), b))
    } else {
        match dec_resolved(b) {
            Err(e) => Err(e),
            Ok((first, r)) => if r.len() < b.len() {
                match dec_resolved_items((count - 1) as nat, r) {
                    Err(e) => Err(e),
                    Ok((others, s)) => Ok((seq![first] + others, s)),
                }
            } else {
                arbitrary()
            },
        }
    }
}

/// Reads a list, whose elements are a resolved type each.
#[verifier::opaque]
pub open spec fn dec_resolveds(b: Seq<u8>) -> Result<(Seq<ResolvedTypeView>, Seq<u8>), Seq<char>>
    decreases b.len(), 3int,
{
    match dec_u64(b) {
        Err(e) => Err(e),
        Ok((count, r)) => if r.len() < b.len() {
            dec_resolved_items(count as nat, r)
        } else {
            arbitrary()
        },
    }
}

/// Whether every length in a list fits in 64 bits.
#[verifier::opaque]
pub open spec fn fits_resolveds(s: Seq<ResolvedTypeView>) -> bool
    decreases s, 1int,
{
    s.len() <= u64::MAX && forall|i: int| 0 <= i < s.len() ==> fits_resolved(#[trigger] s[i])
}

proof fn lemma_resolved_items(s: Seq<ResolvedTypeView>, rest: Seq<u8>)
    requires
        forall|i: int| 0 <= i < s.len() ==> fits_resolved(#[trigger] s[i]),
    ensures
        dec_resolved_items(s.len(), enc_resolved_items(s) + rest) == Ok::<_, Seq<char>>((s, rest)),
    decreases s, 2int,
{
    reveal(enc_resolved_items);
    reveal(dec_resolved_items);
    reveal(enc_resolved);
    reveal(dec_resolved);
    if s.len() == 0 {
        assert(enc_resolved_items(s) + rest =~= rest);
        assert(s =~= Seq::empty());
    } else {
        let others = s.drop_first();
        assert forall|i: int| 0 <= i < others.len() implies fits_resolved(#[trigger] others[i]) by {
            assert(others[i] == s[i + 1]);
        }
        lemma_resolved_items(others, rest);
        assert(fits_resolved(s[0]));
        lemma_resolved(s[0], enc_resolved_items(others) + rest);
        assert(enc_resolved_items(s) + rest =~= enc_resolved(s[0]) + (enc_resolved_items(others) + rest));
        assert(s =~= seq![s[0]] + others);
    }
}

/// A list is read back from its binary form.
pub proof fn lemma_resolveds(s: Seq<ResolvedTypeView>, rest: Seq<u8>)
    requires
        fits_resolveds(s),
    ensures
        dec_resolveds(enc_resolveds(s) + rest) == Ok::<_, Seq<char>>((s, rest)),
        enc_resolveds(s).len() >= 8,
    decreases s, 3int,
{
    reveal(enc_resolveds);
    reveal(dec_resolveds);
    reveal(fits_resolveds);
    reveal(fits_resolved);
    reveal(enc_resolved_items);
    reveal(dec_resolved_items);
    lemma_resolved_items(s, rest);
    lemma_u64(s.len(), enc_resolved_items(s) + rest);
    assert(enc_resolveds(s) + rest =~= enc_u64(s.len()) + (enc_resolved_items(s) + rest));
}

proof fn lemma_enc_resolved_items_push(s: Seq<ResolvedTypeView>, v: ResolvedTypeView)
    ensures
        enc_resolved_items(s.push(v)) == enc_resolved_items(s) + enc_resolved(v),
    decreases s.len(),
{
    reveal(enc_resolved_items);
    reveal(enc_resolved);
    if s.len() == 0 {
        assert(s.push(v).drop_first() =~= s);
        assert(enc_resolved_items(s.push(v)) =~= enc_resolved(v) + enc_resolved_items(s));
        assert(enc_resolved_items(s) + enc_resolved(v) =~= enc_resolved(v) + enc_resolved_items(s));
    } else {
        assert(s.push(v).drop_first() =~= s.drop_first().push(v));
        lemma_enc_resolved_items_push(s.drop_first(), v);
        assert(enc_resolved_items(s.push(v)) =~= enc_resolved_items(s) + enc_resolved(v));
    }
}

/// Appends the binary form of a list.
pub fn put_resolveds(out: &mut Vec<u8>, v: &Vec<ResolvedType>)
    ensures
        final(out)@ == old(out)@ + enc_resolveds(resolved_views(v@)),
        fits_resolveds(resolved_views(v@)),
    decreases v, 1int,
{
    proof {
        reveal(enc_resolveds);
        reveal(fits_resolveds);
        reveal(enc_resolved_items);
        reveal(fits_resolved);
    }
    let ghost before = out@;
    let ghost all = resolved_views(v@);
    put_u64(out, v.len() as u64);
    let mut i: usize = 0;
    assert(all.take(0) =~= Seq::empty());
    assert(out@ =~= before + enc_u64(all.len()) + enc_resolved_items(all.take(0)));
    while i < v.len()
        invariant
            i <= v@.len(),
            all == resolved_views(v@),
            out@ == before + enc_u64(all.len()) + enc_resolved_items(all.take(i as int)),
            forall|j: int| 0 <= j < i ==> fits_resolved(#[trigger] all[j]),
        decreases v@.len() - i,
    {
        
        put_resolved(out, &v[i]);
        proof {
            let one = v@[i as int].model();
            assert(all.take(i + 1) =~= all.take(i as int).push(one));
            lemma_enc_resolved_items_push(all.take(i as int), one);
            assert(out@ =~= before + enc_u64(all.len()) + enc_resolved_items(all.take(i + 1)));
        }
        i += 1;
    }
    assert(all.take(v@.len() as int) =~= all);
    assert(out@ =~= before + enc_resolveds(all));
}

/// Reads a list at a position.
pub fn get_resolveds(b: &[u8], pos: usize) -> (r: Result<(Vec<ResolvedType>, usize), String>)
    requires
        pos <= b@.len(),
    ensures
        read_at(
            b@,
            pos as int,
            dec_resolveds(b@.skip(pos as int)),
            match r {
                Ok((v, p)) => Ok((resolved_views(v@), p as int)),
                Err(e) => Err(e@),
            },
        ),
    decreases b@.len() - pos, 3int,
{
    proof {
        reveal(dec_resolveds);
        reveal(dec_resolved_items);
    }
    let (count, start) = match get_u64(b, pos) {
        Err(e) => {
            return Err(e);
        },
        Ok(x) => x,
    };
    let ghost whole = dec_resolved_items(count as nat, b@.skip(start as int));
    let mut out: Vec<ResolvedType> = Vec::new();
    let mut p: usize = start;
    let mut i: u64 = 0;
    assert(whole is Ok ==> resolved_views(out@) + whole->Ok_0.0 =~= whole->Ok_0.0);
    while i < count
        invariant
            i <= count,
            pos < start <= p <= b@.len(),
            dec_resolveds(b@.skip(pos as int)) == whole,
            whole == (match dec_resolved_items((count - i) as nat, b@.skip(p as int)) {
                Ok((others, s)) => Ok((resolved_views(out@) + others, s)),
                Err(e) => Err(e),
            }),
        decreases count - i,
    {
        let ghost done = resolved_views(out@);
        proof {
            reveal(dec_resolved_items);
            reveal(dec_resolved);
        }
        let (one, q) = match get_resolved(b, p) {
            Err(e) => {
                return Err(e);
            },
            Ok(x) => x,
        };
        let ghost first = one.model();
        out.push(one);
        assert(resolved_views(out@) =~= done.push(first));
        assert(forall|others: Seq<ResolvedTypeView>|
            #[trigger] (resolved_views(out@) + others) =~= done + (seq![first] + others));
        p = q;
        i += 1;
    }
    proof {
        reveal(dec_resolved_items);
    }
    assert(resolved_views(out@) + Seq::<ResolvedTypeView>::empty() =~= resolved_views(out@));
    Ok((out, p))
}

impl Wire for SourceType {
    open spec fn enc(v: SourceTypeView) -> Seq<u8> {
        enc_source(v)
    }

    open spec fn dec(b: Seq<u8>) -> Result<(SourceTypeView, Seq<u8>), Seq<char>> {
        dec_source(b)
    }

    open spec fn fits(v: SourceTypeView) -> bool {
        fits_source(v)
    }

    proof fn lemma_read_back(v: SourceTypeView, rest: Seq<u8>) {
        lemma_source(v, rest);
    }

    fn write_to(&self, out: &mut Vec<u8>) {
        put_source(out, self);
    }

    fn read_from(b: &[u8], pos: usize) -> (r: Result<(Self, usize), String>) {
        get_source(b, pos)
    }
}

impl Wire for ResolvedType {
    open spec fn enc(v: ResolvedTypeView) -> Seq<u8> {
        enc_resolved(v)
    }

    open spec fn dec(b: Seq<u8>) -> Result<(ResolvedTypeView, Seq<u8>), Seq<char>> {
        dec_resolved(b)
    }

    open spec fn fits(v: ResolvedTypeView) -> bool {
        fits_resolved(v)
    }

    proof fn lemma_read_back(v: ResolvedTypeView, rest: Seq<u8>) {
        lemma_resolved(v, rest);
    }

    fn write_to(&self, out: &mut Vec<u8>) {
        put_resolved(out, self);
    }

    fn read_from(b: &[u8], pos: usize) -> (r: Result<(Self, usize), String>) {
        get_resolved(b, pos)
    }
}

} // verus!
