//! The binary form of a registry.
use crate::names::{lemma_put_last, names_increase, put, NameMap};
use crate::text::views;
use crate::toylang::ast::Block;
use crate::toylang::registry::{
    ids_increase, lemma_put_id_last, pair_views, put_id, DiscoveredTraitImplInstance, DiscoveredView, RegistryView, ToyField, ToyFieldView,
    ToyFunction, ToyFunctionView, ToyImpl, ToyImplMethod, ToyImplMethodView, ToyImplView, ToyParam, ToyParamView, ToyStruct, ToyStructView,
    ToylangRegistry, TypeIdEntry, TypeIdEntryView, TypeIdTable,
};
use crate::toylang::typed_ast::SourceType;
use crate::toylang::wire_types::{
    dec_resolveds, dec_sources, enc_resolveds, enc_sources, fits_resolveds, fits_sources, get_resolveds, get_sources, lemma_resolveds,
    lemma_sources, put_resolveds, put_sources,
};
use crate::wire::{
    dec_list, dec_opt, dec_str, dec_u64, enc_list, enc_opt, enc_str, enc_u64, get_list, get_opt, get_str, get_u64, lemma_list, lemma_opt,
    lemma_str, lemma_u64, list_fits, opt_fits, put_list, put_opt, put_str, put_u64, Wire,
};
use vstd::prelude::*;
use vstd::utf8::encode_utf8;

verus! {

broadcast use {vstd::seq::group_seq_axioms, vstd::std_specs::vec::group_vec_axioms};

/// The binary forms of some entries, one behind the other.
pub open spec fn enc_entries<V: Wire>(e: Seq<(Seq<char>, V::V)>) -> Seq<u8>
    decreases e.len(),
{
    if e.len() == 0 {
        Seq::empty()
    } else {
        enc_str(e[0].0) + V::enc(e[0].1) + enc_entries::<V>(e.drop_first())
    }
}

/// Reads `count` entries and puts them into `done`, one after the other.
pub open spec fn dec_entries<V: Wire>(
    count: nat,
    b: Seq<u8>,
    done: Seq<(Seq<char>, V::V)>,
) -> Result<(Seq<(Seq<char>, V::V)>, Seq<u8>), Seq<char>>
    decreases count,
{
    if count == 0 {
        Ok((done, b))
    } else {
        match dec_str(b) {
            Err(e) => Err(e),
            Ok((name, r)) => match V::dec(r) {
                Err(e) => Err(e),
                Ok((value, s)) => dec_entries::<V>((count - 1) as nat, s, put(done, name, value)),
            },
        }
    }
}

/// Entries with increasing names are read back behind those that precede them.
pub proof fn lemma_entries<V: Wire>(
    e: Seq<(Seq<char>, V::V)>,
    done: Seq<(Seq<char>, V::V)>,
    rest: Seq<u8>,
)
    requires
        names_increase(done + e),
        forall|i: int|
            0 <= i < e.len() ==> encode_utf8((#[trigger] e[i]).0).len() <= u64::MAX && V::fits(e[i].1),
    ensures
        dec_entries::<V>(e.len(), enc_entries::<V>(e) + rest, done) == Ok::<_, Seq<char>>((done + e, rest)),
    decreases e.len(),
{
    if e.len() == 0 {
        assert(enc_entries::<V>(e) + rest =~= rest);
        assert(done + e =~= done);
    } else {
        let others = e.drop_first();
        let next = done.push(e[0]);
        assert(next + others =~= done + e);
        assert forall|i: int| 0 <= i < others.len() implies encode_utf8(
            (#[trigger] others[i]).0,
        ).len() <= u64::MAX && V::fits(others[i].1) by {
            assert(others[i] == e[i + 1]);
        }
        assert forall|i: int| 0 <= i < done.len() implies crate::text::text_lt(
            (#[trigger] done[i]).0,
            e[0].0,
        ) by {
            assert((done + e)[i] == done[i]);
            assert((done + e)[done.len() as int] == e[0]);
        }
        lemma_put_last(done, e[0].0, e[0].1);
        lemma_entries::<V>(others, next, rest);
        let tail = enc_entries::<V>(others) + rest;
        assert(V::fits(e[0].1));
        V::lemma_read_back(e[0].1, tail);
        lemma_str(e[0].0, V::enc(e[0].1) + tail);
        assert(enc_entries::<V>(e) + rest =~= enc_str(e[0].0) + (V::enc(e[0].1) + tail));
        assert(put(done, e[0].0, e[0].1) == next);
    }
}

proof fn lemma_enc_entries_push<V: Wire>(e: Seq<(Seq<char>, V::V)>, name: Seq<char>, value: V::V)
    ensures
        enc_entries::<V>(e.push((name, value))) == enc_entries::<V>(e) + (enc_str(name) + V::enc(
            value,
        )),
    decreases e.len(),
{
    let pushed = e.push((name, value));
    if e.len() == 0 {
        assert(pushed.drop_first() =~= e);
        assert(enc_entries::<V>(pushed) =~= enc_entries::<V>(e) + (enc_str(name) + V::enc(value)));
    } else {
        assert(pushed.drop_first() =~= e.drop_first().push((name, value)));
        lemma_enc_entries_push::<V>(e.drop_first(), name, value);
        assert(enc_entries::<V>(pushed) =~= enc_entries::<V>(e) + (enc_str(name) + V::enc(value)));
    }
}

/// The binary form of a map: the number of its entries, then each name with
/// its value, in the order of the names.
#[verifier::opaque]
pub open spec fn enc_map<V: Wire>(v: Seq<(Seq<char>, V::V)>) -> Seq<u8> {
    enc_u64(v.len()) + enc_entries::<V>(v)
}

/// Reads a map. The entries may stand in any order; of several with one name
/// the last counts.
#[verifier::opaque]
pub open spec fn dec_map<V: Wire>(b: Seq<u8>) -> Result<(Seq<(Seq<char>, V::V)>, Seq<u8>), Seq<char>> {
    match dec_u64(b) {
        Err(e) => Err(e),
        Ok((count, r)) => dec_entries::<V>(count as nat, r, Seq::empty()),
    }
}

/// Whether the names of a map increase, and every length in it fits in 64 bits.
#[verifier::opaque]
pub open spec fn map_fits<V: Wire>(v: Seq<(Seq<char>, V::V)>) -> bool {
    &&& v.len() <= u64::MAX
    &&& names_increase(v)
    &&& forall|i: int|
        0 <= i < v.len() ==> encode_utf8((#[trigger] v[i]).0).len() <= u64::MAX && V::fits(v[i].1)
}

impl<V: Wire> Wire for NameMap<V> {
    open spec fn enc(v: Seq<(Seq<char>, V::V)>) -> Seq<u8> {
        enc_map::<V>(v)
    }

    open spec fn dec(b: Seq<u8>) -> Result<(Seq<(Seq<char>, V::V)>, Seq<u8>), Seq<char>> {
        dec_map::<V>(b)
    }

    open spec fn fits(v: Seq<(Seq<char>, V::V)>) -> bool {
        map_fits::<V>(v)
    }

    proof fn lemma_read_back(v: Seq<(Seq<char>, V::V)>, rest: Seq<u8>) {
        reveal(enc_map);
        reveal(dec_map);
        reveal(map_fits);
        assert(Seq::<(Seq<char>, V::V)>::empty() + v =~= v);
        lemma_entries::<V>(v, Seq::empty(), rest);
        lemma_u64(v.len(), enc_entries::<V>(v) + rest);
        assert(Self::enc(v) + rest =~= enc_u64(v.len()) + (enc_entries::<V>(v) + rest));
    }

    fn write_to(&self, out: &mut Vec<u8>) {
        proof {
            reveal(enc_map);
            reveal(map_fits);
        }
        let ghost before = out@;
        let ghost all = self@;
        let n = self.len();
        put_u64(out, n as u64);
        let mut i: usize = 0;
        assert(all.take(0) =~= Seq::empty());
        assert(out@ =~= before + enc_u64(all.len()) + enc_entries::<V>(all.take(0)));
        while i < n
            invariant
                i <= n,
                n == all.len(),
                all == self@,
                out@ == before + enc_u64(all.len()) + enc_entries::<V>(all.take(i as int)),
                forall|j: int|
                    0 <= j < i ==> encode_utf8((#[trigger] all[j]).0).len() <= u64::MAX && V::fits(
                        all[j].1,
                    ),
            decreases n - i,
        {
            let ghost so_far = out@;
            put_str(out, self.key_at(i));
            self.value_at(i).write_to(out);
            proof {
                let one = all[i as int];
                assert(all.take(i + 1) =~= all.take(i as int).push((one.0, one.1)));
                lemma_enc_entries_push::<V>(all.take(i as int), one.0, one.1);
                assert(out@ =~= so_far + (enc_str(one.0) + V::enc(one.1)));
                assert(out@ =~= before + enc_u64(all.len()) + enc_entries::<V>(all.take(i + 1)));
            }
            i += 1;
        }
        assert(all.take(n as int) =~= all);
        assert(out@ =~= before + Self::enc(all));
    }

    fn read_from(b: &[u8], pos: usize) -> (r: Result<(Self, usize), String>) {
        proof {
            reveal(dec_map);
        }
        let (count, start) = match get_u64(b, pos) {
            Err(e) => {
                return Err(e);
            },
            Ok(x) => x,
        };
        let mut map: NameMap<V> = NameMap::new();
        let mut p: usize = start;
        let mut i: u64 = 0;
        assert(map@ =~= Seq::empty());
        let ghost whole = Self::dec(b@.skip(pos as int));
        while i < count
            invariant
                i <= count,
                pos < start <= p <= b@.len(),
                whole == Self::dec(b@.skip(pos as int)),
                whole == dec_entries::<V>((count - i) as nat, b@.skip(p as int), map@),
            decreases count - i,
        {
            let (name, q) = match get_str(b, p) {
                Err(e) => {
                    return Err(e);
                },
                Ok(x) => x,
            };
            let (value, s) = match V::read_from(b, q) {
                Err(e) => {
                    return Err(e);
                },
                Ok(x) => x,
            };
            map.insert(name, value);
            p = s;
            i += 1;
        }
        Ok((map, p))
    }
}

impl Wire for ToyField {
    open spec fn enc(v: ToyFieldView) -> Seq<u8> {
        String::enc(v.name) + SourceType::enc(v.rust_type)
    }

    open spec fn dec(b: Seq<u8>) -> Result<(ToyFieldView, Seq<u8>), Seq<char>> {
        match String::dec(b) {
            Err(e) => Err(e),
            Ok((name, r0)) => match SourceType::dec(r0) {
                Err(e) => Err(e),
                Ok((rust_type, r1)) => Ok((ToyFieldView { name, rust_type }, r1)),
            },
        }
    }

    open spec fn fits(v: ToyFieldView) -> bool {
        &&& String::fits(v.name)
        &&& SourceType::fits(v.rust_type)
    }

    proof fn lemma_read_back(v: ToyFieldView, rest: Seq<u8>) {
        let t1 = rest;
        SourceType::lemma_read_back(v.rust_type, t1);
        let t0 = SourceType::enc(v.rust_type) + t1;
        String::lemma_read_back(v.name, t0);
        assert(Self::enc(v) + rest =~= String::enc(v.name) + t0);
    }

    fn write_to(&self, out: &mut Vec<u8>) {
        let ghost before = out@;
        self.name.write_to(out);
        self.rust_type.write_to(out);
        assert(out@ =~= before + Self::enc(self@));
    }

    fn read_from(b: &[u8], pos: usize) -> (r: Result<(Self, usize), String>) {
        let (name, p0) = match String::read_from(b, pos) {
            Err(e) => {
                return Err(e);
            },
            Ok(x) => x,
        };
        let (rust_type, p1) = match SourceType::read_from(b, p0) {
            Err(e) => {
                return Err(e);
            },
            Ok(x) => x,
        };
        Ok((ToyField { name, rust_type }, p1))
    }
}

impl Wire for ToyStruct {
    open spec fn enc(v: ToyStructView) -> Seq<u8> {
        enc_list::<String>(v.type_params) + enc_list::<ToyField>(v.fields)
    }

    open spec fn dec(b: Seq<u8>) -> Result<(ToyStructView, Seq<u8>), Seq<char>> {
        match dec_list::<String>(b) {
            Err(e) => Err(e),
            Ok((type_params, r0)) => match dec_list::<ToyField>(r0) {
                Err(e) => Err(e),
                Ok((fields, r1)) => Ok((ToyStructView { type_params, fields }, r1)),
            },
        }
    }

    open spec fn fits(v: ToyStructView) -> bool {
        &&& list_fits::<String>(v.type_params)
        &&& list_fits::<ToyField>(v.fields)
    }

    proof fn lemma_read_back(v: ToyStructView, rest: Seq<u8>) {
        let t1 = rest;
        lemma_list::<ToyField>(v.fields, t1);
        let t0 = enc_list::<ToyField>(v.fields) + t1;
        lemma_list::<String>(v.type_params, t0);
        assert(Self::enc(v) + rest =~= enc_list::<String>(v.type_params) + t0);
    }

    fn write_to(&self, out: &mut Vec<u8>) {
        let ghost before = out@;
        put_list::<String>(out, &self.type_params);
        put_list::<ToyField>(out, &self.fields);
        assert(out@ =~= before + Self::enc(self@));
    }

    fn read_from(b: &[u8], pos: usize) -> (r: Result<(Self, usize), String>) {
        let (type_params, p0) = match get_list::<String>(b, pos) {
            Err(e) => {
                return Err(e);
            },
            Ok(x) => x,
        };
        let (fields, p1) = match get_list::<ToyField>(b, p0) {
            Err(e) => {
                return Err(e);
            },
            Ok(x) => x,
        };
        Ok((ToyStruct { type_params, fields }, p1))
    }
}

impl Wire for ToyParam {
    open spec fn enc(v: ToyParamView) -> Seq<u8> {
        String::enc(v.name) + SourceType::enc(v.ty)
    }

    open spec fn dec(b: Seq<u8>) -> Result<(ToyParamView, Seq<u8>), Seq<char>> {
        match String::dec(b) {
            Err(e) => Err(e),
            Ok((name, r0)) => match SourceType::dec(r0) {
                Err(e) => Err(e),
                Ok((ty, r1)) => Ok((ToyParamView { name, ty }, r1)),
            },
        }
    }

    open spec fn fits(v: ToyParamView) -> bool {
        &&& String::fits(v.name)
        &&& SourceType::fits(v.ty)
    }

    proof fn lemma_read_back(v: ToyParamView, rest: Seq<u8>) {
        let t1 = rest;
        SourceType::lemma_read_back(v.ty, t1);
        let t0 = SourceType::enc(v.ty) + t1;
        String::lemma_read_back(v.name, t0);
        assert(Self::enc(v) + rest =~= String::enc(v.name) + t0);
    }

    fn write_to(&self, out: &mut Vec<u8>) {
        let ghost before = out@;
        self.name.write_to(out);
        self.ty.write_to(out);
        assert(out@ =~= before + Self::enc(self@));
    }

    fn read_from(b: &[u8], pos: usize) -> (r: Result<(Self, usize), String>) {
        let (name, p0) = match String::read_from(b, pos) {
            Err(e) => {
                return Err(e);
            },
            Ok(x) => x,
        };
        let (ty, p1) = match SourceType::read_from(b, p0) {
            Err(e) => {
                return Err(e);
            },
            Ok(x) => x,
        };
        Ok((ToyParam { name, ty }, p1))
    }
}

impl Wire for ToyFunction {
    open spec fn enc(v: ToyFunctionView) -> Seq<u8> {
        enc_list::<String>(v.type_params) + enc_list::<ToyParam>(v.params) + enc_opt::<SourceType>(v.return_ty) + enc_opt::<Block>(v.body) + bool::enc(v.is_export)
    }

    open spec fn dec(b: Seq<u8>) -> Result<(ToyFunctionView, Seq<u8>), Seq<char>> {
        match dec_list::<String>(b) {
            Err(e) => Err(e),
            Ok((type_params, r0)) => match dec_list::<ToyParam>(r0) {
                Err(e) => Err(e),
                Ok((params, r1)) => match dec_opt::<SourceType>(r1) {
                    Err(e) => Err(e),
                    Ok((return_ty, r2)) => match dec_opt::<Block>(r2) {
                        Err(e) => Err(e),
                        Ok((body, r3)) => match bool::dec(r3) {
                            Err(e) => Err(e),
                            Ok((is_export, r4)) => Ok((ToyFunctionView { type_params, params, return_ty, body, is_export }, r4)),
                        },
                    },
                },
            },
        }
    }

    open spec fn fits(v: ToyFunctionView) -> bool {
        &&& list_fits::<String>(v.type_params)
        &&& list_fits::<ToyParam>(v.params)
        &&& opt_fits::<SourceType>(v.return_ty)
        &&& opt_fits::<Block>(v.body)
        &&& bool::fits(v.is_export)
    }

    proof fn lemma_read_back(v: ToyFunctionView, rest: Seq<u8>) {
        let t4 = rest;
        bool::lemma_read_back(v.is_export, t4);
        let t3 = bool::enc(v.is_export) + t4;
        lemma_opt::<Block>(v.body, t3);
        let t2 = enc_opt::<Block>(v.body) + t3;
        lemma_opt::<SourceType>(v.return_ty, t2);
        let t1 = enc_opt::<SourceType>(v.return_ty) + t2;
        lemma_list::<ToyParam>(v.params, t1);
        let t0 = enc_list::<ToyParam>(v.params) + t1;
        lemma_list::<String>(v.type_params, t0);
        assert(Self::enc(v) + rest =~= enc_list::<String>(v.type_params) + t0);
    }

    fn write_to(&self, out: &mut Vec<u8>) {
        let ghost before = out@;
        put_list::<String>(out, &self.type_params);
        put_list::<ToyParam>(out, &self.params);
        put_opt::<SourceType>(out, &self.return_ty);
        put_opt::<Block>(out, &self.body);
        self.is_export.write_to(out);
        assert(out@ =~= before + Self::enc(self@));
    }

    fn read_from(b: &[u8], pos: usize) -> (r: Result<(Self, usize), String>) {
        let (type_params, p0) = match get_list::<String>(b, pos) {
            Err(e) => {
                return Err(e);
            },
            Ok(x) => x,
        };
        let (params, p1) = match get_list::<ToyParam>(b, p0) {
            Err(e) => {
                return Err(e);
            },
            Ok(x) => x,
        };
        let (return_ty, p2) = match get_opt::<SourceType>(b, p1) {
            Err(e) => {
                return Err(e);
            },
            Ok(x) => x,
        };
        let (body, p3) = match get_opt::<Block>(b, p2) {
            Err(e) => {
                return Err(e);
            },
            Ok(x) => x,
        };
        let (is_export, p4) = match bool::read_from(b, p3) {
            Err(e) => {
                return Err(e);
            },
            Ok(x) => x,
        };
        Ok((ToyFunction { type_params, params, return_ty, body, is_export }, p4))
    }
}

impl Wire for ToyImplMethod {
    open spec fn enc(v: ToyImplMethodView) -> Seq<u8> {
        String::enc(v.name) + ToyFunction::enc(v.func) + bool::enc(v.is_self_mut)
    }

    open spec fn dec(b: Seq<u8>) -> Result<(ToyImplMethodView, Seq<u8>), Seq<char>> {
        match String::dec(b) {
            Err(e) => Err(e),
            Ok((name, r0)) => match ToyFunction::dec(r0) {
                Err(e) => Err(e),
                Ok((func, r1)) => match bool::dec(r1) {
                    Err(e) => Err(e),
                    Ok((is_self_mut, r2)) => Ok((ToyImplMethodView { name, func, is_self_mut }, r2)),
                },
            },
        }
    }

    open spec fn fits(v: ToyImplMethodView) -> bool {
        &&& String::fits(v.name)
        &&& ToyFunction::fits(v.func)
        &&& bool::fits(v.is_self_mut)
    }

    proof fn lemma_read_back(v: ToyImplMethodView, rest: Seq<u8>) {
        let t2 = rest;
        bool::lemma_read_back(v.is_self_mut, t2);
        let t1 = bool::enc(v.is_self_mut) + t2;
        ToyFunction::lemma_read_back(v.func, t1);
        let t0 = ToyFunction::enc(v.func) + t1;
        String::lemma_read_back(v.name, t0);
        assert(Self::enc(v) + rest =~= String::enc(v.name) + t0);
    }

    fn write_to(&self, out: &mut Vec<u8>) {
        let ghost before = out@;
        self.name.write_to(out);
        self.func.write_to(out);
        self.is_self_mut.write_to(out);
        assert(out@ =~= before + Self::enc(self@));
    }

    fn read_from(b: &[u8], pos: usize) -> (r: Result<(Self, usize), String>) {
        let (name, p0) = match String::read_from(b, pos) {
            Err(e) => {
                return Err(e);
            },
            Ok(x) => x,
        };
        let (func, p1) = match ToyFunction::read_from(b, p0) {
            Err(e) => {
                return Err(e);
            },
            Ok(x) => x,
        };
        let (is_self_mut, p2) = match bool::read_from(b, p1) {
            Err(e) => {
                return Err(e);
            },
            Ok(x) => x,
        };
        Ok((ToyImplMethod { name, func, is_self_mut }, p2))
    }
}

impl Wire for ToyImpl {
    open spec fn enc(v: ToyImplView) -> Seq<u8> {
        String::enc(v.trait_name) + String::enc(v.self_type_name) + bool::enc(v.is_export) + enc_list::<String>(v.type_params) + enc_list::<(String, String)>(v.type_param_bounds) + enc_list::<String>(v.self_type_args) + enc_list::<ToyImplMethod>(v.methods)
    }

    open spec fn dec(b: Seq<u8>) -> Result<(ToyImplView, Seq<u8>), Seq<char>> {
        match String::dec(b) {
            Err(e) => Err(e),
            Ok((trait_name, r0)) => match String::dec(r0) {
                Err(e) => Err(e),
                Ok((self_type_name, r1)) => match bool::dec(r1) {
                    Err(e) => Err(e),
                    Ok((is_export, r2)) => match dec_list::<String>(r2) {
                        Err(e) => Err(e),
                        Ok((type_params, r3)) => match dec_list::<(String, String)>(r3) {
                            Err(e) => Err(e),
                            Ok((type_param_bounds, r4)) => match dec_list::<String>(r4) {
                                Err(e) => Err(e),
                                Ok((self_type_args, r5)) => match dec_list::<ToyImplMethod>(r5) {
                                    Err(e) => Err(e),
                                    Ok((methods, r6)) => Ok((ToyImplView { trait_name, self_type_name, is_export, type_params, type_param_bounds, self_type_args, methods }, r6)),
                                },
                            },
                        },
                    },
                },
            },
        }
    }

    open spec fn fits(v: ToyImplView) -> bool {
        &&& String::fits(v.trait_name)
        &&& String::fits(v.self_type_name)
        &&& bool::fits(v.is_export)
        &&& list_fits::<String>(v.type_params)
        &&& list_fits::<(String, String)>(v.type_param_bounds)
        &&& list_fits::<String>(v.self_type_args)
        &&& list_fits::<ToyImplMethod>(v.methods)
    }

    proof fn lemma_read_back(v: ToyImplView, rest: Seq<u8>) {
        let t6 = rest;
        lemma_list::<ToyImplMethod>(v.methods, t6);
        let t5 = enc_list::<ToyImplMethod>(v.methods) + t6;
        lemma_list::<String>(v.self_type_args, t5);
        let t4 = enc_list::<String>(v.self_type_args) + t5;
        lemma_list::<(String, String)>(v.type_param_bounds, t4);
        let t3 = enc_list::<(String, String)>(v.type_param_bounds) + t4;
        lemma_list::<String>(v.type_params, t3);
        let t2 = enc_list::<String>(v.type_params) + t3;
        bool::lemma_read_back(v.is_export, t2);
        let t1 = bool::enc(v.is_export) + t2;
        String::lemma_read_back(v.self_type_name, t1);
        let t0 = String::enc(v.self_type_name) + t1;
        String::lemma_read_back(v.trait_name, t0);
        assert(Self::enc(v) + rest =~= String::enc(v.trait_name) + t0);
    }

    fn write_to(&self, out: &mut Vec<u8>) {
        let ghost before = out@;
        self.trait_name.write_to(out);
        self.self_type_name.write_to(out);
        self.is_export.write_to(out);
        put_list::<String>(out, &self.type_params);
        put_list::<(String, String)>(out, &self.type_param_bounds);
        assert(views(self.type_param_bounds@) =~= pair_views(self.type_param_bounds@));
        put_list::<String>(out, &self.self_type_args);
        put_list::<ToyImplMethod>(out, &self.methods);
        assert(out@ =~= before + Self::enc(self@));
    }

    fn read_from(b: &[u8], pos: usize) -> (r: Result<(Self, usize), String>) {
        let (trait_name, p0) = match String::read_from(b, pos) {
            Err(e) => {
                return Err(e);
            },
            Ok(x) => x,
        };
        let (self_type_name, p1) = match String::read_from(b, p0) {
            Err(e) => {
                return Err(e);
            },
            Ok(x) => x,
        };
        let (is_export, p2) = match bool::read_from(b, p1) {
            Err(e) => {
                return Err(e);
            },
            Ok(x) => x,
        };
        let (type_params, p3) = match get_list::<String>(b, p2) {
            Err(e) => {
                return Err(e);
            },
            Ok(x) => x,
        };
        let (type_param_bounds, p4) = match get_list::<(String, String)>(b, p3) {
            Err(e) => {
                return Err(e);
            },
            Ok(x) => x,
        };
        assert(views(type_param_bounds@) =~= pair_views(type_param_bounds@));
        let (self_type_args, p5) = match get_list::<String>(b, p4) {
            Err(e) => {
                return Err(e);
            },
            Ok(x) => x,
        };
        let (methods, p6) = match get_list::<ToyImplMethod>(b, p5) {
            Err(e) => {
                return Err(e);
            },
            Ok(x) => x,
        };
        Ok((ToyImpl { trait_name, self_type_name, is_export, type_params, type_param_bounds, self_type_args, methods }, p6))
    }
}

impl Wire for DiscoveredTraitImplInstance {
    open spec fn enc(v: DiscoveredView) -> Seq<u8> {
        String::enc(v.self_type_name) + String::enc(v.trait_name) + String::enc(v.method_name) + enc_resolveds(v.concrete_args)
    }

    open spec fn dec(b: Seq<u8>) -> Result<(DiscoveredView, Seq<u8>), Seq<char>> {
        match String::dec(b) {
            Err(e) => Err(e),
            Ok((self_type_name, r0)) => match String::dec(r0) {
                Err(e) => Err(e),
                Ok((trait_name, r1)) => match String::dec(r1) {
                    Err(e) => Err(e),
                    Ok((method_name, r2)) => match dec_resolveds(r2) {
                        Err(e) => Err(e),
                        Ok((concrete_args, r3)) => Ok((DiscoveredView { self_type_name, trait_name, method_name, concrete_args }, r3)),
                    },
                },
            },
        }
    }

    open spec fn fits(v: DiscoveredView) -> bool {
        &&& String::fits(v.self_type_name)
        &&& String::fits(v.trait_name)
        &&& String::fits(v.method_name)
        &&& fits_resolveds(v.concrete_args)
    }

    proof fn lemma_read_back(v: DiscoveredView, rest: Seq<u8>) {
        let t3 = rest;
        lemma_resolveds(v.concrete_args, t3);
        let t2 = enc_resolveds(v.concrete_args) + t3;
        String::lemma_read_back(v.method_name, t2);
        let t1 = String::enc(v.method_name) + t2;
        String::lemma_read_back(v.trait_name, t1);
        let t0 = String::enc(v.trait_name) + t1;
        String::lemma_read_back(v.self_type_name, t0);
        assert(Self::enc(v) + rest =~= String::enc(v.self_type_name) + t0);
    }

    fn write_to(&self, out: &mut Vec<u8>) {
        let ghost before = out@;
        self.self_type_name.write_to(out);
        self.trait_name.write_to(out);
        self.method_name.write_to(out);
        put_resolveds(out, &self.concrete_args);
        assert(out@ =~= before + Self::enc(self@));
    }

    fn read_from(b: &[u8], pos: usize) -> (r: Result<(Self, usize), String>) {
        let (self_type_name, p0) = match String::read_from(b, pos) {
            Err(e) => {
                return Err(e);
            },
            Ok(x) => x,
        };
        let (trait_name, p1) = match String::read_from(b, p0) {
            Err(e) => {
                return Err(e);
            },
            Ok(x) => x,
        };
        let (method_name, p2) = match String::read_from(b, p1) {
            Err(e) => {
                return Err(e);
            },
            Ok(x) => x,
        };
        let (concrete_args, p3) = match get_resolveds(b, p2) {
            Err(e) => {
                return Err(e);
            },
            Ok(x) => x,
        };
        Ok((DiscoveredTraitImplInstance { self_type_name, trait_name, method_name, concrete_args }, p3))
    }
}

impl Wire for TypeIdEntry {
    open spec fn enc(v: TypeIdEntryView) -> Seq<u8> {
        u64::enc(v.id) + String::enc(v.name) + enc_sources(v.type_args)
    }

    open spec fn dec(b: Seq<u8>) -> Result<(TypeIdEntryView, Seq<u8>), Seq<char>> {
        match u64::dec(b) {
            Err(e) => Err(e),
            Ok((id, r0)) => match String::dec(r0) {
                Err(e) => Err(e),
                Ok((name, r1)) => match dec_sources(r1) {
                    Err(e) => Err(e),
                    Ok((type_args, r2)) => Ok((TypeIdEntryView { id, name, type_args }, r2)),
                },
            },
        }
    }

    open spec fn fits(v: TypeIdEntryView) -> bool {
        &&& u64::fits(v.id)
        &&& String::fits(v.name)
        &&& fits_sources(v.type_args)
    }

    proof fn lemma_read_back(v: TypeIdEntryView, rest: Seq<u8>) {
        let t2 = rest;
        lemma_sources(v.type_args, t2);
        let t1 = enc_sources(v.type_args) + t2;
        String::lemma_read_back(v.name, t1);
        let t0 = String::enc(v.name) + t1;
        u64::lemma_read_back(v.id, t0);
        assert(Self::enc(v) + rest =~= u64::enc(v.id) + t0);
    }

    fn write_to(&self, out: &mut Vec<u8>) {
        let ghost before = out@;
        self.id.write_to(out);
        self.name.write_to(out);
        put_sources(out, &self.type_args);
        assert(out@ =~= before + Self::enc(self@));
    }

    fn read_from(b: &[u8], pos: usize) -> (r: Result<(Self, usize), String>) {
        let (id, p0) = match u64::read_from(b, pos) {
            Err(e) => {
                return Err(e);
            },
            Ok(x) => x,
        };
        let (name, p1) = match String::read_from(b, p0) {
            Err(e) => {
                return Err(e);
            },
            Ok(x) => x,
        };
        let (type_args, p2) = match get_sources(b, p1) {
            Err(e) => {
                return Err(e);
            },
            Ok(x) => x,
        };
        Ok((TypeIdEntry { id, name, type_args }, p2))
    }
}

/// Reads `count` entries and puts them into `done`, one after the other.
pub open spec fn dec_id_entries(
    count: nat,
    b: Seq<u8>,
    done: Seq<TypeIdEntryView>,
) -> Result<(Seq<TypeIdEntryView>, Seq<u8>), Seq<char>>
    decreases count,
{
    if count == 0 {
        Ok((done, b))
    } else {
        match TypeIdEntry::dec(b) {
            Err(e) => Err(e),
            Ok((entry, r)) => dec_id_entries((count - 1) as nat, r, put_id(done, entry)),
        }
    }
}

/// Entries with increasing ids are read back behind those that precede them.
pub proof fn lemma_id_entries(e: Seq<TypeIdEntryView>, done: Seq<TypeIdEntryView>, rest: Seq<u8>)
    requires
        ids_increase(done + e),
        forall|i: int| 0 <= i < e.len() ==> TypeIdEntry::fits(#[trigger] e[i]),
    ensures
        dec_id_entries(e.len(), crate::wire::enc_items::<TypeIdEntry>(e) + rest, done) == Ok::<_, Seq<char>>(
            (done + e, rest),
        ),
    decreases e.len(),
{
    if e.len() == 0 {
        assert(crate::wire::enc_items::<TypeIdEntry>(e) + rest =~= rest);
        assert(done + e =~= done);
    } else {
        let others = e.drop_first();
        let next = done.push(e[0]);
        assert(next + others =~= done + e);
        assert forall|i: int| 0 <= i < others.len() implies TypeIdEntry::fits(
            #[trigger] others[i],
        ) by {
            assert(others[i] == e[i + 1]);
        }
        assert forall|i: int| 0 <= i < done.len() implies (#[trigger] done[i]).id < e[0].id by {
            assert((done + e)[i] == done[i]);
            assert((done + e)[done.len() as int] == e[0]);
        }
        lemma_put_id_last(done, e[0]);
        lemma_id_entries(others, next, rest);
        let tail = crate::wire::enc_items::<TypeIdEntry>(others) + rest;
        assert(TypeIdEntry::fits(e[0]));
        TypeIdEntry::lemma_read_back(e[0], tail);
        assert(crate::wire::enc_items::<TypeIdEntry>(e) + rest =~= TypeIdEntry::enc(e[0]) + tail);
    }
}

/// Reads a table. The entries may stand in any order; of several with one id
/// the last counts.
#[verifier::opaque]
pub open spec fn dec_table(b: Seq<u8>) -> Result<(Seq<TypeIdEntryView>, Seq<u8>), Seq<char>> {
    match dec_u64(b) {
        Err(e) => Err(e),
        Ok((count, r)) => dec_id_entries(count as nat, r, Seq::empty()),
    }
}

impl Wire for TypeIdTable {
    open spec fn enc(v: Seq<TypeIdEntryView>) -> Seq<u8> {
        enc_list::<TypeIdEntry>(v)
    }

    open spec fn dec(b: Seq<u8>) -> Result<(Seq<TypeIdEntryView>, Seq<u8>), Seq<char>> {
        dec_table(b)
    }

    open spec fn fits(v: Seq<TypeIdEntryView>) -> bool {
        ids_increase(v) && list_fits::<TypeIdEntry>(v)
    }

    proof fn lemma_read_back(v: Seq<TypeIdEntryView>, rest: Seq<u8>) {
        reveal(enc_list);
        reveal(list_fits);
        reveal(dec_table);
        let items = crate::wire::enc_items::<TypeIdEntry>(v);
        assert(Seq::<TypeIdEntryView>::empty() + v =~= v);
        lemma_id_entries(v, Seq::empty(), rest);
        lemma_u64(v.len(), items + rest);
        assert(Self::enc(v) + rest =~= enc_u64(v.len()) + (items + rest));
    }

    fn write_to(&self, out: &mut Vec<u8>) {
        proof {
            reveal(enc_list);
            reveal(list_fits);
        }
        let ghost before = out@;
        let ghost all = self@;
        let n = self.len();
        put_u64(out, n as u64);
        let mut i: usize = 0;
        assert(all.take(0) =~= Seq::empty());
        assert(out@ =~= before + enc_u64(all.len()) + crate::wire::enc_items::<TypeIdEntry>(
            all.take(0),
        ));
        while i < n
            invariant
                i <= n,
                n == all.len(),
                all == self@,
                out@ == before + enc_u64(all.len()) + crate::wire::enc_items::<TypeIdEntry>(
                    all.take(i as int),
                ),
                forall|j: int| 0 <= j < i ==> TypeIdEntry::fits(#[trigger] all[j]),
            decreases n - i,
        {
            self.entry_at(i).write_to(out);
            proof {
                let one = all[i as int];
                assert(all.take(i + 1) =~= all.take(i as int).push(one));
                crate::wire::lemma_enc_items_push::<TypeIdEntry>(all.take(i as int), one);
                assert(out@ =~= before + enc_u64(all.len()) + crate::wire::enc_items::<TypeIdEntry>(
                    all.take(i + 1),
                ));
            }
            i += 1;
        }
        assert(all.take(n as int) =~= all);
        assert(out@ =~= before + Self::enc(all));
    }

    fn read_from(b: &[u8], pos: usize) -> (r: Result<(Self, usize), String>) {
        proof {
            reveal(dec_table);
        }
        let (count, start) = match get_u64(b, pos) {
            Err(e) => {
                return Err(e);
            },
            Ok(x) => x,
        };
        let mut table = TypeIdTable::new();
        let mut p: usize = start;
        let mut i: u64 = 0;
        assert(table@ =~= Seq::empty());
        let ghost whole = Self::dec(b@.skip(pos as int));
        while i < count
            invariant
                i <= count,
                pos < start <= p <= b@.len(),
                whole == Self::dec(b@.skip(pos as int)),
                whole == dec_id_entries((count - i) as nat, b@.skip(p as int), table@),
            decreases count - i,
        {
            let (entry, q) = match TypeIdEntry::read_from(b, p) {
                Err(e) => {
                    return Err(e);
                },
                Ok(x) => x,
            };
            table.insert(entry);
            p = q;
            i += 1;
        }
        Ok((table, p))
    }
}

impl Wire for ToylangRegistry {
    open spec fn enc(v: RegistryView) -> Seq<u8> {
        <NameMap<ToyStruct>>::enc(v.structs) + <NameMap<ToyFunction>>::enc(v.functions) + enc_list::<String>(v.imports) + TypeIdTable::enc(v.typeid_table) + enc_list::<ToyImpl>(v.trait_impls) + enc_list::<(String, String)>(v.accessor_pairs) + enc_list::<DiscoveredTraitImplInstance>(v.discovered_trait_impl_instances)
    }

    open spec fn dec(b: Seq<u8>) -> Result<(RegistryView, Seq<u8>), Seq<char>> {
        match <NameMap<ToyStruct>>::dec(b) {
            Err(e) => Err(e),
            Ok((structs, r0)) => match <NameMap<ToyFunction>>::dec(r0) {
                Err(e) => Err(e),
                Ok((functions, r1)) => match dec_list::<String>(r1) {
                    Err(e) => Err(e),
                    Ok((imports, r2)) => match TypeIdTable::dec(r2) {
                        Err(e) => Err(e),
                        Ok((typeid_table, r3)) => match dec_list::<ToyImpl>(r3) {
                            Err(e) => Err(e),
                            Ok((trait_impls, r4)) => match dec_list::<(String, String)>(r4) {
                                Err(e) => Err(e),
                                Ok((accessor_pairs, r5)) => match dec_list::<DiscoveredTraitImplInstance>(r5) {
                                    Err(e) => Err(e),
                                    Ok((discovered_trait_impl_instances, r6)) => Ok((RegistryView { structs, functions, imports, typeid_table, trait_impls, accessor_pairs, discovered_trait_impl_instances }, r6)),
                                },
                            },
                        },
                    },
                },
            },
        }
    }

    open spec fn fits(v: RegistryView) -> bool {
        &&& <NameMap<ToyStruct>>::fits(v.structs)
        &&& <NameMap<ToyFunction>>::fits(v.functions)
        &&& list_fits::<String>(v.imports)
        &&& TypeIdTable::fits(v.typeid_table)
        &&& list_fits::<ToyImpl>(v.trait_impls)
        &&& list_fits::<(String, String)>(v.accessor_pairs)
        &&& list_fits::<DiscoveredTraitImplInstance>(v.discovered_trait_impl_instances)
    }

    proof fn lemma_read_back(v: RegistryView, rest: Seq<u8>) {
        let t6 = rest;
        lemma_list::<DiscoveredTraitImplInstance>(v.discovered_trait_impl_instances, t6);
        let t5 = enc_list::<DiscoveredTraitImplInstance>(v.discovered_trait_impl_instances) + t6;
        lemma_list::<(String, String)>(v.accessor_pairs, t5);
        let t4 = enc_list::<(String, String)>(v.accessor_pairs) + t5;
        lemma_list::<ToyImpl>(v.trait_impls, t4);
        let t3 = enc_list::<ToyImpl>(v.trait_impls) + t4;
        TypeIdTable::lemma_read_back(v.typeid_table, t3);
        let t2 = TypeIdTable::enc(v.typeid_table) + t3;
        lemma_list::<String>(v.imports, t2);
        let t1 = enc_list::<String>(v.imports) + t2;
        <NameMap<ToyFunction>>::lemma_read_back(v.functions, t1);
        let t0 = <NameMap<ToyFunction>>::enc(v.functions) + t1;
        <NameMap<ToyStruct>>::lemma_read_back(v.structs, t0);
        assert(Self::enc(v) + rest =~= <NameMap<ToyStruct>>::enc(v.structs) + t0);
    }

    fn write_to(&self, out: &mut Vec<u8>) {
        let ghost before = out@;
        self.structs.write_to(out);
        self.functions.write_to(out);
        put_list::<String>(out, &self.imports);
        self.typeid_table.write_to(out);
        put_list::<ToyImpl>(out, &self.trait_impls);
        put_list::<(String, String)>(out, &self.accessor_pairs);
        assert(views(self.accessor_pairs@) =~= pair_views(self.accessor_pairs@));
        put_list::<DiscoveredTraitImplInstance>(out, &self.discovered_trait_impl_instances);
        assert(out@ =~= before + Self::enc(self@));
    }

    fn read_from(b: &[u8], pos: usize) -> (r: Result<(Self, usize), String>) {
        let (structs, p0) = match <NameMap<ToyStruct>>::read_from(b, pos) {
            Err(e) => {
                return Err(e);
            },
            Ok(x) => x,
        };
        let (functions, p1) = match <NameMap<ToyFunction>>::read_from(b, p0) {
            Err(e) => {
                return Err(e);
            },
            Ok(x) => x,
        };
        let (imports, p2) = match get_list::<String>(b, p1) {
            Err(e) => {
                return Err(e);
            },
            Ok(x) => x,
        };
        let (typeid_table, p3) = match TypeIdTable::read_from(b, p2) {
            Err(e) => {
                return Err(e);
            },
            Ok(x) => x,
        };
        let (trait_impls, p4) = match get_list::<ToyImpl>(b, p3) {
            Err(e) => {
                return Err(e);
            },
            Ok(x) => x,
        };
        let (accessor_pairs, p5) = match get_list::<(String, String)>(b, p4) {
            Err(e) => {
                return Err(e);
            },
            Ok(x) => x,
        };
        assert(views(accessor_pairs@) =~= pair_views(accessor_pairs@));
        let (discovered_trait_impl_instances, p6) = match get_list::<DiscoveredTraitImplInstance>(b, p5) {
            Err(e) => {
                return Err(e);
            },
            Ok(x) => x,
        };
        Ok((ToylangRegistry { structs, functions, imports, typeid_table, trait_impls, accessor_pairs, discovered_trait_impl_instances }, p6))
    }
}

} // verus!
