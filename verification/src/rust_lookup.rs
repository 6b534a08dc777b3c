//! Looking things up on the Rust side, carried out.
use crate::names::{bind_all, NameMap};
use crate::oracle::{field_types_of, wrapper_fn_name, wrapper_name, ContextView, RustTypeLookupContext, UnresolvedRustType};
use crate::rust_items::{
    answer_params, answer_return, ask_item, bodied_named, child_in, child_named, clone_rustc_ty, declared_in, declared_named, extern_fn,
    find_generics, find_items, find_signature, foreign_named, free_params, free_return, free_signature, generic_args, inputs_of,
    is_wanted, item_named, local_fn, local_foreign, method_params, method_return, method_signature, output_of, primitive, resolve_path,
    rustc_views, same_rustc_tys, signature_of, source_referent, stub_fn, to_rustc, to_rustcs, to_source, to_sources, trait_params,
    trait_return, trait_signature, wrapper_fn, AssocItem, ForeignItem, GenericParam, Item, ItemKind, Module, ModuleChild, OracleStop,
    OracleStopView, RustcTy, RustcTyView, RustcWorld, Signature, SignatureView, TraitFound, Wanted, TRAIT_PREFIX, args_of, field_tys,
    only_types, to_rustc_in, to_rustcs_in,
};
use crate::text::{chars_of, has_prefix, owned, same_text, starts_with, string_of, views};
use crate::toylang::registry::ToyStruct;
use crate::toylang::typed_ast::{clone_source_type, source_views, SourceType, SourceTypeView};
use vstd::prelude::*;

verus! {

broadcast use {vstd::seq::group_seq_axioms, vstd::std_specs::vec::group_vec_axioms};

fn clone_context(c: &RustTypeLookupContext) -> (r: RustTypeLookupContext)
    ensures
        r@ == c@,
{
    match c {
        RustTypeLookupContext::TraitCallSelf { trait_name, method } =>
            RustTypeLookupContext::TraitCallSelf {
            trait_name: trait_name.clone(),
            method: method.clone(),
        },
        RustTypeLookupContext::TraitMethodTypeArg { trait_name, method } =>
            RustTypeLookupContext::TraitMethodTypeArg {
            trait_name: trait_name.clone(),
            method: method.clone(),
        },
        RustTypeLookupContext::InherentMethodTypeArg { owner, method } =>
            RustTypeLookupContext::InherentMethodTypeArg {
            owner: owner.clone(),
            method: method.clone(),
        },
        RustTypeLookupContext::FreeFunctionTypeArg { function_name } =>
            RustTypeLookupContext::FreeFunctionTypeArg { function_name: function_name.clone() },
        RustTypeLookupContext::NestedGenericArg { parent_type } =>
            RustTypeLookupContext::NestedGenericArg { parent_type: parent_type.clone() },
        RustTypeLookupContext::Codegen => RustTypeLookupContext::Codegen,
        RustTypeLookupContext::TraitCallName { method } => RustTypeLookupContext::TraitCallName {
            method: method.clone(),
        },
        RustTypeLookupContext::TraitMethodName { trait_name } =>
            RustTypeLookupContext::TraitMethodName { trait_name: trait_name.clone() },
        RustTypeLookupContext::Deferred { type_param } => RustTypeLookupContext::Deferred {
            type_param: type_param.clone(),
        },
    }
}

fn wanted_kind(kind: ItemKind, wanted: Wanted) -> (r: bool)
    ensures
        r == is_wanted(kind, wanted),
{
    match wanted {
        Wanted::Type => kind == ItemKind::Struct || kind == ItemKind::Enum,
        Wanted::Trait => kind == ItemKind::Trait,
        Wanted::Fn => kind == ItemKind::Fn,
    }
}

fn match_module_child<'a>(children: &'a Vec<ModuleChild>, name: &str, wanted: Wanted) -> (r: Option<
    &'a Item,
>)
    ensures
        (match r {
            Some(x) => Some(x@),
            None => None,
        }) == child_named(views(children@), name@, wanted),
{
    let ghost all = views(children@);
    let mut i: usize = 0;
    assert(all.skip(0) =~= all);
    while i < children.len()
        invariant
            i <= children@.len(),
            all == views(children@),
            child_named(all, name@, wanted) == child_named(all.skip(i as int), name@, wanted),
        decreases children@.len() - i,
    {
        assert(all.skip(i as int).drop_first() =~= all.skip(i + 1));
        assert(all.skip(i as int)[0] == children@[i as int]@);
        if same_text(&children[i].name, name) && wanted_kind(children[i].item.kind, wanted) {
            return Some(&children[i].item);
        }
        i += 1;
    }
    None
}

fn match_in<'a>(modules: &'a Vec<Module>, name: &str, wanted: Wanted) -> (r: Option<&'a Item>)
    ensures
        (match r {
            Some(x) => Some(x@),
            None => None,
        }) == child_in(views(modules@), name@, wanted),
{
    let ghost all = views(modules@);
    let mut i: usize = 0;
    assert(all.skip(0) =~= all);
    while i < modules.len()
        invariant
            i <= modules@.len(),
            all == views(modules@),
            child_in(all, name@, wanted) == child_in(all.skip(i as int), name@, wanted),
        decreases modules@.len() - i,
    {
        assert(all.skip(i as int).drop_first() =~= all.skip(i + 1));
        assert(all.skip(i as int)[0] == modules@[i as int]@);
        match match_module_child(&modules[i].children, name, wanted) {
            Some(item) => {
                return Some(item);
            },
            None => {},
        }
        i += 1;
    }
    None
}

fn find_local_fn(fns: &Vec<Item>, name: &str, in_stubs: bool) -> (r: Option<u64>)
    ensures
        r == local_fn(views(fns@), name@, in_stubs),
{
    let ghost all = views(fns@);
    let mut i: usize = 0;
    assert(all.skip(0) =~= all);
    while i < fns.len()
        invariant
            i <= fns@.len(),
            all == views(fns@),
            local_fn(all, name@, in_stubs) == local_fn(all.skip(i as int), name@, in_stubs),
        decreases fns@.len() - i,
    {
        assert(all.skip(i as int).drop_first() =~= all.skip(i + 1));
        assert(all.skip(i as int)[0] == fns@[i as int]@);
        if fns[i].kind == ItemKind::Fn && same_text(&fns[i].item_name, name) && fns[i].in_stubs
            == in_stubs {
            return Some(fns[i].def);
        }
        i += 1;
    }
    None
}

fn find_local_foreign(fns: &Vec<Item>, name: &str) -> (r: Option<u64>)
    ensures
        r == local_foreign(views(fns@), name@),
{
    let ghost all = views(fns@);
    let mut n: usize = fns.len();
    assert(all.take(n as int) =~= all);
    while n > 0
        invariant
            n <= fns@.len(),
            all == views(fns@),
            local_foreign(all, name@) == local_foreign(all.take(n as int), name@),
        decreases n,
    {
        assert(all.take(n as int).drop_last() =~= all.take(n - 1));
        assert(all.take(n as int).last() == fns@[n - 1]@);
        if fns[n - 1].kind == ItemKind::Fn && same_text(&fns[n - 1].item_name, name) && fns[n
            - 1].in_stubs && fns[n - 1].foreign {
            return Some(fns[n - 1].def);
        }
        n -= 1;
    }
    None
}

fn find_foreign(items: &Vec<ForeignItem>, name: &str) -> (r: Option<u64>)
    ensures
        r == foreign_named(views(items@), name@),
{
    let ghost all = views(items@);
    let mut i: usize = 0;
    assert(all.skip(0) =~= all);
    while i < items.len()
        invariant
            i <= items@.len(),
            all == views(items@),
            foreign_named(all, name@) == foreign_named(all.skip(i as int), name@),
        decreases items@.len() - i,
    {
        assert(all.skip(i as int).drop_first() =~= all.skip(i + 1));
        assert(all.skip(i as int)[0] == items@[i as int]@);
        if same_text(&items[i].name, name) && items[i].item.kind == ItemKind::Fn
            && items[i].item.foreign {
            return Some(items[i].item.def);
        }
        i += 1;
    }
    None
}

fn find_declared(children: &Vec<ModuleChild>, name: &str) -> (r: Option<u64>)
    ensures
        r == declared_named(views(children@), name@),
{
    let ghost all = views(children@);
    let mut i: usize = 0;
    assert(all.skip(0) =~= all);
    while i < children.len()
        invariant
            i <= children@.len(),
            all == views(children@),
            declared_named(all, name@) == declared_named(all.skip(i as int), name@),
        decreases children@.len() - i,
    {
        assert(all.skip(i as int).drop_first() =~= all.skip(i + 1));
        assert(all.skip(i as int)[0] == children@[i as int]@);
        if children[i].item.kind == ItemKind::ForeignMod {
            match find_foreign(&children[i].foreign_items, name) {
                Some(def) => {
                    return Some(def);
                },
                None => {},
            }
        } else if children[i].item.kind == ItemKind::Fn && same_text(&children[i].name, name) {
            return Some(children[i].item.def);
        }
        i += 1;
    }
    None
}

fn find_bodied(children: &Vec<ModuleChild>, name: &str) -> (r: Option<u64>)
    ensures
        r == bodied_named(views(children@), name@),
{
    let ghost all = views(children@);
    let mut i: usize = 0;
    assert(all.skip(0) =~= all);
    while i < children.len()
        invariant
            i <= children@.len(),
            all == views(children@),
            bodied_named(all, name@) == bodied_named(all.skip(i as int), name@),
        decreases children@.len() - i,
    {
        assert(all.skip(i as int).drop_first() =~= all.skip(i + 1));
        assert(all.skip(i as int)[0] == children@[i as int]@);
        if same_text(&children[i].name, name) && children[i].item.kind == ItemKind::Fn
            && !children[i].item.foreign {
            return Some(children[i].item.def);
        }
        i += 1;
    }
    None
}

/// The generic arguments of an item. Lifetimes are filled in, types that are
/// left over are not used.
pub fn build_generic_args_for_item(params: &Vec<GenericParam>, types: &Vec<RustcTy>) -> (r: Option<
    Vec<RustcTy>,
>)
    ensures
        (match r {
            Some(v) => Some(rustc_views(v@)),
            None => None,
        }) == generic_args(params@, rustc_views(types@)),
{
    let ghost all = rustc_views(types@);
    let ghost whole = generic_args(params@, all);
    let mut out: Vec<RustcTy> = Vec::new();
    let mut i: usize = 0;
    let mut k: usize = 0;
    assert(params@.skip(0) =~= params@);
    assert(all.skip(0) =~= all);
    assert(rustc_views(out@) =~= Seq::empty());
    assert(whole is Some ==> rustc_views(out@) + whole->Some_0 =~= whole->Some_0);
    while i < params.len()
        invariant
            i <= params@.len(),
            k <= types@.len(),
            all == rustc_views(types@),
            whole == generic_args(params@, all),
            whole == (match generic_args(params@.skip(i as int), all.skip(k as int)) {
                Some(rest) => Some(rustc_views(out@) + rest),
                None => None,
            }),
        decreases params@.len() - i,
    {
        let ghost done = rustc_views(out@);
        assert(params@.skip(i as int).drop_first() =~= params@.skip(i + 1));
        assert(params@.skip(i as int)[0] == params@[i as int]);
        match params[i] {
            GenericParam::Lifetime => {
                out.push(RustcTy::Region);
                assert(rustc_views(out@) =~= done.push(RustcTyView::Region));
                assert(forall|rest: Seq<RustcTyView>|
                    #[trigger] (rustc_views(out@) + rest) =~= done + (seq![RustcTyView::Region]
                        + rest));
            },
            GenericParam::Type => {
                if k >= types.len() {
                    return None;
                }
                assert(all.skip(k as int).drop_first() =~= all.skip(k + 1));
                assert(all.skip(k as int)[0] == types@[k as int].model());
                let one = clone_rustc_ty(&types[k]);
                let ghost view = one@;
                out.push(one);
                assert(rustc_views(out@) =~= done.push(view));
                assert(forall|rest: Seq<RustcTyView>|
                    #[trigger] (rustc_views(out@) + rest) =~= done + (seq![view] + rest));
                k += 1;
            },
            GenericParam::Constant => {
                return None;
            },
        }
        i += 1;
    }
    assert(params@.skip(i as int).len() == 0);
    assert(rustc_views(out@) + Seq::<RustcTyView>::empty() =~= rustc_views(out@));
    Some(out)
}

fn named(name: &str) -> (r: SourceType)
    ensures
        r@ == (SourceTypeView::RustType { name: name@, type_args: Seq::empty() }),
{
    let none: Vec<SourceType> = Vec::new();
    assert(source_views(none@) =~= Seq::empty());
    SourceType::RustType { name: owned(name), type_args: none }
}

/// The type in toylang that a type of the Rust compiler stands for.
pub fn rustc_ty_to_resolved_type(t: &RustcTy) -> (r: Option<SourceType>)
    ensures
        (match r {
            Some(x) => Some(x@),
            None => None,
        }) == to_source(t@),
    decreases t,
{
    reveal_with_fuel(RustcTy::model, 2);
    match t {
        RustcTy::Int(name) => if same_text(name, "i32") {
            Some(SourceType::I32)
        } else if same_text(name, "i64") {
            Some(SourceType::I64)
        } else {
            Some(named(name))
        },
        RustcTy::Uint(name) => if same_text(name, "usize") {
            Some(SourceType::Usize)
        } else {
            Some(named(name))
        },
        RustcTy::Float(name) => if same_text(name, "f64") {
            Some(SourceType::F64)
        } else {
            Some(named(name))
        },
        RustcTy::Bool => Some(SourceType::Bool),
        RustcTy::Tuple(ts) => {
            assert(rustc_views(ts@).len() == ts@.len());
            if ts.len() == 0 {
                Some(SourceType::Void)
            } else {
                match rustc_tys_to_source_types(ts) {
                    Some(type_args) => Some(
                        SourceType::RustType { name: owned("tuple"), type_args },
                    ),
                    None => None,
                }
            }
        },
        RustcTy::Ref(inner) => match rustc_ty_to_resolved_type(inner) {
            Some(x) => Some(SourceType::Ref { inner: Box::new(x) }),
            None => None,
        },
        RustcTy::Adt { def: _, name, from_stubs, args } => match rustc_tys_to_source_types(args) {
            Some(type_args) => if *from_stubs {
                Some(SourceType::StructRef { name: name.clone(), type_args })
            } else {
                Some(SourceType::RustType { name: name.clone(), type_args })
            },
            None => None,
        },
        RustcTy::Slice(elem) => match &**elem {
            RustcTy::Uint(name) => if same_text(name, "u8") {
                Some(SourceType::ByteSlice)
            } else {
                None
            },
            _ => None,
        },
        RustcTy::Str => Some(SourceType::Str),
        RustcTy::Never => Some(named("never")),
        RustcTy::RawPtr(inner) => match rustc_ty_to_resolved_type(inner) {
            Some(x) => {
                let ghost view = x@;
                let mut type_args: Vec<SourceType> = Vec::new();
                type_args.push(x);
                assert(source_views(type_args@) =~= seq![view]);
                Some(SourceType::RustType { name: owned("raw_ptr"), type_args })
            },
            None => None,
        },
        RustcTy::Dynamic => Some(named("dyn_trait")),
        RustcTy::Param(name) => Some(SourceType::TypeParam(name.clone())),
        RustcTy::Region | RustcTy::ConstArg | RustcTy::Other => None,
    }
}

/// The types in toylang that some generic arguments stand for.
pub fn rustc_tys_to_source_types(ts: &Vec<RustcTy>) -> (r: Option<Vec<SourceType>>)
    ensures
        (match r {
            Some(v) => Some(source_views(v@)),
            None => None,
        }) == to_sources(rustc_views(ts@)),
    decreases ts,
{
    let ghost all = rustc_views(ts@);
    let ghost whole = to_sources(all);
    let mut out: Vec<SourceType> = Vec::new();
    let mut i: usize = 0;
    assert(all.skip(0) =~= all);
    assert(source_views(out@) =~= Seq::empty());
    assert(whole is Some ==> source_views(out@) + whole->Some_0 =~= whole->Some_0);
    while i < ts.len()
        invariant
            i <= ts@.len(),
            all == rustc_views(ts@),
            whole == to_sources(all),
            whole == (match to_sources(all.skip(i as int)) {
                Some(rest) => Some(source_views(out@) + rest),
                None => None,
            }),
        decreases ts@.len() - i,
    {
        let ghost done = source_views(out@);
        assert(all.skip(i as int).drop_first() =~= all.skip(i + 1));
        assert(all.skip(i as int)[0] == ts@[i as int].model());
        let is_type = match &ts[i] {
            RustcTy::Region | RustcTy::ConstArg => false,
            _ => true,
        };
        if is_type {
            let one = match rustc_ty_to_resolved_type(&ts[i]) {
                None => {
                    return None;
                },
                Some(one) => one,
            };
            let ghost view = one@;
            out.push(one);
            assert(source_views(out@) =~= done.push(view));
            assert(forall|rest: Seq<SourceTypeView>|
                #[trigger] (source_views(out@) + rest) =~= done + (seq![view] + rest));
        }
        i += 1;
    }
    assert(all.skip(i as int).len() == 0);
    assert(source_views(out@) + Seq::<SourceTypeView>::empty() =~= source_views(out@));
    Some(out)
}

fn primitive_ty(name: &str) -> (r: Option<RustcTy>)
    ensures
        (match r {
            Some(x) => Some(x@),
            None => None,
        }) == primitive(name@),
{
    if same_text(name, "u8") || same_text(name, "u16") || same_text(name, "u32") || same_text(
        name,
        "u64",
    ) {
        Some(RustcTy::Uint(owned(name)))
    } else if same_text(name, "i8") || same_text(name, "i16") {
        Some(RustcTy::Int(owned(name)))
    } else if same_text(name, "f32") {
        Some(RustcTy::Float(owned(name)))
    } else {
        None
    }
}

/// A type without the references around it.
pub fn strip_source_ref(t: &SourceType) -> (r: &SourceType)
    ensures
        r@ == source_referent(t@),
    decreases t,
{
    match t {
        SourceType::Ref { inner } => strip_source_ref(inner),
        _ => t,
    }
}

/// The view of an outcome that is some types.
pub open spec fn rustcs_outcome(r: Result<Vec<RustcTy>, OracleStop>) -> Result<
    Seq<RustcTyView>,
    OracleStopView,
> {
    match r {
        Ok(v) => Ok(rustc_views(v@)),
        Err(e) => Err(e@),
    }
}

/// The view of an outcome that is a type in toylang.
pub open spec fn source_outcome(r: Result<SourceType, OracleStop>) -> Result<
    SourceTypeView,
    OracleStopView,
> {
    match r {
        Ok(t) => Ok(t@),
        Err(e) => Err(e@),
    }
}

/// The view of an outcome that may be a type in toylang.
pub open spec fn opt_source_outcome(r: Result<Option<SourceType>, OracleStop>) -> Result<
    Option<SourceTypeView>,
    OracleStopView,
> {
    match r {
        Ok(Some(t)) => Ok(Some(t@)),
        Ok(None) => Ok(None),
        Err(e) => Err(e@),
    }
}

/// The view of an outcome that may be some types in toylang.
pub open spec fn opt_sources_outcome(r: Result<Option<Vec<SourceType>>, OracleStop>) -> Result<
    Option<Seq<SourceTypeView>>,
    OracleStopView,
> {
    match r {
        Ok(Some(ts)) => Ok(Some(source_views(ts@))),
        Ok(None) => Ok(None),
        Err(e) => Err(e@),
    }
}

/// The view of an outcome that may be a signature.
pub open spec fn opt_signature_outcome(r: Result<Option<&Signature>, OracleStop>) -> Result<
    Option<SignatureView>,
    OracleStopView,
> {
    match r {
        Ok(Some(sig)) => Ok(Some(sig@)),
        Ok(None) => Ok(None),
        Err(e) => Err(e@),
    }
}

/// What a trait call finds.
pub enum FoundTrait<'a> {
    NoTrait,
    NoMethod,
    Signature(&'a Signature),
}

impl<'a> View for FoundTrait<'a> {
    type V = TraitFound;

    open spec fn view(&self) -> TraitFound {
        match self {
            FoundTrait::NoTrait => TraitFound::NoTrait,
            FoundTrait::NoMethod => TraitFound::NoMethod,
            FoundTrait::Signature(sig) => TraitFound::Signature(sig@),
        }
    }
}

impl RustcWorld {
    /// The item of a name.
    pub fn resolve_rust_path(&self, name: &str, wanted: Wanted) -> (r: Option<&Item>)
        ensures
            (match r {
                Some(x) => Some(x@),
                None => None,
            }) == resolve_path(self@, name@, wanted),
    {
        match match_in(&self.local_modules, name, wanted) {
            Some(item) => Some(item),
            None => match_in(&self.stub_crates, name, wanted),
        }
    }

    /// The struct or enum of a name.
    pub fn find_local_struct_def_id(&self, name: &str) -> (r: Option<u64>)
        ensures
            r == (match resolve_path(self@, name@, Wanted::Type) {
                Some(item) => Some(item.def),
                None => None,
            }),
    {
        match self.resolve_rust_path(name, Wanted::Type) {
            Some(item) => Some(item.def),
            None => None,
        }
    }

    /// The Rust type of a name. A Rust type is found only where it is imported.
    pub fn find_rust_type_def_id(&self, name: &str) -> (r: Option<u64>)
        ensures
            r == (match resolve_path(self@, name@, Wanted::Type) {
                Some(item) => Some(item.def),
                None => None,
            }),
    {
        self.find_local_struct_def_id(name)
    }

    /// The imported trait of a name.
    pub fn find_use_imported_trait_def_id(&self, name: &str) -> (r: Option<u64>)
        ensures
            r == (match resolve_path(self@, name@, Wanted::Trait) {
                Some(item) => Some(item.def),
                None => None,
            }),
    {
        match self.resolve_rust_path(name, Wanted::Trait) {
            Some(item) => Some(item.def),
            None => None,
        }
    }

    /// The imported function of a name.
    pub fn find_use_imported_fn_def_id(&self, name: &str) -> (r: Option<u64>)
        ensures
            r == (match resolve_path(self@, name@, Wanted::Fn) {
                Some(item) => Some(item.def),
                None => None,
            }),
    {
        match self.resolve_rust_path(name, Wanted::Fn) {
            Some(item) => Some(item.def),
            None => None,
        }
    }

    /// The function that a declaration without a body stands for.
    pub fn find_extern_fn_def_id(&self, name: &str) -> (r: Option<u64>)
        ensures
            r == extern_fn(self@, name@),
    {
        match find_local_fn(&self.local_fns, name, false) {
            Some(def) => {
                return Some(def);
            },
            None => {},
        }
        match find_local_foreign(&self.local_fns, name) {
            Some(def) => {
                return Some(def);
            },
            None => {},
        }
        let ghost all = views(self.stub_crates@);
        let mut i: usize = 0;
        assert(all.skip(0) =~= all);
        while i < self.stub_crates.len()
            invariant
                i <= self.stub_crates@.len(),
                all == views(self.stub_crates@),
                extern_fn(self@, name@) == declared_in(all.skip(i as int), name@),
            decreases self.stub_crates@.len() - i,
        {
            assert(all.skip(i as int).drop_first() =~= all.skip(i + 1));
            assert(all.skip(i as int)[0] == self.stub_crates@[i as int]@);
            match find_declared(&self.stub_crates[i].children, name) {
                Some(def) => {
                    return Some(def);
                },
                None => {},
            }
            i += 1;
        }
        None
    }

    /// The function of that name with a body at the root of a stub crate.
    pub fn find_stub_fn_in_stub_rlib(&self, name: &str) -> (r: Option<u64>)
        ensures
            r == stub_fn(self@.stub_crates, name@),
    {
        let ghost all = views(self.stub_crates@);
        let mut i: usize = 0;
        assert(all.skip(0) =~= all);
        while i < self.stub_crates.len()
            invariant
                i <= self.stub_crates@.len(),
                all == views(self.stub_crates@),
                stub_fn(all, name@) == stub_fn(all.skip(i as int), name@),
            decreases self.stub_crates@.len() - i,
        {
            assert(all.skip(i as int).drop_first() =~= all.skip(i + 1));
            assert(all.skip(i as int)[0] == self.stub_crates@[i as int]@);
            match find_bodied(&self.stub_crates[i].children, name) {
                Some(def) => {
                    return Some(def);
                },
                None => {},
            }
            i += 1;
        }
        None
    }

    /// The function of the stubs of that name, which stands for a method.
    pub fn find_wrapper_fn_def_id(&self, name: &str) -> (r: Option<u64>)
        ensures
            r == wrapper_fn(self@, name@),
    {
        match find_local_fn(&self.local_fns, name, true) {
            Some(def) => Some(def),
            None => match match_in(&self.stub_crates, name, Wanted::Fn) {
                Some(item) => Some(item.def),
                None => None,
            },
        }
    }

    /// The function of the stubs that stands for a method, if one does.
    pub fn redirect_to_wrapper(&self, owner: &str, method: &str) -> (r: Option<u64>)
        ensures
            r == (match wrapper_name(owner@, method@) {
                Some(name) => wrapper_fn(self@, name),
                None => None,
            }),
    {
        match wrapper_fn_name(owner, method) {
            None => None,
            Some(name) => self.find_wrapper_fn_def_id(name),
        }
    }

    /// The method of that name of a type, or of a trait.
    pub fn find_inherent_method(&self, owner: u64, method: &str) -> (r: Result<
        Option<u64>,
        OracleStop,
    >)
        ensures
            (match r {
                Ok(def) => Ok(def),
                Err(e) => Err(e@),
            }) == ask_item(self@, owner, method@),
    {
        let ghost all = views(self.assoc@);
        let mut i: usize = 0;
        assert(all.skip(0) =~= all);
        while i < self.assoc.len()
            invariant
                i <= self.assoc@.len(),
                all == views(self.assoc@),
                find_items(all, owner) == find_items(all.skip(i as int), owner),
            decreases self.assoc@.len() - i,
        {
            assert(all.skip(i as int).drop_first() =~= all.skip(i + 1));
            assert(all.skip(i as int)[0] == self.assoc@[i as int]@);
            if self.assoc[i].owner == owner {
                return Ok(find_item(&self.assoc[i].items, method));
            }
            i += 1;
        }
        Err(OracleStop::NeedItems { owner })
    }

    /// The type of the Rust compiler that a type in toylang stands for.
    pub fn try_resolved_to_rustc_ty(&self, t: &SourceType, context: &RustTypeLookupContext) -> (r:
        Result<RustcTy, OracleStop>)
        ensures
            (match r {
                Ok(x) => Ok(x@),
                Err(e) => Err(e@),
            }) == to_rustc(t@, context@, self@),
        decreases t,
    {
        match t {
            SourceType::I32 => Ok(RustcTy::Int(owned("i32"))),
            SourceType::I64 => Ok(RustcTy::Int(owned("i64"))),
            SourceType::F64 => Ok(RustcTy::Float(owned("f64"))),
            SourceType::Bool => Ok(RustcTy::Bool),
            SourceType::Usize => Ok(RustcTy::Uint(owned("usize"))),
            SourceType::Void => {
                let none: Vec<RustcTy> = Vec::new();
                assert(rustc_views(none@) =~= Seq::empty());
                Ok(RustcTy::Tuple(none))
            },
            SourceType::StructRef { name, type_args } => match self.resolve_rust_path(
                name,
                Wanted::Type,
            ) {
                None => Err(OracleStop::NoStruct { name: name.clone() }),
                Some(item) => {
                    let nested = RustTypeLookupContext::NestedGenericArg {
                        parent_type: name.clone(),
                    };
                    match self.all_to_rustc(type_args, &nested) {
                        Err(e) => Err(e),
                        Ok(args) => Ok(
                            RustcTy::Adt {
                                def: item.def,
                                name: item.item_name.clone(),
                                from_stubs: item.in_stubs,
                                args,
                            },
                        ),
                    }
                },
            },
            SourceType::RustType { name, type_args } => match primitive_ty(name) {
                Some(p) => Ok(p),
                None => match self.resolve_rust_path(name, Wanted::Type) {
                    None => Err(
                        OracleStop::Unresolved(
                            UnresolvedRustType {
                                name: name.clone(),
                                context: clone_context(context),
                            },
                        ),
                    ),
                    Some(item) => {
                        let nested = RustTypeLookupContext::NestedGenericArg {
                            parent_type: name.clone(),
                        };
                        match self.all_to_rustc(type_args, &nested) {
                            Err(e) => Err(e),
                            Ok(args) => Ok(
                                RustcTy::Adt {
                                    def: item.def,
                                    name: item.item_name.clone(),
                                    from_stubs: item.in_stubs,
                                    args,
                                },
                            ),
                        }
                    },
                },
            },
            SourceType::Ref { inner } => match self.try_resolved_to_rustc_ty(inner, context) {
                Err(e) => Err(e),
                Ok(x) => Ok(RustcTy::Ref(Box::new(x))),
            },
            SourceType::Str => Ok(RustcTy::Str),
            SourceType::ByteSlice => {
                reveal_with_fuel(RustcTy::model, 2);
                Ok(RustcTy::Slice(Box::new(RustcTy::Uint(owned("u8")))))
            },
            SourceType::TypeParam(name) => Err(
                OracleStop::Unresolved(
                    UnresolvedRustType {
                        name: name.clone(),
                        context: RustTypeLookupContext::Deferred { type_param: name.clone() },
                    },
                ),
            ),
        }
    }

    /// The types of the Rust compiler that some types in toylang stand for.
    pub fn all_to_rustc(&self, ts: &Vec<SourceType>, context: &RustTypeLookupContext) -> (r: Result<
        Vec<RustcTy>,
        OracleStop,
    >)
        ensures
            rustcs_outcome(r) == to_rustcs(source_views(ts@), context@, self@),
        decreases ts,
    {
        assert(source_views(ts@).skip(0) =~= source_views(ts@));
        self.rest_to_rustc(ts, 0, context)
    }

    fn rest_to_rustc(
        &self,
        ts: &Vec<SourceType>,
        from: usize,
        context: &RustTypeLookupContext,
    ) -> (r: Result<Vec<RustcTy>, OracleStop>)
        requires
            from <= ts@.len(),
        ensures
            rustcs_outcome(r) == to_rustcs(source_views(ts@).skip(from as int), context@, self@),
        decreases ts, 0int,
    {
        let ghost all = source_views(ts@);
        let ghost whole = to_rustcs(all.skip(from as int), context@, self@);
        let mut out: Vec<RustcTy> = Vec::new();
        let mut i: usize = from;
        assert(rustc_views(out@) =~= Seq::empty());
        assert(whole is Ok ==> rustc_views(out@) + whole->Ok_0 =~= whole->Ok_0);
        while i < ts.len()
            invariant
                from <= i <= ts@.len(),
                all == source_views(ts@),
                whole == to_rustcs(all.skip(from as int), context@, self@),
                whole == (match to_rustcs(all.skip(i as int), context@, self@) {
                    Ok(rest) => Ok(rustc_views(out@) + rest),
                    Err(e) => Err(e),
                }),
            decreases ts@.len() - i,
        {
            let ghost done = rustc_views(out@);
            assert(all.skip(i as int).drop_first() =~= all.skip(i + 1));
            assert(all.skip(i as int)[0] == ts@[i as int].model());
            let one = match self.try_resolved_to_rustc_ty(&ts[i], context) {
                Err(e) => {
                    return Err(e);
                },
                Ok(one) => one,
            };
            let ghost view = one@;
            out.push(one);
            assert(rustc_views(out@) =~= done.push(view));
            assert(forall|rest: Seq<RustcTyView>|
                #[trigger] (rustc_views(out@) + rest) =~= done + (seq![view] + rest));
            i += 1;
        }
        assert(all.skip(i as int).len() == 0);
        assert(rustc_views(out@) + Seq::<RustcTyView>::empty() =~= rustc_views(out@));
        Ok(out)
    }

    /// The type of the Rust compiler that a type in toylang stands for, where
    /// code is generated.
    pub fn resolved_to_rustc_ty(&self, t: &SourceType) -> (r: Result<RustcTy, OracleStop>)
        ensures
            (match r {
                Ok(x) => Ok(x@),
                Err(e) => Err(e@),
            }) == to_rustc(t@, ContextView::Codegen, self@),
    {
        self.try_resolved_to_rustc_ty(t, &RustTypeLookupContext::Codegen)
    }

    /// The type of the Rust compiler that the type of a field stands for, with
    /// types of the Rust compiler for type parameters.
    pub fn resolved_to_rustc_ty_with_subst(&self, t: &SourceType, subst: &NameMap<RustcTy>) -> (r:
        Result<RustcTy, OracleStop>)
        ensures
            (match r {
                Ok(x) => Ok(x@),
                Err(e) => Err(e@),
            }) == to_rustc_in(t@, subst@, self@),
        decreases t,
    {
        match t {
            SourceType::TypeParam(name) => match subst.get(name) {
                Some(x) => Ok(clone_rustc_ty(x)),
                None => self.resolved_to_rustc_ty(t),
            },
            SourceType::StructRef { name, type_args } => match self.resolve_rust_path(
                name,
                Wanted::Type,
            ) {
                None => Err(OracleStop::NoStruct { name: name.clone() }),
                Some(item) => match self.all_with_subst(type_args, subst) {
                    Err(e) => Err(e),
                    Ok(args) => Ok(
                        RustcTy::Adt {
                            def: item.def,
                            name: item.item_name.clone(),
                            from_stubs: item.in_stubs,
                            args,
                        },
                    ),
                },
            },
            SourceType::RustType { name, type_args } => match self.resolve_rust_path(
                name,
                Wanted::Type,
            ) {
                None => Err(
                    OracleStop::Unresolved(
                        UnresolvedRustType {
                            name: name.clone(),
                            context: RustTypeLookupContext::Codegen,
                        },
                    ),
                ),
                Some(item) => match self.all_with_subst(type_args, subst) {
                    Err(e) => Err(e),
                    Ok(args) => Ok(
                        RustcTy::Adt {
                            def: item.def,
                            name: item.item_name.clone(),
                            from_stubs: item.in_stubs,
                            args,
                        },
                    ),
                },
            },
            _ => self.resolved_to_rustc_ty(t),
        }
    }

    fn all_with_subst(&self, ts: &Vec<SourceType>, subst: &NameMap<RustcTy>) -> (r: Result<
        Vec<RustcTy>,
        OracleStop,
    >)
        ensures
            rustcs_outcome(r) == to_rustcs_in(source_views(ts@), subst@, self@),
        decreases ts,
    {
        let ghost all = source_views(ts@);
        let ghost whole = to_rustcs_in(all, subst@, self@);
        let mut out: Vec<RustcTy> = Vec::new();
        let mut i: usize = 0;
        assert(all.skip(0) =~= all);
        assert(rustc_views(out@) =~= Seq::empty());
        assert(whole is Ok ==> rustc_views(out@) + whole->Ok_0 =~= whole->Ok_0);
        while i < ts.len()
            invariant
                i <= ts@.len(),
                all == source_views(ts@),
                whole == to_rustcs_in(all, subst@, self@),
                whole == (match to_rustcs_in(all.skip(i as int), subst@, self@) {
                    Ok(rest) => Ok(rustc_views(out@) + rest),
                    Err(e) => Err(e),
                }),
            decreases ts@.len() - i,
        {
            let ghost done = rustc_views(out@);
            assert(all.skip(i as int).drop_first() =~= all.skip(i + 1));
            assert(all.skip(i as int)[0] == ts@[i as int].model());
            let one = match self.resolved_to_rustc_ty_with_subst(&ts[i], subst) {
                Err(e) => {
                    return Err(e);
                },
                Ok(one) => one,
            };
            let ghost view = one@;
            out.push(one);
            assert(rustc_views(out@) =~= done.push(view));
            assert(forall|rest: Seq<RustcTyView>|
                #[trigger] (rustc_views(out@) + rest) =~= done + (seq![view] + rest));
            i += 1;
        }
        assert(all.skip(i as int).len() == 0);
        assert(rustc_views(out@) + Seq::<RustcTyView>::empty() =~= rustc_views(out@));
        Ok(out)
    }

    /// The types of the fields of a struct for some generic arguments.
    pub fn monomorphize_type(&self, d: &ToyStruct, args: &Vec<RustcTy>) -> (r: Result<
        Vec<RustcTy>,
        OracleStop,
    >)
        ensures
            rustcs_outcome(r) == field_tys(d@, rustc_views(args@), self@),
    {
        let types = types_among(args);
        let mut subst: NameMap<RustcTy> = NameMap::new();
        let ghost names = d@.type_params;
        let ghost values = rustc_views(types@);
        let mut i: usize = 0;
        assert(names.take(0) =~= Seq::empty());
        assert(subst@ =~= bind_all(names.take(0), values));
        while i < d.type_params.len()
            invariant
                i <= d.type_params@.len(),
                names == views(d.type_params@),
                values == rustc_views(types@),
                subst@ == bind_all(names.take(i as int), values),
            decreases d.type_params@.len() - i,
        {
            assert(names.take(i + 1).drop_last() =~= names.take(i as int));
            assert(names.take(i + 1).last() == d.type_params@[i as int]@);
            if i < types.len() {
                assert(values[i as int] == types@[i as int].model());
                subst.insert(d.type_params[i].clone(), clone_rustc_ty(&types[i]));
            }
            i += 1;
        }
        assert(names.take(d.type_params@.len() as int) =~= names);
        let mut fields: Vec<SourceType> = Vec::new();
        let mut k: usize = 0;
        while k < d.fields.len()
            invariant
                k == fields@.len(),
                k <= d.fields@.len(),
                forall|j: int|
                    0 <= j < k ==> (#[trigger] fields@[j]).model() == d.fields@[j].rust_type@,
            decreases d.fields@.len() - k,
        {
            fields.push(clone_source_type(&d.fields[k].rust_type));
            k += 1;
        }
        assert(source_views(fields@) =~= field_types_of(d@.fields));
        self.all_with_subst(&fields, &subst)
    }

    /// The function of the stubs of that name in the crate itself.
    pub fn find_stub_fn_def_id(&self, name: &str) -> (r: Option<u64>)
        ensures
            r == local_fn(self@.local_fns, name@, true),
    {
        find_local_fn(&self.local_fns, name, true)
    }

    /// The generic parameters of an item, as far as they have been read, with
    /// types for its type parameters.
    pub fn args_for(&self, def: u64, types: &Vec<RustcTy>) -> (r: Result<Vec<RustcTy>, OracleStop>)
        ensures
            rustcs_outcome(r) == args_of(def, rustc_views(types@), self@),
    {
        let ghost all = views(self.generics@);
        let mut i: usize = 0;
        assert(all.skip(0) =~= all);
        while i < self.generics.len()
            invariant
                i <= self.generics@.len(),
                all == views(self.generics@),
                find_generics(all, def) == find_generics(all.skip(i as int), def),
            decreases self.generics@.len() - i,
        {
            assert(all.skip(i as int).drop_first() =~= all.skip(i + 1));
            assert(all.skip(i as int)[0] == self.generics@[i as int]@);
            if self.generics[i].def == def {
                return match build_generic_args_for_item(&self.generics[i].params, types) {
                    None => Err(OracleStop::GenericArgs { def }),
                    Some(args) => Ok(args),
                };
            }
            i += 1;
        }
        Err(OracleStop::NeedGenerics { def })
    }

    fn instantiate(&self, def: u64, types: &Vec<RustcTy>) -> (r: Result<&Signature, OracleStop>)
        ensures
            (match r {
                Ok(sig) => Ok(sig@),
                Err(e) => Err(e@),
            }) == signature_of(def, rustc_views(types@), self@),
    {
        let args = match self.args_for(def, types) {
            Err(e) => {
                return Err(e);
            },
            Ok(args) => args,
        };
        let ghost sigs = views(self.signatures@);
        let ghost key = rustc_views(args@);
        let mut k: usize = 0;
        assert(sigs.skip(0) =~= sigs);
        while k < self.signatures.len()
            invariant
                k <= self.signatures@.len(),
                sigs == views(self.signatures@),
                key == rustc_views(args@),
                signature_of(def, rustc_views(types@), self@) == (match find_signature(
                    sigs.skip(k as int),
                    def,
                    key,
                ) {
                    Some(sig) => Ok(sig),
                    None => Err(OracleStopView::NeedSignature { def, args: key }),
                }),
            decreases self.signatures@.len() - k,
        {
            assert(sigs.skip(k as int).drop_first() =~= sigs.skip(k + 1));
            assert(sigs.skip(k as int)[0] == self.signatures@[k as int]@);
            if self.signatures[k].def == def && same_rustc_tys(&self.signatures[k].args, &args) {
                return Ok(&self.signatures[k]);
            }
            k += 1;
        }
        Err(OracleStop::NeedSignature { def, args })
    }

    fn method_sig(&self, owner: &str, method: &str, type_args: &Vec<SourceType>) -> (r: Result<
        Option<&Signature>,
        OracleStop,
    >)
        ensures
            opt_signature_outcome(r) == method_signature(
                owner@,
                method@,
                source_views(type_args@),
                self@,
            ),
    {
        let def = match self.find_rust_type_def_id(owner) {
            None => {
                return Ok(None);
            },
            Some(def) => def,
        };
        let found = match self.find_inherent_method(def, method) {
            Err(e) => {
                return Err(e);
            },
            Ok(None) => {
                return Ok(None);
            },
            Ok(Some(found)) => found,
        };
        let context = RustTypeLookupContext::InherentMethodTypeArg {
            owner: owned(owner),
            method: owned(method),
        };
        match self.all_to_rustc(type_args, &context) {
            Err(e) => Err(e),
            Ok(types) => match self.instantiate(found, &types) {
                Err(e) => Err(e),
                Ok(sig) => Ok(Some(sig)),
            },
        }
    }

    fn free_sig(&self, name: &str, type_args: &Vec<SourceType>) -> (r: Result<
        Option<&Signature>,
        OracleStop,
    >)
        ensures
            opt_signature_outcome(r) == free_signature(name@, source_views(type_args@), self@),
    {
        let def = match self.find_use_imported_fn_def_id(name) {
            None => {
                return Ok(None);
            },
            Some(def) => def,
        };
        let context = RustTypeLookupContext::FreeFunctionTypeArg { function_name: owned(name) };
        match self.all_to_rustc(type_args, &context) {
            Err(e) => Err(e),
            Ok(types) => match self.instantiate(def, &types) {
                Err(e) => Err(e),
                Ok(sig) => Ok(Some(sig)),
            },
        }
    }

    fn trait_sig(
        &self,
        trait_name: &str,
        method: &str,
        receiver: &SourceType,
        type_args: &Vec<SourceType>,
        from: usize,
    ) -> (r: Result<FoundTrait<'_>, OracleStop>)
        requires
            from <= type_args@.len(),
        ensures
            (match r {
                Ok(f) => Ok(f@),
                Err(e) => Err(e@),
            }) == trait_signature(
                trait_name@,
                method@,
                receiver@,
                source_views(type_args@).skip(from as int),
                self@,
            ),
    {
        let def = match self.find_use_imported_trait_def_id(trait_name) {
            None => {
                return Ok(FoundTrait::NoTrait);
            },
            Some(def) => def,
        };
        let self_context = RustTypeLookupContext::TraitCallSelf {
            trait_name: owned(trait_name),
            method: owned(method),
        };
        let self_ty = match self.try_resolved_to_rustc_ty(
            strip_source_ref(receiver),
            &self_context,
        ) {
            Err(e) => {
                return Err(e);
            },
            Ok(t) => t,
        };
        let found = match self.find_inherent_method(def, method) {
            Err(e) => {
                return Err(e);
            },
            Ok(None) => {
                return Ok(FoundTrait::NoMethod);
            },
            Ok(Some(found)) => found,
        };
        let context = RustTypeLookupContext::TraitMethodTypeArg {
            trait_name: owned(trait_name),
            method: owned(method),
        };
        match self.rest_to_rustc(type_args, from, &context) {
            Err(e) => Err(e),
            Ok(types) => {
                let ghost first = self_ty@;
                let ghost rest = rustc_views(types@);
                let mut all: Vec<RustcTy> = Vec::new();
                all.push(self_ty);
                let mut more = types;
                all.append(&mut more);
                assert(rustc_views(all@) =~= seq![first] + rest);
                match self.instantiate(found, &all) {
                    Err(e) => Err(e),
                    Ok(sig) => Ok(FoundTrait::Signature(sig)),
                }
            },
        }
    }

    /// The return type of a method of a Rust type.
    pub fn rust_method_return_type(
        &self,
        owner: &str,
        method: &str,
        type_args: &Vec<SourceType>,
    ) -> (r: Result<SourceType, OracleStop>)
        ensures
            source_outcome(r) == method_return(owner@, method@, source_views(type_args@), self@),
    {
        if self.find_rust_type_def_id(owner).is_none() {
            return Err(
                OracleStop::Unresolved(
                    UnresolvedRustType {
                        name: owned(owner),
                        context: RustTypeLookupContext::InherentMethodTypeArg {
                            owner: owned(owner),
                            method: owned(method),
                        },
                    },
                ),
            );
        }
        match self.method_sig(owner, method, type_args) {
            Err(e) => Err(e),
            Ok(None) => Err(
                OracleStop::NoMethod { owner: owned(owner), method: owned(method) },
            ),
            Ok(Some(sig)) => output_type(sig),
        }
    }

    /// The parameter types of a method of a Rust type. Nothing, where the type
    /// or the method is not there.
    pub fn rust_method_param_types(
        &self,
        owner: &str,
        method: &str,
        type_args: &Vec<SourceType>,
    ) -> (r: Result<Option<Vec<SourceType>>, OracleStop>)
        ensures
            opt_sources_outcome(r) == method_params(
                owner@,
                method@,
                source_views(type_args@),
                self@,
            ),
    {
        match self.method_sig(owner, method, type_args) {
            Err(e) => Err(e),
            Ok(None) => Ok(None),
            Ok(Some(sig)) => input_types(sig),
        }
    }

    /// The return type of a free function. Nothing, where it is not there.
    pub fn rust_free_fn_return_type(&self, name: &str, type_args: &Vec<SourceType>) -> (r: Result<
        Option<SourceType>,
        OracleStop,
    >)
        ensures
            opt_source_outcome(r) == free_return(name@, source_views(type_args@), self@),
    {
        match self.free_sig(name, type_args) {
            Err(e) => Err(e),
            Ok(None) => Ok(None),
            Ok(Some(sig)) => match output_type(sig) {
                Err(e) => Err(e),
                Ok(t) => Ok(Some(t)),
            },
        }
    }

    /// The parameter types of a free function. Nothing, where it is not there.
    pub fn rust_free_fn_param_types(&self, name: &str, type_args: &Vec<SourceType>) -> (r: Result<
        Option<Vec<SourceType>>,
        OracleStop,
    >)
        ensures
            opt_sources_outcome(r) == free_params(name@, source_views(type_args@), self@),
    {
        match self.free_sig(name, type_args) {
            Err(e) => Err(e),
            Ok(None) => Ok(None),
            Ok(Some(sig)) => input_types(sig),
        }
    }

    /// The return type of a method of a trait. The type arguments that count
    /// are those from `from` on.
    pub fn rust_trait_method_return_type(
        &self,
        trait_name: &str,
        method: &str,
        receiver: &SourceType,
        type_args: &Vec<SourceType>,
        from: usize,
    ) -> (r: Result<SourceType, OracleStop>)
        requires
            from <= type_args@.len(),
        ensures
            source_outcome(r) == trait_return(
                trait_name@,
                method@,
                receiver@,
                source_views(type_args@).skip(from as int),
                self@,
            ),
    {
        match self.trait_sig(trait_name, method, receiver, type_args, from) {
            Err(e) => Err(e),
            Ok(FoundTrait::NoTrait) => Err(
                OracleStop::Unresolved(
                    UnresolvedRustType {
                        name: owned(trait_name),
                        context: RustTypeLookupContext::TraitCallName { method: owned(method) },
                    },
                ),
            ),
            Ok(FoundTrait::NoMethod) => Err(
                OracleStop::Unresolved(
                    UnresolvedRustType {
                        name: owned(method),
                        context: RustTypeLookupContext::TraitMethodName {
                            trait_name: owned(trait_name),
                        },
                    },
                ),
            ),
            Ok(FoundTrait::Signature(sig)) => output_type(sig),
        }
    }

    /// The parameter types of a method of a trait. Nothing, where the trait or
    /// the method is not there. The type arguments that count are those from
    /// `from` on.
    pub fn rust_trait_method_param_types(
        &self,
        trait_name: &str,
        method: &str,
        receiver: &SourceType,
        type_args: &Vec<SourceType>,
        from: usize,
    ) -> (r: Result<Option<Vec<SourceType>>, OracleStop>)
        requires
            from <= type_args@.len(),
        ensures
            opt_sources_outcome(r) == trait_params(
                trait_name@,
                method@,
                receiver@,
                source_views(type_args@).skip(from as int),
                self@,
            ),
    {
        match self.trait_sig(trait_name, method, receiver, type_args, from) {
            Err(e) => Err(e),
            Ok(FoundTrait::Signature(sig)) => input_types(sig),
            Ok(_) => Ok(None),
        }
    }

    /// Answers a question for a return type.
    pub fn return_type_for(&self, owner: &str, method: &str, type_args: &Vec<SourceType>) -> (r:
        Result<SourceType, OracleStop>)
        ensures
            source_outcome(r) == answer_return(owner@, method@, source_views(type_args@), self@),
    {
        let chars = chars_of(owner);
        if chars.len() == 0 {
            return match self.rust_free_fn_return_type(method, type_args) {
                Err(e) => Err(e),
                Ok(Some(t)) => Ok(t),
                Ok(None) => Ok(SourceType::Void),
            };
        }
        if starts_with(owner, TRAIT_PREFIX) {
            if type_args.len() == 0 {
                return Err(OracleStop::NoReceiver);
            }
            let trait_name = behind_prefix(&chars);
            let ghost all = source_views(type_args@);
            assert(all.skip(1) =~= all.drop_first());
            assert(all[0] == type_args@[0].model());
            return self.rust_trait_method_return_type(
                &trait_name,
                method,
                &type_args[0],
                type_args,
                1,
            );
        }
        self.rust_method_return_type(owner, method, type_args)
    }

    /// Answers a question for parameter types.
    pub fn param_types_for(&self, owner: &str, method: &str, type_args: &Vec<SourceType>) -> (r:
        Result<Option<Vec<SourceType>>, OracleStop>)
        ensures
            opt_sources_outcome(r) == answer_params(
                owner@,
                method@,
                source_views(type_args@),
                self@,
            ),
    {
        let chars = chars_of(owner);
        if chars.len() == 0 {
            return self.rust_free_fn_param_types(method, type_args);
        }
        if starts_with(owner, TRAIT_PREFIX) {
            if type_args.len() == 0 {
                return Err(OracleStop::NoReceiver);
            }
            let trait_name = behind_prefix(&chars);
            let ghost all = source_views(type_args@);
            assert(all.skip(1) =~= all.drop_first());
            assert(all[0] == type_args@[0].model());
            return self.rust_trait_method_param_types(
                &trait_name,
                method,
                &type_args[0],
                type_args,
                1,
            );
        }
        self.rust_method_param_types(owner, method, type_args)
    }
}

fn behind_prefix(chars: &Vec<char>) -> (r: String)
    requires
        has_prefix(chars@, TRAIT_PREFIX@),
    ensures
        r@ == chars@.skip(TRAIT_PREFIX@.len() as int),
{
    let prefix = chars_of(TRAIT_PREFIX);
    let from: usize = prefix.len();
    let n: usize = chars.len();
    let s = string_of(chars, from, n);
    assert(s@ =~= chars@.skip(TRAIT_PREFIX@.len() as int));
    s
}

fn types_among(args: &Vec<RustcTy>) -> (r: Vec<RustcTy>)
    ensures
        rustc_views(r@) == only_types(rustc_views(args@)),
{
    let ghost all = rustc_views(args@);
    let mut out: Vec<RustcTy> = Vec::new();
    let mut i: usize = 0;
    assert(all.take(0) =~= Seq::empty());
    assert(rustc_views(out@) =~= Seq::empty());
    while i < args.len()
        invariant
            i <= args@.len(),
            all == rustc_views(args@),
            rustc_views(out@) == only_types(all.take(i as int)),
        decreases args@.len() - i,
    {
        let ghost done = rustc_views(out@);
        assert(all.take(i + 1).drop_last() =~= all.take(i as int));
        assert(all.take(i + 1).last() == args@[i as int].model());
        let is_type = match &args[i] {
            RustcTy::Region | RustcTy::ConstArg => false,
            _ => true,
        };
        if is_type {
            let one = clone_rustc_ty(&args[i]);
            let ghost view = one@;
            out.push(one);
            assert(rustc_views(out@) =~= done.push(view));
        }
        i += 1;
    }
    assert(all.take(args@.len() as int) =~= all);
    out
}

fn find_item(items: &Vec<AssocItem>, name: &str) -> (r: Option<u64>)
    ensures
        r == item_named(views(items@), name@),
{
    let ghost all = views(items@);
    let mut i: usize = 0;
    assert(all.skip(0) =~= all);
    while i < items.len()
        invariant
            i <= items@.len(),
            all == views(items@),
            item_named(all, name@) == item_named(all.skip(i as int), name@),
        decreases items@.len() - i,
    {
        assert(all.skip(i as int).drop_first() =~= all.skip(i + 1));
        assert(all.skip(i as int)[0] == items@[i as int]@);
        if same_text(&items[i].name, name) {
            return Some(items[i].def);
        }
        i += 1;
    }
    None
}

fn output_type(sig: &Signature) -> (r: Result<SourceType, OracleStop>)
    ensures
        source_outcome(r) == output_of(sig@),
{
    match rustc_ty_to_resolved_type(&sig.output) {
        Some(t) => Ok(t),
        None => Err(OracleStop::Unsupported),
    }
}

fn input_types(sig: &Signature) -> (r: Result<Option<Vec<SourceType>>, OracleStop>)
    ensures
        opt_sources_outcome(r) == (match inputs_of(sig@) {
            Ok(ts) => Ok(Some(ts)),
            Err(e) => Err(e),
        }),
{
    match rustc_tys_to_source_types(&sig.inputs) {
        Some(ts) => Ok(Some(ts)),
        None => Err(OracleStop::Unsupported),
    }
}

} // verus!
