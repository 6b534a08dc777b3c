//! What a compilation does at the points where the Rust compiler calls back.
use crate::llvm_gen::abi::{CodeFacts, LowerStop, LowerStopView};
use crate::llvm_gen::lower::LowerCx;
use crate::llvm_gen::{fill_items, fill_module, filled, pinned_symbols, registry_name, registry_name_of, Filled, MonoItem};
use crate::names::find;
use crate::oracle::{resolve_all, resolve_source_types, ContextView, RustTypeLookupContext};
use crate::rust_items::{
    args_of, rustc_views, to_rustcs, to_sources, OracleStop, OracleStopView, RustcTy, RustcTyView, RustcWorld, WorldView,
};
use crate::rust_lookup::rustc_tys_to_source_types;
use crate::sidecar::{serialize_sidecar, sidecar_bytes, SidecarError};
use crate::text::{chars_of, owned, same_text, views, Duplicate};
use crate::toylang::answers::{RustAnswers, RustAnswersView};
use crate::toylang::callbacks_impl::{
    collect_rust_deps, deps_of, effective, effective_registry, instantiated_fn, resolve_toylang_callee, EmissionView, RustDep,
    RustDepView, WalkStop, WalkStopView, WalkView,
};
use crate::toylang::registry::{with_struct_ids, DiscoveredTraitImplInstance, DiscoveredView, RegistryView, ToyFunctionView, ToyStructView, ToylangRegistry};
use crate::toylang::roots::{
    drain_discoveries, drained, find_method, populate_toylang_instances, populated, stub_views, MethodStubView, StubFacts, StubSymbol,
};
use crate::toylang::type_resolve::{TypeResolveError, TypeResolveErrorView, Typing};
use crate::toylang::typed_ast::{demote_all, resolved_views, to_source_types, ResolvedType, ResolvedTypeView};
use crate::toylang::validate::{validate, validation_errors, RustcFacts, ValidationError, build_shipped_registry, build_shipped_sidecar, shipped_registry, CallbackLog, ToylangCallbacks, ToylangState};
use vstd::prelude::*;

verus! {

broadcast use {vstd::seq::group_seq_axioms, vstd::std_specs::vec::group_vec_axioms};

/// What an instance of a function needs from the Rust side. An accessor, whose
/// name has a dot, needs nothing, and neither does a function without a body.
pub open spec fn generic_deps(
    local: RegistryView,
    upstreams: Seq<(Seq<char>, RegistryView)>,
    answers: RustAnswersView,
    name: Seq<char>,
    symbol: Seq<char>,
    type_args: Seq<ResolvedTypeView>,
) -> Result<Seq<RustDepView>, WalkStopView> {
    let registry = effective(local, upstreams);
    if name.contains('.') {
        Ok(Seq::empty())
    } else {
        match find(registry.functions, registry_name(name)) {
            None => Err(WalkStopView::FunctionNotFound { name: registry_name(name) }),
            Some(f) => if f.body is None {
                Ok(Seq::empty())
            } else {
                match deps_of(
                    instantiated_fn(f, type_args),
                    registry_name(name),
                    seq![symbol],
                    (Typing { registry, answers }),
                ) {
                    Err(e) => Err(e),
                    Ok((deps, _)) => Ok(deps),
                }
            },
        }
    }
}

fn has_dot(name: &str) -> (r: bool)
    ensures
        r == name@.contains('.'),
{
    let chars = chars_of(name);
    let mut i: usize = 0;
    while i < chars.len()
        invariant
            i <= chars@.len(),
            chars@ == name@,
            forall|j: int| 0 <= j < i ==> chars@[j] != '.',
        decreases chars@.len() - i,
    {
        if chars[i] == '.' {
            assert(name@[i as int] == '.');
            return true;
        }
        i += 1;
    }
    false
}

impl ToylangCallbacks {
    /// What an instance of a function needs from the Rust side. `symbol` is
    /// that of the instance, and `fingerprint` its generic arguments for the
    /// log.
    pub fn collect_generic_rust_deps_inner(
        &self,
        state: &mut ToylangState,
        answers: &RustAnswers,
        name: &str,
        fingerprint: String,
        symbol: String,
        type_args: &Vec<ResolvedType>,
    ) -> (r: Result<Vec<RustDep>, WalkStop>)
        ensures
            (match r {
                Ok(deps) => Ok(views(deps@)),
                Err(e) => Err(e@),
            }) == generic_deps(
                self.registry@,
                old(state).upstream_registries@,
                answers@,
                name@,
                symbol@,
                resolved_views(type_args@),
            ),
            final(state).log@.len() == old(state).log@.len() + 1,
            final(state).log@.drop_last() == old(state).log@,
            final(state).log@.last() matches CallbackLog::CollectGenericRustDeps {
                name: logged,
                args_fingerprint,
            } && logged@ == name@ && args_fingerprint@ == fingerprint@,
            final(state).emission == old(state).emission,
            final(state).upstream_registries == old(state).upstream_registries,
    {
        let ghost before = state.log@;
        state.log.push(
            CallbackLog::CollectGenericRustDeps {
                name: owned(name),
                args_fingerprint: fingerprint,
            },
        );
        assert(state.log@.drop_last() =~= before);
        if has_dot(name) {
            let none: Vec<RustDep> = Vec::new();
            assert(views(none@) =~= Seq::empty());
            return Ok(none);
        }
        let registry_name = registry_name_of(name);
        let registry = effective_registry(&self.registry, &state.upstream_registries);
        let f = match registry.functions.get(&registry_name) {
            None => {
                return Err(WalkStop::FunctionNotFound { name: registry_name });
            },
            Some(f) => f,
        };
        if f.body.is_none() {
            let none: Vec<RustDep> = Vec::new();
            assert(views(none@) =~= Seq::empty());
            return Ok(none);
        }
        let caller = resolve_toylang_callee(f, type_args);
        collect_rust_deps(&registry, answers, &caller, &registry_name, symbol)
    }
}

/// How many of the functions without a body Rust defines, and how many there
/// are.
pub open spec fn probe(fs: Seq<(Seq<char>, ToyFunctionView)>, declared: Seq<Seq<char>>) -> (nat, nat)
    decreases fs.len(),
{
    if fs.len() == 0 {
        (0, 0)
    } else {
        let (resolved, total) = probe(fs.drop_last(), declared);
        if fs.last().1.body is Some {
            (resolved, total)
        } else if declared.contains(fs.last().0) {
            (resolved + 1, total + 1)
        } else {
            (resolved, total + 1)
        }
    }
}

fn count_declared(registry: &ToylangRegistry, facts: &RustcFacts) -> (r: (usize, usize))
    ensures
        (r.0 as nat, r.1 as nat) == probe(registry@.functions, facts@.declared_fns),
{
    let ghost all = registry@.functions;
    let n: usize = registry.functions.len();
    let mut resolved: usize = 0;
    let mut total: usize = 0;
    let mut i: usize = 0;
    assert(all.take(0) =~= Seq::empty());
    while i < n
        invariant
            i <= n,
            n == all.len(),
            all == registry.functions@,
            resolved <= total <= i,
            (resolved as nat, total as nat) == probe(all.take(i as int), facts@.declared_fns),
        decreases n - i,
    {
        assert(all.take(i + 1).drop_last() =~= all.take(i as int));
        assert(all.take(i + 1).last() == all[i as int]);
        if registry.functions.value_at(i).body.is_none() {
            total += 1;
            if facts.declared_fns.contains(registry.functions.key_at(i)) {
                resolved += 1;
            }
        }
        i += 1;
    }
    assert(all.take(n as int) =~= all);
    (resolved, total)
}

impl ToylangCallbacks {
    /// Checks a crate once Rust has analysed it. That of the binary has been
    /// checked as a stub crate; it is only counted how many declared functions
    /// Rust defines.
    pub fn after_rust_analysis(
        &self,
        state: &mut ToylangState,
        answers: &RustAnswers,
        facts: &RustcFacts,
    ) -> (errors: Vec<ValidationError>)
        ensures
            views(errors@) == (if self.is_user_bin_compile {
                Seq::empty()
            } else {
                validation_errors(
                    self.registry@,
                    old(state).upstream_registries@,
                    answers@,
                    facts@,
                )
            }),
            final(state).emission == old(state).emission,
            final(state).upstream_registries == old(state).upstream_registries,
            final(state).log@ == ({
                let first = old(state).log@.push(CallbackLog::AfterRustAnalysis);
                let (resolved, total) = probe(self.registry@.functions, facts@.declared_fns);
                if self.is_user_bin_compile {
                    first.push(
                        CallbackLog::OracleCrossCrateProbe {
                            resolved: resolved as usize,
                            total: total as usize,
                        },
                    )
                } else {
                    first
                }
            }),
    {
        state.log.push(CallbackLog::AfterRustAnalysis);
        if self.is_user_bin_compile {
            let (resolved, total) = count_declared(&self.registry, facts);
            state.log.push(CallbackLog::OracleCrossCrateProbe { resolved, total });
            let none: Vec<ValidationError> = Vec::new();
            assert(views(none@) =~= Seq::empty());
            return none;
        }
        validate(&self.registry, &state.upstream_registries, answers, facts)
    }

    /// The sidecar of a crate that has been checked, before it is known which
    /// instances are in use.
    pub fn first_sidecar(&self) -> (r: Result<Vec<u8>, SidecarError>)
        ensures
            r is Ok,
            r->Ok_0@ == sidecar_bytes(
                RegistryView {
                    typeid_table: with_struct_ids(
                        self.registry@.typeid_table,
                        self.registry@.structs,
                    ),
                    ..self.registry@
                },
            ),
    {
        let mut registry = self.registry.duplicate();
        registry.populate_typeid_table();
        serialize_sidecar(&registry)
    }
}

/// A function that the Rust compiler is going to generate code for.
#[derive(Debug, PartialEq)]
pub struct CapturedItem {
    /// Whether it is defined in a stub crate.
    pub in_stubs: bool,
    /// The type, the trait and the name of a method of a trait impl.
    pub method: Option<(String, String, String)>,
    pub args: Vec<RustcTy>,
}

/// What a [`CapturedItem`] says.
pub struct CapturedItemView {
    pub in_stubs: bool,
    pub method: Option<(Seq<char>, Seq<char>, Seq<char>)>,
    pub args: Seq<RustcTyView>,
}

impl View for CapturedItem {
    type V = CapturedItemView;

    open spec fn view(&self) -> CapturedItemView {
        CapturedItemView {
            in_stubs: self.in_stubs,
            method: match self.method {
                Some((a, b, c)) => Some((a@, b@, c@)),
                None => None,
            },
            args: rustc_views(self.args@),
        }
    }
}

/// Why an instance cannot be recorded.
#[derive(Debug, PartialEq)]
pub enum CaptureStop {
    /// A type has no counterpart in toylang.
    Unsupported,
    /// A type does not resolve.
    Types { error: TypeResolveError },
}

/// What a [`CaptureStop`] says.
pub enum CaptureStopView {
    Unsupported,
    Types { error: TypeResolveErrorView },
}

impl View for CaptureStop {
    type V = CaptureStopView;

    open spec fn view(&self) -> CaptureStopView {
        match self {
            CaptureStop::Unsupported => CaptureStopView::Unsupported,
            CaptureStop::Types { error } => CaptureStopView::Types { error: error@ },
        }
    }
}

/// The types among some generic arguments, resolved.
pub open spec fn concrete_args(
    args: Seq<RustcTyView>,
    structs: Seq<(Seq<char>, ToyStructView)>,
) -> Result<Seq<ResolvedTypeView>, CaptureStopView> {
    match to_sources(args) {
        None => Err(CaptureStopView::Unsupported),
        Some(types) => match resolve_all(types, structs) {
            Err(error) => Err(CaptureStopView::Types { error }),
            Ok(resolved) => Ok(resolved),
        },
    }
}

/// The methods of trait impls of the stubs among some functions, with the
/// types that they are used with.
pub open spec fn captured(
    items: Seq<CapturedItemView>,
    structs: Seq<(Seq<char>, ToyStructView)>,
) -> Result<Seq<DiscoveredView>, CaptureStopView>
    decreases items.len(),
{
    if items.len() == 0 {
        Ok(Seq::empty())
    } else {
        let item = items[0];
        match item.method {
            Some((self_type_name, trait_name, method_name)) if item.in_stubs => match concrete_args(
                item.args,
                structs,
            ) {
                Err(e) => Err(e),
                Ok(concrete_args) => match captured(items.drop_first(), structs) {
                    Err(e) => Err(e),
                    Ok(rest) => Ok(
                        seq![
                            DiscoveredView {
                                self_type_name,
                                trait_name,
                                method_name,
                                concrete_args,
                            },
                        ] + rest,
                    ),
                },
            },
            _ => captured(items.drop_first(), structs),
        }
    }
}

/// Records which methods of trait impls are used, and with which types.
pub fn capture_discovered_trait_impl_instances(
    items: &Vec<CapturedItem>,
    registry: &ToylangRegistry,
) -> (r: Result<Vec<DiscoveredTraitImplInstance>, CaptureStop>)
    ensures
        (match r {
            Ok(v) => Ok(views(v@)),
            Err(e) => Err(e@),
        }) == captured(views(items@), registry@.structs),
{
    let ghost all = views(items@);
    let ghost structs = registry@.structs;
    let ghost whole = captured(all, structs);
    let mut out: Vec<DiscoveredTraitImplInstance> = Vec::new();
    let mut i: usize = 0;
    assert(all.skip(0) =~= all);
    assert(views(out@) =~= Seq::empty());
    assert(whole is Ok ==> views(out@) + whole->Ok_0 =~= whole->Ok_0);
    while i < items.len()
        invariant
            i <= items@.len(),
            all == views(items@),
            structs == registry@.structs,
            whole == captured(all, structs),
            whole == (match captured(all.skip(i as int), structs) {
                Ok(rest) => Ok(views(out@) + rest),
                Err(e) => Err(e),
            }),
        decreases items@.len() - i,
    {
        let ghost done = views(out@);
        assert(all.skip(i as int).drop_first() =~= all.skip(i + 1));
        assert(all.skip(i as int)[0] == items@[i as int]@);
        if items[i].in_stubs {
            match &items[i].method {
                None => {},
                Some((self_type, trait_name, method)) => {
                    let types = match rustc_tys_to_source_types(&items[i].args) {
                        None => {
                            return Err(CaptureStop::Unsupported);
                        },
                        Some(types) => types,
                    };
                    let resolved = match resolve_source_types(&types, registry) {
                        Err(error) => {
                            return Err(CaptureStop::Types { error });
                        },
                        Ok(resolved) => resolved,
                    };
                    let one = DiscoveredTraitImplInstance {
                        self_type_name: self_type.clone(),
                        trait_name: trait_name.clone(),
                        method_name: method.clone(),
                        concrete_args: resolved,
                    };
                    let ghost view = one@;
                    out.push(one);
                    assert(views(out@) =~= done.push(view));
                    assert(forall|rest: Seq<DiscoveredView>|
                        #[trigger] (views(out@) + rest) =~= done + (seq![view] + rest));
                },
            }
        }
        i += 1;
    }
    assert(all.skip(i as int).len() == 0);
    assert(views(out@) + Seq::<DiscoveredView>::empty() =~= views(out@));
    Ok(out)
}

/// An instance that another crate has code for.
#[derive(Debug, PartialEq)]
pub struct StashedDiscovery {
    pub crate_name: String,
    pub instance: DiscoveredTraitImplInstance,
}

/// What a [`StashedDiscovery`] says.
pub struct StashedView {
    pub crate_name: Seq<char>,
    pub instance: DiscoveredView,
}

impl View for StashedDiscovery {
    type V = StashedView;

    open spec fn view(&self) -> StashedView {
        StashedView { crate_name: self.crate_name@, instance: self.instance@ }
    }
}

/// A crate that is loaded: its name and its number.
#[derive(Debug, PartialEq)]
pub struct LoadedCrate {
    pub name: String,
    pub num: u32,
}

/// What a [`LoadedCrate`] says.
pub struct LoadedCrateView {
    pub name: Seq<char>,
    pub num: u32,
}

impl View for LoadedCrate {
    type V = LoadedCrateView;

    open spec fn view(&self) -> LoadedCrateView {
        LoadedCrateView { name: self.name@, num: self.num }
    }
}

/// A function that is instantiated in another crate.
#[derive(Debug, PartialEq)]
pub struct MonoRecord {
    pub def: u64,
    pub args: Vec<RustcTy>,
    pub crate_num: u32,
}

/// What a [`MonoRecord`] says.
pub struct MonoRecordView {
    pub def: u64,
    pub args: Seq<RustcTyView>,
    pub crate_num: u32,
}

impl View for MonoRecord {
    type V = MonoRecordView;

    open spec fn view(&self) -> MonoRecordView {
        MonoRecordView { def: self.def, args: rustc_views(self.args@), crate_num: self.crate_num }
    }
}

/// The first crate of that name.
pub open spec fn crate_named(crates: Seq<LoadedCrateView>, name: Seq<char>) -> Option<u32>
    decreases crates.len(),
{
    if crates.len() == 0 {
        None
    } else if crates[0].name == name {
        Some(crates[0].num)
    } else {
        crate_named(crates.drop_first(), name)
    }
}

fn find_crate(crates: &Vec<LoadedCrate>, name: &str) -> (r: Option<u32>)
    ensures
        r == crate_named(views(crates@), name@),
{
    let ghost all = views(crates@);
    let mut i: usize = 0;
    assert(all.skip(0) =~= all);
    while i < crates.len()
        invariant
            i <= crates@.len(),
            all == views(crates@),
            crate_named(all, name@) == crate_named(all.skip(i as int), name@),
        decreases crates@.len() - i,
    {
        assert(all.skip(i as int).drop_first() =~= all.skip(i + 1));
        assert(all.skip(i as int)[0] == crates@[i as int]@);
        if same_text(&crates[i].name, name) {
            return Some(crates[i].num);
        }
        i += 1;
    }
    None
}

/// What there is to say of one instance that another crate has code for.
/// Nothing, where the method or the crate is not there.
pub open spec fn mono_record(
    d: StashedView,
    stubs: Seq<MethodStubView>,
    crates: Seq<LoadedCrateView>,
    w: WorldView,
) -> Result<Option<MonoRecordView>, OracleStopView> {
    match find_method(
        stubs,
        d.instance.trait_name,
        d.instance.self_type_name,
        d.instance.method_name,
    ) {
        None => Ok(None),
        Some(stub) => match to_rustcs(
            demote_all(d.instance.concrete_args),
            ContextView::Codegen,
            w,
        ) {
            Err(e) => Err(e),
            Ok(types) => match args_of(stub.id, types, w) {
                Err(e) => Err(e),
                Ok(args) => match crate_named(crates, d.crate_name) {
                    None => Ok(None),
                    Some(crate_num) => Ok(Some(MonoRecordView { def: stub.id, args, crate_num })),
                },
            },
        },
    }
}

/// What there is to say of the instances that other crates have code for.
pub open spec fn mono_records(
    ds: Seq<StashedView>,
    stubs: Seq<MethodStubView>,
    crates: Seq<LoadedCrateView>,
    w: WorldView,
) -> Result<Seq<MonoRecordView>, OracleStopView>
    decreases ds.len(),
{
    if ds.len() == 0 {
        Ok(Seq::empty())
    } else {
        match mono_record(ds[0], stubs, crates, w) {
            Err(e) => Err(e),
            Ok(first) => match mono_records(ds.drop_first(), stubs, crates, w) {
                Err(e) => Err(e),
                Ok(rest) => Ok(
                    match first {
                        Some(r) => seq![r] + rest,
                        None => rest,
                    },
                ),
            },
        }
    }
}

fn make_mono_record(
    d: &StashedDiscovery,
    stubs: &StubFacts,
    crates: &Vec<LoadedCrate>,
    world: &RustcWorld,
) -> (r: Result<Option<MonoRecord>, OracleStop>)
    ensures
        (match r {
            Ok(Some(x)) => Ok(Some(x@)),
            Ok(None) => Ok(None),
            Err(e) => Err(e@),
        }) == mono_record(d@, stubs@.methods, views(crates@), world@),
{
    let stub = match stubs.method(
        &d.instance.trait_name,
        &d.instance.self_type_name,
        &d.instance.method_name,
    ) {
        None => {
            return Ok(None);
        },
        Some(stub) => stub,
    };
    let sources = to_source_types(&d.instance.concrete_args);
    let types = match world.all_to_rustc(&sources, &RustTypeLookupContext::Codegen) {
        Err(e) => {
            return Err(e);
        },
        Ok(types) => types,
    };
    let args = match world.args_for(stub.id, &types) {
        Err(e) => {
            return Err(e);
        },
        Ok(args) => args,
    };
    match find_crate(crates, &d.crate_name) {
        None => Ok(None),
        Some(crate_num) => Ok(Some(MonoRecord { def: stub.id, args, crate_num })),
    }
}

/// Says which instances other crates have code for.
pub fn synthesize_upstream_monomorphizations(
    ds: &Vec<StashedDiscovery>,
    stubs: &StubFacts,
    crates: &Vec<LoadedCrate>,
    world: &RustcWorld,
) -> (r: Result<Vec<MonoRecord>, OracleStop>)
    ensures
        (match r {
            Ok(v) => Ok(views(v@)),
            Err(e) => Err(e@),
        }) == mono_records(views(ds@), stubs@.methods, views(crates@), world@),
{
    let ghost all = views(ds@);
    let ghost ms = stubs@.methods;
    let ghost cs = views(crates@);
    let ghost whole = mono_records(all, ms, cs, world@);
    let mut out: Vec<MonoRecord> = Vec::new();
    let mut i: usize = 0;
    assert(all.skip(0) =~= all);
    assert(views(out@) =~= Seq::empty());
    assert(whole is Ok ==> views(out@) + whole->Ok_0 =~= whole->Ok_0);
    while i < ds.len()
        invariant
            i <= ds@.len(),
            all == views(ds@),
            ms == stubs@.methods,
            cs == views(crates@),
            whole == mono_records(all, ms, cs, world@),
            whole == (match mono_records(all.skip(i as int), ms, cs, world@) {
                Ok(rest) => Ok(views(out@) + rest),
                Err(e) => Err(e),
            }),
        decreases ds@.len() - i,
    {
        let ghost done = views(out@);
        assert(all.skip(i as int).drop_first() =~= all.skip(i + 1));
        assert(all.skip(i as int)[0] == ds@[i as int]@);
        match make_mono_record(&ds[i], stubs, crates, world) {
            Err(e) => {
                return Err(e);
            },
            Ok(None) => {},
            Ok(Some(one)) => {
                let ghost view = one@;
                out.push(one);
                assert(views(out@) =~= done.push(view));
                assert(forall|rest: Seq<MonoRecordView>|
                    #[trigger] (views(out@) + rest) =~= done + (seq![view] + rest));
            },
        }
        i += 1;
    }
    assert(all.skip(i as int).len() == 0);
    assert(views(out@) + Seq::<MonoRecordView>::empty() =~= views(out@));
    Ok(out)
}

/// Why there is no plan for the module of a crate, or none yet.
#[derive(Debug, PartialEq)]
pub enum PlanStop {
    Walk(WalkStop),
    Lower(LowerStop),
}

/// What a [`PlanStop`] says.
pub enum PlanStopView {
    Walk(WalkStopView),
    Lower(LowerStopView),
}

impl View for PlanStop {
    type V = PlanStopView;

    open spec fn view(&self) -> PlanStopView {
        match self {
            PlanStop::Walk(e) => PlanStopView::Walk(e@),
            PlanStop::Lower(e) => PlanStopView::Lower(e@),
        }
    }
}

/// What a crate puts out besides the code that Rust makes of it.
pub struct ModulePlan {
    /// The sidecar, with the instances that were seen in use. Only a stub
    /// crate has one.
    pub sidecar: Option<Vec<u8>>,
    /// What goes into the LLVM module.
    pub filled: Filled,
}

/// What is to be emitted in the end: in a stub crate the instances that were
/// seen in use, with what they call, and then the roots of the crate, with what
/// they call.
pub open spec fn final_emission(
    local: RegistryView,
    upstreams: Seq<(Seq<char>, RegistryView)>,
    answers: RustAnswersView,
    is_user_bin: bool,
    seen: Seq<DiscoveredView>,
    seen_stubs: Seq<Option<crate::toylang::roots::StubSymbolView>>,
    stubs: crate::toylang::roots::StubFactsView,
    st: EmissionView,
) -> Result<EmissionView, WalkStopView> {
    let w = WalkView { effective: effective(local, upstreams), local, answers };
    let first = if is_user_bin {
        Ok(st)
    } else {
        drained(
            shipped_registry(local, seen).discovered_trait_impl_instances,
            seen_stubs,
            local,
            upstreams,
            st,
            w,
        )
    };
    match first {
        Err(e) => Err(e),
        Ok(st1) => populated(local, upstreams, answers, stubs, is_user_bin, st1),
    }
}

impl ToylangCallbacks {
    /// Says what a crate puts out. In a stub crate the instances that were
    /// seen in use go into the sidecar, in order; `seen_stubs` has their stubs
    /// in that order.
    pub fn consumer_fill_modules(
        &self,
        state: &mut ToylangState,
        answers: &RustAnswers,
        facts: &CodeFacts,
        stubs: &StubFacts,
        seen: &Vec<DiscoveredTraitImplInstance>,
        seen_stubs: &Vec<Option<StubSymbol>>,
        ms: &Vec<MonoItem>,
    ) -> (r: Result<ModulePlan, PlanStop>)
        requires
            seen_stubs@.len() == shipped_registry(
                self.registry@,
                views(seen@),
            ).discovered_trait_impl_instances.len(),
        ensures
            final(state).upstream_registries == old(state).upstream_registries,
            final(state).log@ == old(state).log@.push(CallbackLog::GenerateAndCompile),
            match final_emission(
                self.registry@,
                old(state).upstream_registries@,
                answers@,
                self.is_user_bin_compile,
                views(seen@),
                stub_views(seen_stubs@),
                stubs@,
                old(state).emission@,
            ) {
                Err(e) => r is Err && r->Err_0@ == PlanStopView::Walk(e),
                Ok(st) => {
                    let merged = effective(self.registry@, old(state).upstream_registries@);
                    let items = fill_items(views(ms@), st.instances, merged);
                    let cx = LowerCx { registry: merged, answers: answers@, facts: facts@ };
                    &&& final(state).emission@ == st
                    &&& match filled(items, cx) {
                        Err(e) => r is Err && r->Err_0@ == PlanStopView::Lower(e),
                        Ok(m) => {
                            &&& r is Ok
                            &&& r->Ok_0.filled.module@ == m
                            &&& views(r->Ok_0.filled.pinned@) == pinned_symbols(items)
                            &&& self.is_user_bin_compile ==> r->Ok_0.sidecar is None
                            &&& !self.is_user_bin_compile ==> r->Ok_0.sidecar is Some
                                && r->Ok_0.sidecar->Some_0@ == sidecar_bytes(
                                shipped_registry(self.registry@, views(seen@)),
                            )
                        },
                    }
                },
            },
    {
        state.log.push(CallbackLog::GenerateAndCompile);
        let mut sidecar: Option<Vec<u8>> = None;
        if !self.is_user_bin_compile {
            let shipped = build_shipped_registry(&self.registry, seen);
            match build_shipped_sidecar(&self.registry, seen) {
                Ok(bytes) => {
                    sidecar = Some(bytes);
                },
                Err(_) => {
                    assert(false);
                },
            }
            match drain_discoveries(
                &shipped.discovered_trait_impl_instances,
                seen_stubs,
                &self.registry,
                &state.upstream_registries,
                answers,
                &mut state.emission,
            ) {
                Err(e) => {
                    return Err(PlanStop::Walk(e));
                },
                Ok(_) => {},
            }
        }
        match populate_toylang_instances(
            &self.registry,
            &state.upstream_registries,
            answers,
            stubs,
            self.is_user_bin_compile,
            &mut state.emission,
        ) {
            Err(e) => {
                return Err(PlanStop::Walk(e));
            },
            Ok(_) => {},
        }
        let merged = effective_registry(&self.registry, &state.upstream_registries);
        match fill_module(&merged, answers, facts, ms, &state.emission) {
            Err(e) => Err(PlanStop::Lower(e)),
            Ok(filled) => Ok(ModulePlan { sidecar, filled }),
        }
    }
}

} // verus!
