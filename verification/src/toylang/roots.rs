//! The functions from which emission starts: exported functions, accessors,
//! methods of trait impls, and instances that were seen in use.
use crate::names::{find, NameMap};
use crate::text::{same_text, views, Duplicate};
use crate::toylang::answers::{RustAnswers, RustAnswersView};
use crate::toylang::callbacks_impl::{
    accessor_symbol, compute_accessor_symbol, compute_internal_symbol_from_type_args, compute_method_symbol, effective, effective_registry,
    instantiated_fn, internal_symbol, method_symbol, resolve_caller_from_type_args, resolve_toylang_callee, stash_fn, stub_name,
    stub_name_of, substituted_fn, walk_and_stash_internal_callees, Emission, EmissionView, InstanceView, ToylangInstance, WalkStop,
    WalkStopView, WalkView, no_bound, stashed,
};
use crate::toylang::registry::{
    accessor_fn, pair_views, synthesize_accessor_fn, DiscoveredTraitImplInstance, DiscoveredView, RegistryView, ToyFieldView, ToyFunction,
    ToyFunctionView, ToyImpl, ToyImplMethod, ToyImplMethodView, ToyImplView, ToyStructView, ToylangRegistry,
};
use crate::toylang::typed_ast::{clone_resolved_types, resolved_views, ResolvedType};
use vstd::prelude::*;
use vstd::string::*;

verus! {

broadcast use {vstd::seq::group_seq_axioms, vstd::std_specs::vec::group_vec_axioms};

/// A stub on the Rust side: by which number it is found again, and the symbol
/// that Rust gives it.
#[derive(Debug, PartialEq)]
pub struct StubSymbol {
    pub id: u64,
    pub symbol: String,
}

/// What a [`StubSymbol`] says.
pub struct StubSymbolView {
    pub id: u64,
    pub symbol: Seq<char>,
}

impl View for StubSymbol {
    type V = StubSymbolView;

    open spec fn view(&self) -> StubSymbolView {
        StubSymbolView { id: self.id, symbol: self.symbol@ }
    }
}

/// The stub of an accessor.
#[derive(Debug, PartialEq)]
pub struct AccessorStub {
    pub struct_name: String,
    pub field: String,
    pub stub: StubSymbol,
}

/// What an [`AccessorStub`] says.
pub struct AccessorStubView {
    pub struct_name: Seq<char>,
    pub field: Seq<char>,
    pub stub: StubSymbolView,
}

impl View for AccessorStub {
    type V = AccessorStubView;

    open spec fn view(&self) -> AccessorStubView {
        AccessorStubView {
            struct_name: self.struct_name@,
            field: self.field@,
            stub: self.stub@,
        }
    }
}

/// The stub of a method of a trait impl.
#[derive(Debug, PartialEq)]
pub struct MethodStub {
    pub trait_name: String,
    pub self_type: String,
    pub method: String,
    pub stub: StubSymbol,
}

/// What a [`MethodStub`] says.
pub struct MethodStubView {
    pub trait_name: Seq<char>,
    pub self_type: Seq<char>,
    pub method: Seq<char>,
    pub stub: StubSymbolView,
}

impl View for MethodStub {
    type V = MethodStubView;

    open spec fn view(&self) -> MethodStubView {
        MethodStubView {
            trait_name: self.trait_name@,
            self_type: self.self_type@,
            method: self.method@,
            stub: self.stub@,
        }
    }
}

/// The stubs that the Rust side has.
pub struct StubFacts {
    /// The stubs of functions, by the names that the stubs have.
    pub functions: NameMap<StubSymbol>,
    pub accessors: Vec<AccessorStub>,
    pub methods: Vec<MethodStub>,
}

/// What a [`StubFacts`] says.
pub struct StubFactsView {
    pub functions: Seq<(Seq<char>, StubSymbolView)>,
    pub accessors: Seq<AccessorStubView>,
    pub methods: Seq<MethodStubView>,
}

impl View for StubFacts {
    type V = StubFactsView;

    open spec fn view(&self) -> StubFactsView {
        StubFactsView {
            functions: self.functions@,
            accessors: views(self.accessors@),
            methods: views(self.methods@),
        }
    }
}

/// The stub of an accessor.
pub open spec fn find_accessor(
    stubs: Seq<AccessorStubView>,
    struct_name: Seq<char>,
    field: Seq<char>,
) -> Option<StubSymbolView>
    decreases stubs.len(),
{
    if stubs.len() == 0 {
        None
    } else if stubs[0].struct_name == struct_name && stubs[0].field == field {
        Some(stubs[0].stub)
    } else {
        find_accessor(stubs.drop_first(), struct_name, field)
    }
}

/// The stub of a method of a trait impl.
pub open spec fn find_method(
    stubs: Seq<MethodStubView>,
    trait_name: Seq<char>,
    self_type: Seq<char>,
    method: Seq<char>,
) -> Option<StubSymbolView>
    decreases stubs.len(),
{
    if stubs.len() == 0 {
        None
    } else if stubs[0].trait_name == trait_name && stubs[0].self_type == self_type
        && stubs[0].method == method {
        Some(stubs[0].stub)
    } else {
        find_method(stubs.drop_first(), trait_name, self_type, method)
    }
}

impl StubFacts {
    fn accessor(&self, struct_name: &str, field: &str) -> (r: Option<&StubSymbol>)
        ensures
            (match r {
                Some(s) => Some(s@),
                None => None,
            }) == find_accessor(self@.accessors, struct_name@, field@),
    {
        let ghost all = self@.accessors;
        let mut i: usize = 0;
        assert(all.skip(0) =~= all);
        while i < self.accessors.len()
            invariant
                i <= self.accessors@.len(),
                all == views(self.accessors@),
                find_accessor(all, struct_name@, field@) == find_accessor(
                    all.skip(i as int),
                    struct_name@,
                    field@,
                ),
            decreases self.accessors@.len() - i,
        {
            assert(all.skip(i as int).drop_first() =~= all.skip(i + 1));
            assert(all.skip(i as int)[0] == self.accessors@[i as int]@);
            if same_text(&self.accessors[i].struct_name, struct_name) && same_text(
                &self.accessors[i].field,
                field,
            ) {
                return Some(&self.accessors[i].stub);
            }
            i += 1;
        }
        None
    }

    /// The stub of a method of a trait impl.
    pub fn method(&self, trait_name: &str, self_type: &str, method: &str) -> (r: Option<&StubSymbol>)
        ensures
            (match r {
                Some(s) => Some(s@),
                None => None,
            }) == find_method(self@.methods, trait_name@, self_type@, method@),
    {
        let ghost all = self@.methods;
        let mut i: usize = 0;
        assert(all.skip(0) =~= all);
        while i < self.methods.len()
            invariant
                i <= self.methods@.len(),
                all == views(self.methods@),
                find_method(all, trait_name@, self_type@, method@) == find_method(
                    all.skip(i as int),
                    trait_name@,
                    self_type@,
                    method@,
                ),
            decreases self.methods@.len() - i,
        {
            assert(all.skip(i as int).drop_first() =~= all.skip(i + 1));
            assert(all.skip(i as int)[0] == self.methods@[i as int]@);
            if same_text(&self.methods[i].trait_name, trait_name) && same_text(
                &self.methods[i].self_type,
                self_type,
            ) && same_text(&self.methods[i].method, method) {
                return Some(&self.methods[i].stub);
            }
            i += 1;
        }
        None
    }
}

/// What becomes of an emission by one root: it is emitted unless its symbol
/// was visited, and so are the functions that it calls, if they are walked.
pub open spec fn emit_root(
    inst: InstanceView,
    name: Seq<char>,
    walked: bool,
    st: EmissionView,
    w: WalkView,
) -> Result<EmissionView, WalkStopView> {
    if st.walked.contains(inst.extern_symbol) {
        Ok(st)
    } else {
        let next = EmissionView {
            instances: st.instances.push(inst),
            walked: st.walked.push(inst.extern_symbol),
        };
        if walked && inst.resolved_func.body is Some {
            stashed(inst.resolved_func, name, next, w)
        } else {
            Ok(next)
        }
    }
}

/// Whether a function is emitted where it is defined: it is exported, and
/// nothing about it is open.
pub open spec fn is_root(f: ToyFunctionView) -> bool {
    f.is_export && f.body is Some && f.type_params.len() == 0
}

/// How an exported function is emitted: under the symbol of its stub, if it
/// has one.
pub open spec fn export_instance(
    name: Seq<char>,
    f: ToyFunctionView,
    facts: StubFactsView,
) -> InstanceView {
    let stub = find(facts.functions, stub_name(name));
    InstanceView {
        extern_symbol: match stub {
            Some(s) => s.symbol,
            None => internal_symbol(name, Seq::empty()),
        },
        internal_symbol: internal_symbol(name, Seq::empty()),
        resolved_func: f,
        stub_def_id: match stub {
            Some(s) => Some(s.id),
            None => None,
        },
        instance_args: Seq::empty(),
    }
}

/// What becomes of an emission by the exported functions among some.
pub open spec fn emit_functions(
    fs: Seq<(Seq<char>, ToyFunctionView)>,
    facts: StubFactsView,
    st: EmissionView,
    w: WalkView,
) -> Result<EmissionView, WalkStopView>
    decreases fs.len(),
{
    if fs.len() == 0 {
        Ok(st)
    } else {
        let first = if is_root(fs[0].1) {
            emit_root(export_instance(fs[0].0, fs[0].1, facts), fs[0].0, true, st, w)
        } else {
            Ok(st)
        };
        match first {
            Err(e) => Err(e),
            Ok(next) => emit_functions(fs.drop_first(), facts, next, w),
        }
    }
}

/// The first field of that name.
pub open spec fn find_field(fields: Seq<ToyFieldView>, name: Seq<char>) -> Option<ToyFieldView>
    decreases fields.len(),
{
    if fields.len() == 0 {
        None
    } else if fields[0].name == name {
        Some(fields[0])
    } else {
        find_field(fields.drop_first(), name)
    }
}

/// How the accessor of a field is emitted, if it is: its struct is not
/// generic, the field is there, and there is a stub.
pub open spec fn accessor_instance(
    pair: (Seq<char>, Seq<char>),
    structs: Seq<(Seq<char>, ToyStructView)>,
    facts: StubFactsView,
) -> Option<InstanceView> {
    match find(structs, pair.0) {
        None => None,
        Some(def) => match find_field(def.fields, pair.1) {
            None => None,
            Some(field) => if def.type_params.len() > 0 {
                None
            } else {
                match find_accessor(facts.accessors, pair.0, pair.1) {
                    None => None,
                    Some(stub) => Some(
                        InstanceView {
                            extern_symbol: stub.symbol,
                            internal_symbol: accessor_symbol(pair.0, pair.1),
                            resolved_func: accessor_fn(pair.0, def, field),
                            stub_def_id: Some(stub.id),
                            instance_args: Seq::empty(),
                        },
                    ),
                }
            },
        },
    }
}

/// What becomes of an emission by some accessors. They call nothing.
pub open spec fn emit_accessors(
    pairs: Seq<(Seq<char>, Seq<char>)>,
    structs: Seq<(Seq<char>, ToyStructView)>,
    facts: StubFactsView,
    st: EmissionView,
    w: WalkView,
) -> Result<EmissionView, WalkStopView>
    decreases pairs.len(),
{
    if pairs.len() == 0 {
        Ok(st)
    } else {
        let first = match accessor_instance(pairs[0], structs, facts) {
            None => Ok(st),
            Some(inst) => emit_root(inst, pairs[0].1, false, st, w),
        };
        match first {
            Err(e) => Err(e),
            Ok(next) => emit_accessors(pairs.drop_first(), structs, facts, next, w),
        }
    }
}

/// How a method of a trait impl is emitted where it is defined, if it is:
/// nothing about it is open, and there is a stub.
pub open spec fn method_instance(
    imp: ToyImplView,
    m: ToyImplMethodView,
    facts: StubFactsView,
) -> Option<InstanceView> {
    if m.func.body is None || m.func.type_params.len() > 0 {
        None
    } else {
        match find_method(facts.methods, imp.trait_name, imp.self_type_name, m.name) {
            None => None,
            Some(stub) => Some(
                InstanceView {
                    extern_symbol: stub.symbol,
                    internal_symbol: method_symbol(
                        imp.self_type_name,
                        imp.trait_name,
                        m.name,
                        Seq::empty(),
                    ),
                    resolved_func: substituted_fn(m.func, Seq::empty()),
                    stub_def_id: Some(stub.id),
                    instance_args: Seq::empty(),
                },
            ),
        }
    }
}

/// What becomes of an emission by some methods of a trait impl.
pub open spec fn emit_methods(
    imp: ToyImplView,
    ms: Seq<ToyImplMethodView>,
    facts: StubFactsView,
    st: EmissionView,
    w: WalkView,
) -> Result<EmissionView, WalkStopView>
    decreases ms.len(),
{
    if ms.len() == 0 {
        Ok(st)
    } else {
        let first = match method_instance(imp, ms[0], facts) {
            None => Ok(st),
            Some(inst) => emit_root(inst, ms[0].name, true, st, w),
        };
        match first {
            Err(e) => Err(e),
            Ok(next) => emit_methods(imp, ms.drop_first(), facts, next, w),
        }
    }
}

/// What becomes of an emission by some trait impls.
pub open spec fn emit_impls(
    imps: Seq<ToyImplView>,
    facts: StubFactsView,
    st: EmissionView,
    w: WalkView,
) -> Result<EmissionView, WalkStopView>
    decreases imps.len(),
{
    if imps.len() == 0 {
        Ok(st)
    } else {
        match emit_methods(imps[0], imps[0].methods, facts, st, w) {
            Err(e) => Err(e),
            Ok(next) => emit_impls(imps.drop_first(), facts, next, w),
        }
    }
}

/// What becomes of an emission by the roots of a crate. The compilation of
/// the final binary has none: every crate emits its own.
pub open spec fn populated(
    local: RegistryView,
    upstreams: Seq<(Seq<char>, RegistryView)>,
    answers: RustAnswersView,
    facts: StubFactsView,
    is_user_bin_compile: bool,
    st: EmissionView,
) -> Result<EmissionView, WalkStopView> {
    let w = WalkView { effective: effective(local, upstreams), local, answers };
    if is_user_bin_compile {
        Ok(st)
    } else {
        match emit_functions(local.functions, facts, st, w) {
            Err(e) => Err(e),
            Ok(s1) => match emit_accessors(
                local.accessor_pairs,
                local.structs,
                facts,
                s1,
                w,
            ) {
                Err(e) => Err(e),
                Ok(s2) => emit_impls(local.trait_impls, facts, s2, w),
            },
        }
    }
}

/// Emits roots.
struct Roots<'a> {
    effective: &'a ToylangRegistry,
    local: &'a ToylangRegistry,
    answers: &'a RustAnswers,
    facts: &'a StubFacts,
}

impl<'a> Roots<'a> {
    spec fn walk(&self) -> WalkView {
        WalkView { effective: self.effective@, local: self.local@, answers: self.answers@ }
    }

    fn emit_root(&self, inst: ToylangInstance, name: &str, walked: bool, st: &mut Emission) -> (r:
        Result<(), WalkStop>)
        ensures
            match emit_root(inst@, name@, walked, old(st)@, self.walk()) {
                Ok(after) => r is Ok && final(st)@ == after,
                Err(e) => r is Err && r->Err_0@ == e,
            },
    {
        if st.walked_entry_points.contains(&inst.extern_symbol) {
            return Ok(());
        }
        let ghost before = st@;
        let ghost view = inst@;
        let f = inst.resolved_func.duplicate();
        st.walked_entry_points.insert(inst.extern_symbol.clone());
        st.toylang_instances.push(inst);
        assert(st@.instances =~= before.instances.push(view));
        if walked && f.body.is_some() {
            walk_and_stash_internal_callees(
                self.effective,
                self.local,
                self.answers,
                &f,
                name,
                st,
            )
        } else {
            Ok(())
        }
    }

    fn export_instance(&self, name: &String, f: &ToyFunction) -> (r: ToylangInstance)
        ensures
            r@ == export_instance(name@, f@, self.facts@),
    {
        let none: Vec<ResolvedType> = Vec::new();
        assert(resolved_views(none@) =~= Seq::empty());
        let internal = compute_internal_symbol_from_type_args(name, &none);
        match self.facts.functions.get(&stub_name_of(name)) {
            Some(s) => ToylangInstance {
                extern_symbol: s.symbol.clone(),
                internal_symbol: internal,
                resolved_func: f.duplicate(),
                stub_def_id: Some(s.id),
                instance_args: none,
            },
            None => ToylangInstance {
                extern_symbol: internal.clone(),
                internal_symbol: internal,
                resolved_func: f.duplicate(),
                stub_def_id: None,
                instance_args: none,
            },
        }
    }

    fn emit_functions(&self, fs: &NameMap<ToyFunction>, st: &mut Emission) -> (r: Result<
        (),
        WalkStop,
    >)
        ensures
            match emit_functions(fs@, self.facts@, old(st)@, self.walk()) {
                Ok(after) => r is Ok && final(st)@ == after,
                Err(e) => r is Err && r->Err_0@ == e,
            },
    {
        let ghost all = fs@;
        let ghost whole = emit_functions(
            all,
            self.facts@,
            st@,
            self.walk(),
        );
        let n = fs.len();
        let mut i: usize = 0;
        assert(all.skip(0) =~= all);
        while i < n
            invariant
                i <= n,
                n == all.len(),
                all == fs@,
                whole == emit_functions(
                    all,
                    self.facts@,
                    old(st)@,
                    self.walk(),
                ),
                whole == emit_functions(
                    all.skip(i as int),
                    self.facts@,
                    st@,
                    self.walk(),
                ),
            decreases n - i,
        {
            assert(all.skip(i as int).drop_first() =~= all.skip(i + 1));
            assert(all.skip(i as int)[0] == all[i as int]);
            let f = fs.value_at(i);
            if f.is_export && f.body.is_some() && !f.has_abstract_args() {
                let name = fs.key_at(i);
                let inst = self.export_instance(name, f);
                match self.emit_root(inst, name, true, st) {
                    Err(e) => {
                        return Err(e);
                    },
                    Ok(_) => {},
                }
            }
            i += 1;
        }
        assert(all.skip(i as int).len() == 0);
        Ok(())
    }

    fn accessor_instance(&self, struct_name: &String, field_name: &String) -> (r: Option<
        ToylangInstance,
    >)
        ensures
            (match r {
                Some(i) => Some(i@),
                None => None,
            }) == accessor_instance(
                (struct_name@, field_name@),
                self.local@.structs,
                self.facts@,
            ),
    {
        let def = match self.local.structs.get(struct_name) {
            None => {
                return None;
            },
            Some(d) => d,
        };
        let ghost all = def@.fields;
        let mut i: usize = 0;
        assert(all.skip(0) =~= all);
        while i < def.fields.len() && !same_text(&def.fields[i].name, field_name)
            invariant
                i <= def.fields@.len(),
                all == views(def.fields@),
                find_field(all, field_name@) == find_field(all.skip(i as int), field_name@),
            decreases def.fields@.len() - i,
        {
            assert(all.skip(i as int).drop_first() =~= all.skip(i + 1));
            assert(all.skip(i as int)[0] == def.fields@[i as int]@);
            i += 1;
        }
        if i >= def.fields.len() {
            assert(all.skip(i as int).len() == 0);
            return None;
        }
        assert(all.skip(i as int)[0] == def.fields@[i as int]@);
        if def.type_params.len() > 0 {
            return None;
        }
        let stub = match self.facts.accessor(struct_name, field_name) {
            None => {
                return None;
            },
            Some(s) => s,
        };
        let none: Vec<ResolvedType> = Vec::new();
        assert(resolved_views(none@) =~= Seq::empty());
        Some(
            ToylangInstance {
                extern_symbol: stub.symbol.clone(),
                internal_symbol: compute_accessor_symbol(struct_name, field_name),
                resolved_func: synthesize_accessor_fn(struct_name, def, &def.fields[i]),
                stub_def_id: Some(stub.id),
                instance_args: none,
            },
        )
    }

    fn emit_accessors(&self, st: &mut Emission) -> (r: Result<(), WalkStop>)
        ensures
            match emit_accessors(
                self.local@.accessor_pairs,
                self.local@.structs,
                self.facts@,
                old(st)@,
                self.walk(),
            ) {
                Ok(after) => r is Ok && final(st)@ == after,
                Err(e) => r is Err && r->Err_0@ == e,
            },
    {
        let ghost all = self.local@.accessor_pairs;
        let ghost whole = emit_accessors(
            all,
            self.local@.structs,
            self.facts@,
            st@,
            self.walk(),
        );
        let mut i: usize = 0;
        assert(all.skip(0) =~= all);
        while i < self.local.accessor_pairs.len()
            invariant
                i <= self.local.accessor_pairs@.len(),
                all == pair_views(self.local.accessor_pairs@),
                whole == emit_accessors(
                    all,
                    self.local@.structs,
                    self.facts@,
                    old(st)@,
                    self.walk(),
                ),
                whole == emit_accessors(
                    all.skip(i as int),
                    self.local@.structs,
                    self.facts@,
                    st@,
                    self.walk(),
                ),
            decreases self.local.accessor_pairs@.len() - i,
        {
            assert(all.skip(i as int).drop_first() =~= all.skip(i + 1));
            assert(all.skip(i as int)[0] == all[i as int]);
            let struct_name = &self.local.accessor_pairs[i].0;
            let field_name = &self.local.accessor_pairs[i].1;
            match self.accessor_instance(struct_name, field_name) {
                None => {},
                Some(inst) => match self.emit_root(inst, field_name, false, st) {
                    Err(e) => {
                        return Err(e);
                    },
                    Ok(_) => {},
                },
            }
            i += 1;
        }
        assert(all.skip(i as int).len() == 0);
        Ok(())
    }

    fn method_instance(&self, imp: &ToyImpl, m: &ToyImplMethod) -> (r: Option<ToylangInstance>)
        ensures
            (match r {
                Some(i) => Some(i@),
                None => None,
            }) == method_instance(imp@, m@, self.facts@),
    {
        if m.func.body.is_none() || m.func.has_abstract_args() {
            return None;
        }
        let stub = match self.facts.method(&imp.trait_name, &imp.self_type_name, &m.name) {
            None => {
                return None;
            },
            Some(s) => s,
        };
        let nothing: NameMap<ResolvedType> = NameMap::new();
        assert(nothing@ =~= Seq::empty());
        let none: Vec<ResolvedType> = Vec::new();
        assert(resolved_views(none@) =~= Seq::empty());
        Some(
            ToylangInstance {
                extern_symbol: stub.symbol.clone(),
                internal_symbol: compute_method_symbol(
                    &imp.self_type_name,
                    &imp.trait_name,
                    &m.name,
                    &none,
                ),
                resolved_func: resolve_caller_from_type_args(&m.func, &nothing),
                stub_def_id: Some(stub.id),
                instance_args: none,
            },
        )
    }

    fn emit_methods(&self, imp: &ToyImpl, st: &mut Emission) -> (r: Result<(), WalkStop>)
        ensures
            match emit_methods(
                imp@,
                imp@.methods,
                self.facts@,
                old(st)@,
                self.walk(),
            ) {
                Ok(after) => r is Ok && final(st)@ == after,
                Err(e) => r is Err && r->Err_0@ == e,
            },
    {
        let ghost all = imp@.methods;
        let ghost whole = emit_methods(
            imp@,
            all,
            self.facts@,
            st@,
            self.walk(),
        );
        let mut i: usize = 0;
        assert(all.skip(0) =~= all);
        while i < imp.methods.len()
            invariant
                i <= imp.methods@.len(),
                all == views(imp.methods@),
                whole == emit_methods(
                    imp@,
                    all,
                    self.facts@,
                    old(st)@,
                    self.walk(),
                ),
                whole == emit_methods(
                    imp@,
                    all.skip(i as int),
                    self.facts@,
                    st@,
                    self.walk(),
                ),
            decreases imp.methods@.len() - i,
        {
            assert(all.skip(i as int).drop_first() =~= all.skip(i + 1));
            assert(all.skip(i as int)[0] == imp.methods@[i as int]@);
            match self.method_instance(imp, &imp.methods[i]) {
                None => {},
                Some(inst) => match self.emit_root(inst, &imp.methods[i].name, true, st) {
                    Err(e) => {
                        return Err(e);
                    },
                    Ok(_) => {},
                },
            }
            i += 1;
        }
        assert(all.skip(i as int).len() == 0);
        Ok(())
    }

    fn emit_impls(&self, st: &mut Emission) -> (r: Result<(), WalkStop>)
        ensures
            match emit_impls(
                self.local@.trait_impls,
                self.facts@,
                old(st)@,
                self.walk(),
            ) {
                Ok(after) => r is Ok && final(st)@ == after,
                Err(e) => r is Err && r->Err_0@ == e,
            },
    {
        let ghost all = self.local@.trait_impls;
        let ghost whole = emit_impls(all, self.facts@, st@, self.walk());
        let mut i: usize = 0;
        assert(all.skip(0) =~= all);
        while i < self.local.trait_impls.len()
            invariant
                i <= self.local.trait_impls@.len(),
                all == views(self.local.trait_impls@),
                whole == emit_impls(
                    all,
                    self.facts@,
                    old(st)@,
                    self.walk(),
                ),
                whole == emit_impls(
                    all.skip(i as int),
                    self.facts@,
                    st@,
                    self.walk(),
                ),
            decreases self.local.trait_impls@.len() - i,
        {
            assert(all.skip(i as int).drop_first() =~= all.skip(i + 1));
            assert(all.skip(i as int)[0] == self.local.trait_impls@[i as int]@);
            match self.emit_methods(&self.local.trait_impls[i], st) {
                Err(e) => {
                    return Err(e);
                },
                Ok(_) => {},
            }
            i += 1;
        }
        assert(all.skip(i as int).len() == 0);
        Ok(())
    }
}

/// Emits the roots of a crate, and what they call.
pub fn populate_toylang_instances(
    local: &ToylangRegistry,
    upstreams: &NameMap<ToylangRegistry>,
    answers: &RustAnswers,
    facts: &StubFacts,
    is_user_bin_compile: bool,
    st: &mut Emission,
) -> (r: Result<(), WalkStop>)
    ensures
        match populated(
            local@,
            upstreams@,
            answers@,
            facts@,
            is_user_bin_compile,
            old(st)@,
        ) {
            Ok(after) => r is Ok && final(st)@ == after,
            Err(e) => r is Err && r->Err_0@ == e,
        },
{
    if is_user_bin_compile {
        return Ok(());
    }
    let merged = effective_registry(local, upstreams);
    let roots = Roots { effective: &merged, local, answers, facts };
    match roots.emit_functions(&local.functions, st) {
        Err(e) => {
            return Err(e);
        },
        Ok(_) => {},
    }
    match roots.emit_accessors(st) {
        Err(e) => {
            return Err(e);
        },
        Ok(_) => {},
    }
    roots.emit_impls(st)
}

/// The first impl of a trait for a type.
pub open spec fn find_impl(
    imps: Seq<ToyImplView>,
    self_type: Seq<char>,
    trait_name: Seq<char>,
) -> Option<ToyImplView>
    decreases imps.len(),
{
    if imps.len() == 0 {
        None
    } else if imps[0].self_type_name == self_type && imps[0].trait_name == trait_name {
        Some(imps[0])
    } else {
        find_impl(imps.drop_first(), self_type, trait_name)
    }
}

/// The first impl of a trait for a type in the crates that one depends on.
pub open spec fn find_impl_upstream(
    upstreams: Seq<(Seq<char>, RegistryView)>,
    self_type: Seq<char>,
    trait_name: Seq<char>,
) -> Option<ToyImplView>
    decreases upstreams.len(),
{
    if upstreams.len() == 0 {
        None
    } else {
        match find_impl(upstreams[0].1.trait_impls, self_type, trait_name) {
            Some(imp) => Some(imp),
            None => find_impl_upstream(upstreams.drop_first(), self_type, trait_name),
        }
    }
}

/// The first method of that name.
pub open spec fn find_impl_method(ms: Seq<ToyImplMethodView>, name: Seq<char>) -> Option<
    ToyImplMethodView,
>
    decreases ms.len(),
{
    if ms.len() == 0 {
        None
    } else if ms[0].name == name {
        Some(ms[0])
    } else {
        find_impl_method(ms.drop_first(), name)
    }
}

/// How an instance that was seen in use is emitted, if it is: the crate or
/// one that it depends on has the impl, the impl has the method, and there is
/// a stub.
pub open spec fn discovered_instance(
    d: DiscoveredView,
    stub: Option<StubSymbolView>,
    local: RegistryView,
    upstreams: Seq<(Seq<char>, RegistryView)>,
) -> Option<InstanceView> {
    let imp = match find_impl(local.trait_impls, d.self_type_name, d.trait_name) {
        Some(imp) => Some(imp),
        None => find_impl_upstream(upstreams, d.self_type_name, d.trait_name),
    };
    match imp {
        None => None,
        Some(imp) => match find_impl_method(imp.methods, d.method_name) {
            None => None,
            Some(m) => match stub {
                None => None,
                Some(s) => Some(
                    InstanceView {
                        extern_symbol: s.symbol,
                        internal_symbol: method_symbol(
                            d.self_type_name,
                            d.trait_name,
                            d.method_name,
                            d.concrete_args,
                        ),
                        resolved_func: instantiated_fn(m.func, d.concrete_args),
                        stub_def_id: Some(s.id),
                        instance_args: d.concrete_args,
                    },
                ),
            },
        },
    }
}

/// What becomes of an emission by instances that were seen in use.
pub open spec fn drained(
    ds: Seq<DiscoveredView>,
    stubs: Seq<Option<StubSymbolView>>,
    local: RegistryView,
    upstreams: Seq<(Seq<char>, RegistryView)>,
    st: EmissionView,
    w: WalkView,
) -> Result<EmissionView, WalkStopView>
    decreases ds.len(),
{
    if ds.len() == 0 {
        Ok(st)
    } else {
        let first = match discovered_instance(ds[0], stubs[0], local, upstreams) {
            None => Ok(st),
            Some(inst) => emit_root(inst, ds[0].method_name, true, st, w),
        };
        match first {
            Err(e) => Err(e),
            Ok(next) => drained(
                ds.drop_first(),
                stubs.drop_first(),
                local,
                upstreams,
                next,
                w,
            ),
        }
    }
}

fn find_impl_in<'a>(imps: &'a Vec<ToyImpl>, self_type: &str, trait_name: &str) -> (r: Option<
    &'a ToyImpl,
>)
    ensures
        (match r {
            Some(i) => Some(i@),
            None => None,
        }) == find_impl(views(imps@), self_type@, trait_name@),
{
    let ghost all = views(imps@);
    let mut i: usize = 0;
    assert(all.skip(0) =~= all);
    while i < imps.len()
        invariant
            i <= imps@.len(),
            all == views(imps@),
            find_impl(all, self_type@, trait_name@) == find_impl(
                all.skip(i as int),
                self_type@,
                trait_name@,
            ),
        decreases imps@.len() - i,
    {
        assert(all.skip(i as int).drop_first() =~= all.skip(i + 1));
        assert(all.skip(i as int)[0] == imps@[i as int]@);
        if same_text(&imps[i].self_type_name, self_type) && same_text(
            &imps[i].trait_name,
            trait_name,
        ) {
            return Some(&imps[i]);
        }
        i += 1;
    }
    None
}

fn find_impl_in_upstreams<'a>(
    upstreams: &'a NameMap<ToylangRegistry>,
    self_type: &str,
    trait_name: &str,
) -> (r: Option<&'a ToyImpl>)
    ensures
        (match r {
            Some(i) => Some(i@),
            None => None,
        }) == find_impl_upstream(upstreams@, self_type@, trait_name@),
{
    let ghost all = upstreams@;
    let n = upstreams.len();
    let mut i: usize = 0;
    assert(all.skip(0) =~= all);
    while i < n
        invariant
            i <= n,
            n == all.len(),
            all == upstreams@,
            find_impl_upstream(all, self_type@, trait_name@) == find_impl_upstream(
                all.skip(i as int),
                self_type@,
                trait_name@,
            ),
        decreases n - i,
    {
        assert(all.skip(i as int).drop_first() =~= all.skip(i + 1));
        assert(all.skip(i as int)[0] == all[i as int]);
        match find_impl_in(&upstreams.value_at(i).trait_impls, self_type, trait_name) {
            Some(imp) => {
                return Some(imp);
            },
            None => {},
        }
        i += 1;
    }
    assert(all.skip(i as int).len() == 0);
    None
}

fn find_method_in<'a>(ms: &'a Vec<ToyImplMethod>, name: &str) -> (r: Option<&'a ToyImplMethod>)
    ensures
        (match r {
            Some(m) => Some(m@),
            None => None,
        }) == find_impl_method(views(ms@), name@),
{
    let ghost all = views(ms@);
    let mut i: usize = 0;
    assert(all.skip(0) =~= all);
    while i < ms.len()
        invariant
            i <= ms@.len(),
            all == views(ms@),
            find_impl_method(all, name@) == find_impl_method(all.skip(i as int), name@),
        decreases ms@.len() - i,
    {
        assert(all.skip(i as int).drop_first() =~= all.skip(i + 1));
        assert(all.skip(i as int)[0] == ms@[i as int]@);
        if same_text(&ms[i].name, name) {
            return Some(&ms[i]);
        }
        i += 1;
    }
    None
}

fn instance_of_discovery(
    d: &DiscoveredTraitImplInstance,
    stub: &Option<StubSymbol>,
    local: &ToylangRegistry,
    upstreams: &NameMap<ToylangRegistry>,
) -> (r: Option<ToylangInstance>)
    ensures
        (match r {
            Some(i) => Some(i@),
            None => None,
        }) == discovered_instance(
            d@,
            crate::wire::opt_view(*stub),
            local@,
            upstreams@,
        ),
{
    let found = match find_impl_in(&local.trait_impls, &d.self_type_name, &d.trait_name) {
        Some(imp) => Some(imp),
        None => find_impl_in_upstreams(upstreams, &d.self_type_name, &d.trait_name),
    };
    let imp = match found {
        None => {
            return None;
        },
        Some(imp) => imp,
    };
    let m = match find_method_in(&imp.methods, &d.method_name) {
        None => {
            return None;
        },
        Some(m) => m,
    };
    match stub {
        None => None,
        Some(s) => Some(
            ToylangInstance {
                extern_symbol: s.symbol.clone(),
                internal_symbol: compute_method_symbol(
                    &d.self_type_name,
                    &d.trait_name,
                    &d.method_name,
                    &d.concrete_args,
                ),
                resolved_func: resolve_toylang_callee(&m.func, &d.concrete_args),
                stub_def_id: Some(s.id),
                instance_args: clone_resolved_types(&d.concrete_args),
            },
        ),
    }
}

/// The views of stubs that may be missing.
pub open spec fn stub_views(s: Seq<Option<StubSymbol>>) -> Seq<Option<StubSymbolView>> {
    Seq::new(s.len(), |i: int| crate::wire::opt_view(s[i]))
}

/// Emits the instances that were seen in use, and what they call. The stub of
/// the instance at some position stands at that position.
pub fn drain_discoveries(
    ds: &Vec<DiscoveredTraitImplInstance>,
    stubs: &Vec<Option<StubSymbol>>,
    local: &ToylangRegistry,
    upstreams: &NameMap<ToylangRegistry>,
    answers: &RustAnswers,
    st: &mut Emission,
) -> (r: Result<(), WalkStop>)
    requires
        stubs@.len() == ds@.len(),
    ensures
        match drained(
            views(ds@),
            stub_views(stubs@),
            local@,
            upstreams@,
            old(st)@,
            (WalkView { effective: effective(local@, upstreams@), local: local@, answers: answers@ }),
        ) {
            Ok(after) => r is Ok && final(st)@ == after,
            Err(e) => r is Err && r->Err_0@ == e,
        },
{
    let merged = effective_registry(local, upstreams);
    let facts = StubFacts {
        functions: NameMap::new(),
        accessors: Vec::new(),
        methods: Vec::new(),
    };
    let roots = Roots { effective: &merged, local, answers, facts: &facts };
    let ghost all = views(ds@);
    let ghost marks = stub_views(stubs@);
    let ghost w = roots.walk();
    let ghost whole = drained(all, marks, local@, upstreams@, st@, w);
    let mut i: usize = 0;
    assert(all.skip(0) =~= all);
    assert(marks.skip(0) =~= marks);
    while i < ds.len()
        invariant
            i <= ds@.len() == stubs@.len(),
            all == views(ds@),
            marks == stub_views(stubs@),
            w == roots.walk(),
            w == (WalkView {
                effective: effective(local@, upstreams@),
                local: local@,
                answers: answers@,
            }),
            whole == drained(all, marks, local@, upstreams@, old(st)@, w),
            whole == drained(
                all.skip(i as int),
                marks.skip(i as int),
                local@,
                upstreams@,
                st@,
                w,
            ),
        decreases ds@.len() - i,
    {
        assert(all.skip(i as int).drop_first() =~= all.skip(i + 1));
        assert(marks.skip(i as int).drop_first() =~= marks.skip(i + 1));
        assert(all.skip(i as int)[0] == ds@[i as int]@);
        assert(marks.skip(i as int)[0] == crate::wire::opt_view(stubs@[i as int]));
        match instance_of_discovery(&ds[i], &stubs[i], local, upstreams) {
            None => {},
            Some(inst) => match roots.emit_root(inst, &ds[i].method_name, true, st) {
                Err(e) => {
                    return Err(e);
                },
                Ok(_) => {},
            },
        }
        i += 1;
    }
    assert(all.skip(i as int).len() == 0);
    Ok(())
}

/// Whether the visited symbols are those of the emitted functions, each once.
pub open spec fn emitted_once(st: EmissionView) -> bool {
    &&& st.walked.len() == st.instances.len()
    &&& forall|i: int|
        0 <= i < st.instances.len() ==> (#[trigger] st.instances[i]).extern_symbol == st.walked[i]
    &&& st.walked.no_duplicates()
}

proof fn lemma_push_once(st: EmissionView, inst: InstanceView)
    requires
        emitted_once(st),
        !st.walked.contains(inst.extern_symbol),
    ensures
        emitted_once(
            EmissionView {
                instances: st.instances.push(inst),
                walked: st.walked.push(inst.extern_symbol),
            },
        ),
{
    let next = EmissionView {
        instances: st.instances.push(inst),
        walked: st.walked.push(inst.extern_symbol),
    };
    assert forall|i: int, j: int|
        0 <= i < next.walked.len() && 0 <= j < next.walked.len() && i != j implies next.walked[i]
        != next.walked[j] by {
        if i < st.walked.len() && j < st.walked.len() {
            assert(st.walked[i] != st.walked[j]);
        } else if i < st.walked.len() {
            assert(st.walked.contains(st.walked[i]));
        } else {
            assert(st.walked.contains(st.walked[j]));
        }
    }
    assert forall|i: int| 0 <= i < next.instances.len() implies (
    #[trigger] next.instances[i]).extern_symbol == next.walked[i] by {
        if i < st.instances.len() {
            assert(st.instances[i].extern_symbol == st.walked[i]);
        }
    }
}

proof fn lemma_stash_fn_once(
    f: ToyFunctionView,
    name: Seq<char>,
    st: EmissionView,
    w: WalkView,
    depth: nat,
)
    requires
        emitted_once(st),
    ensures
        stash_fn(f, name, st, w, depth) matches Ok(after) ==> emitted_once(after),
    decreases depth, 1int, 0nat,
{
    if let Ok(body) = crate::toylang::type_resolve::type_fn_body(
        f,
        f.body->0,
        crate::toylang::callbacks_impl::typing(w),
    ) {
        lemma_stash_calls_once(crate::toylang::deps::calls_in_block(body), st, w, depth);
    }
}

proof fn lemma_stash_calls_once(
    calls: Seq<crate::toylang::deps::FnCallView>,
    st: EmissionView,
    w: WalkView,
    depth: nat,
)
    requires
        emitted_once(st),
    ensures
        crate::toylang::callbacks_impl::stash_calls(calls, st, w, depth) matches Ok(after)
            ==> emitted_once(after),
    decreases depth, 0int, calls.len(),
{
    if calls.len() > 0 {
        let call = calls[0];
        let symbol = internal_symbol(call.name, call.type_args);
        if crate::toylang::callbacks_impl::is_foreign(call, w) || st.walked.contains(symbol) {
            lemma_stash_calls_once(calls.drop_first(), st, w, depth);
        } else if depth > 0 {
            let callee = instantiated_fn(
                find(w.effective.functions, call.name)->0,
                call.type_args,
            );
            let inst = InstanceView {
                extern_symbol: symbol,
                internal_symbol: symbol,
                resolved_func: callee,
                stub_def_id: None,
                instance_args: call.type_args,
            };
            let next = EmissionView {
                instances: st.instances.push(inst),
                walked: st.walked.push(symbol),
            };
            lemma_push_once(st, inst);
            lemma_stash_fn_once(callee, call.name, next, w, (depth - 1) as nat);
            if let Ok(after) = stash_fn(callee, call.name, next, w, (depth - 1) as nat) {
                lemma_stash_calls_once(calls.drop_first(), after, w, depth);
            }
        }
    }
}

proof fn lemma_emit_root_once(
    inst: InstanceView,
    name: Seq<char>,
    walked: bool,
    st: EmissionView,
    w: WalkView,
)
    requires
        emitted_once(st),
    ensures
        emit_root(inst, name, walked, st, w) matches Ok(after) ==> emitted_once(after),
{
    if !st.walked.contains(inst.extern_symbol) {
        lemma_push_once(st, inst);
        let next = EmissionView {
            instances: st.instances.push(inst),
            walked: st.walked.push(inst.extern_symbol),
        };
        lemma_stash_fn_once(inst.resolved_func, name, next, w, no_bound());
    }
}

proof fn lemma_emit_functions_once(
    fs: Seq<(Seq<char>, ToyFunctionView)>,
    facts: StubFactsView,
    st: EmissionView,
    w: WalkView,
)
    requires
        emitted_once(st),
    ensures
        emit_functions(fs, facts, st, w) matches Ok(after) ==> emitted_once(after),
    decreases fs.len(),
{
    if fs.len() > 0 {
        let inst = export_instance(fs[0].0, fs[0].1, facts);
        lemma_emit_root_once(inst, fs[0].0, true, st, w);
        if is_root(fs[0].1) {
            if let Ok(next) = emit_root(inst, fs[0].0, true, st, w) {
                lemma_emit_functions_once(fs.drop_first(), facts, next, w);
            }
        } else {
            lemma_emit_functions_once(fs.drop_first(), facts, st, w);
        }
    }
}

proof fn lemma_emit_accessors_once(
    pairs: Seq<(Seq<char>, Seq<char>)>,
    structs: Seq<(Seq<char>, ToyStructView)>,
    facts: StubFactsView,
    st: EmissionView,
    w: WalkView,
)
    requires
        emitted_once(st),
    ensures
        emit_accessors(pairs, structs, facts, st, w) matches Ok(after) ==> emitted_once(
            after,
        ),
    decreases pairs.len(),
{
    if pairs.len() > 0 {
        match accessor_instance(pairs[0], structs, facts) {
            None => {
                lemma_emit_accessors_once(pairs.drop_first(), structs, facts, st, w);
            },
            Some(inst) => {
                lemma_emit_root_once(inst, pairs[0].1, false, st, w);
                if let Ok(next) = emit_root(inst, pairs[0].1, false, st, w) {
                    lemma_emit_accessors_once(pairs.drop_first(), structs, facts, next, w);
                }
            },
        }
    }
}

proof fn lemma_emit_methods_once(
    imp: ToyImplView,
    ms: Seq<ToyImplMethodView>,
    facts: StubFactsView,
    st: EmissionView,
    w: WalkView,
)
    requires
        emitted_once(st),
    ensures
        emit_methods(imp, ms, facts, st, w) matches Ok(after) ==> emitted_once(after),
    decreases ms.len(),
{
    if ms.len() > 0 {
        match method_instance(imp, ms[0], facts) {
            None => {
                lemma_emit_methods_once(imp, ms.drop_first(), facts, st, w);
            },
            Some(inst) => {
                lemma_emit_root_once(inst, ms[0].name, true, st, w);
                if let Ok(next) = emit_root(inst, ms[0].name, true, st, w) {
                    lemma_emit_methods_once(imp, ms.drop_first(), facts, next, w);
                }
            },
        }
    }
}

proof fn lemma_emit_impls_once(
    imps: Seq<ToyImplView>,
    facts: StubFactsView,
    st: EmissionView,
    w: WalkView,
)
    requires
        emitted_once(st),
    ensures
        emit_impls(imps, facts, st, w) matches Ok(after) ==> emitted_once(after),
    decreases imps.len(),
{
    if imps.len() > 0 {
        lemma_emit_methods_once(imps[0], imps[0].methods, facts, st, w);
        if let Ok(next) = emit_methods(imps[0], imps[0].methods, facts, st, w) {
            lemma_emit_impls_once(imps.drop_first(), facts, next, w);
        }
    }
}

/// However many roots lead to a function, it is emitted once.
pub proof fn lemma_populate_emits_once(
    local: RegistryView,
    upstreams: Seq<(Seq<char>, RegistryView)>,
    answers: RustAnswersView,
    facts: StubFactsView,
    is_user_bin_compile: bool,
    st: EmissionView,
)
    requires
        emitted_once(st),
    ensures
        populated(local, upstreams, answers, facts, is_user_bin_compile, st) matches Ok(after)
            ==> emitted_once(after),
{
    let w = WalkView { effective: effective(local, upstreams), local, answers };
    lemma_emit_functions_once(local.functions, facts, st, w);
    if let Ok(s1) = emit_functions(local.functions, facts, st, w) {
        lemma_emit_accessors_once(local.accessor_pairs, local.structs, facts, s1, w);
        if let Ok(s2) = emit_accessors(local.accessor_pairs, local.structs, facts, s1, w) {
            lemma_emit_impls_once(local.trait_impls, facts, s2, w);
        }
    }
}

/// However often an instance was seen in use, it is emitted once.
pub proof fn lemma_drain_emits_once(
    ds: Seq<DiscoveredView>,
    stubs: Seq<Option<StubSymbolView>>,
    local: RegistryView,
    upstreams: Seq<(Seq<char>, RegistryView)>,
    st: EmissionView,
    w: WalkView,
)
    requires
        emitted_once(st),
    ensures
        drained(ds, stubs, local, upstreams, st, w) matches Ok(after) ==> emitted_once(
            after,
        ),
    decreases ds.len(),
{
    if ds.len() > 0 {
        match discovered_instance(ds[0], stubs[0], local, upstreams) {
            None => {
                lemma_drain_emits_once(
                    ds.drop_first(),
                    stubs.drop_first(),
                    local,
                    upstreams,
                    st,
                    w,
                );
            },
            Some(inst) => {
                lemma_emit_root_once(inst, ds[0].method_name, true, st, w);
                if let Ok(next) = emit_root(inst, ds[0].method_name, true, st, w) {
                    lemma_drain_emits_once(
                        ds.drop_first(),
                        stubs.drop_first(),
                        local,
                        upstreams,
                        next,
                        w,
                    );
                }
            },
        }
    }
}

} // verus!
