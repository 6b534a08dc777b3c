//! Which functions a compilation emits, under which symbols, and what they
//! need from the Rust side.
use crate::names::{bind_all, find, put, NameMap};
use crate::oracle::{bind_params, mangled, referent, resolved_type_to_mangled_name, strip_ref, wrapper_fn_name, wrapper_name};
use crate::text::{owned, same_text, views, Duplicate};
use crate::toylang::answers::{ask_has_wrapper, ask_trait, RustAnswers, RustAnswersView};
use crate::toylang::deps::{
    calls_in_block, rust_deps_in_block, walk_typed_body_for_deps, FnCall, FnCallView, RustMethodDep, RustMethodDepView,
};
use crate::toylang::registry::{RegistryView, ToyFunction, ToyFunctionView, ToyParam, ToyParamView, ToylangRegistry};
use crate::toylang::substitute::{
    substitute_block, substitute_source, substitute_source_type, substitute_type_params_in_body,
};
use crate::toylang::type_resolve::{resolve_fn_body, type_fn_body, TypeResolveError, TypeResolveErrorView, Typing};
use crate::toylang::typed_ast::{clone_resolved_types, resolved_views, ResolvedType, ResolvedTypeView};
use vstd::prelude::*;
use vstd::string::*;

verus! {

broadcast use {vstd::seq::group_seq_axioms, vstd::std_specs::vec::group_vec_axioms};

/// A symbol with the parts that stand for some type arguments.
pub open spec fn with_args(base: Seq<char>, type_args: Seq<ResolvedTypeView>) -> Seq<char>
    decreases type_args.len(),
{
    if type_args.len() == 0 {
        base
    } else {
        with_args(base, type_args.drop_last()) + "__"@ + mangled(type_args.last())
    }
}

/// The symbol of a toylang function that only toylang calls.
pub open spec fn internal_symbol(name: Seq<char>, type_args: Seq<ResolvedTypeView>) -> Seq<char> {
    with_args("__toylang_internal_"@ + name, type_args)
}

/// The symbol of the accessor of a field.
pub open spec fn accessor_symbol(struct_name: Seq<char>, field: Seq<char>) -> Seq<char> {
    "__toylang_internal__accessor__"@ + struct_name + "__"@ + field
}

/// The symbol of a method of a trait impl.
pub open spec fn method_symbol(
    self_type: Seq<char>,
    trait_name: Seq<char>,
    method: Seq<char>,
    type_args: Seq<ResolvedTypeView>,
) -> Seq<char> {
    with_args("__toylang_internal__"@ + self_type + "__"@ + trait_name + "__"@ + method, type_args)
}

fn append_args(base: String, type_args: &Vec<ResolvedType>) -> (r: String)
    ensures
        r@ == with_args(base@, resolved_views(type_args@)),
{
    let ghost all = resolved_views(type_args@);
    let ghost start = base@;
    let mut s = base;
    let mut i: usize = 0;
    assert(all.take(0) =~= Seq::empty());
    while i < type_args.len()
        invariant
            i <= type_args@.len(),
            all == resolved_views(type_args@),
            s@ == with_args(start, all.take(i as int)),
        decreases type_args@.len() - i,
    {
        assert(all.take(i + 1).drop_last() =~= all.take(i as int));
        assert(all.take(i + 1).last() == type_args@[i as int].model());
        let part = resolved_type_to_mangled_name(&type_args[i]);
        s.append("__");
        s.append(&part);
        i += 1;
    }
    assert(all.take(type_args@.len() as int) =~= all);
    s
}

/// The symbol of a toylang function that only toylang calls.
pub fn compute_internal_symbol_from_type_args(name: &str, type_args: &Vec<ResolvedType>) -> (r: String)
    ensures
        r@ == internal_symbol(name@, resolved_views(type_args@)),
{
    let mut s = owned("__toylang_internal_");
    s.append(name);
    append_args(s, type_args)
}

/// The symbol of the accessor of a field.
pub fn compute_accessor_symbol(struct_name: &str, field: &str) -> (r: String)
    ensures
        r@ == accessor_symbol(struct_name@, field@),
{
    let mut s = owned("__toylang_internal__accessor__");
    s.append(struct_name);
    s.append("__");
    s.append(field);
    s
}

/// The symbol of a method of a trait impl.
pub fn compute_method_symbol(
    self_type: &str,
    trait_name: &str,
    method: &str,
    type_args: &Vec<ResolvedType>,
) -> (r: String)
    ensures
        r@ == method_symbol(self_type@, trait_name@, method@, resolved_views(type_args@)),
{
    let mut s = owned("__toylang_internal__");
    s.append(self_type);
    s.append("__");
    s.append(trait_name);
    s.append("__");
    s.append(method);
    append_args(s, type_args)
}

/// The name under which the stubs hold a function.
pub open spec fn stub_name(name: Seq<char>) -> Seq<char> {
    if name == "main"@ {
        "__toylang_main"@
    } else {
        name
    }
}

/// The name under which the stubs hold a function.
pub fn stub_name_of(name: &str) -> (r: String)
    ensures
        r@ == stub_name(name@),
{
    if same_text(name, "main") {
        owned("__toylang_main")
    } else {
        owned(name)
    }
}

/// A set of names.
#[derive(Debug, PartialEq)]
pub struct NameSet {
    names: Vec<String>,
}

impl View for NameSet {
    type V = Seq<Seq<char>>;

    closed spec fn view(&self) -> Seq<Seq<char>> {
        views(self.names@)
    }
}

impl NameSet {
    /// The empty set.
    pub fn new() -> (r: Self)
        ensures
            r@ == Seq::<Seq<char>>::empty(),
    {
        let r = NameSet { names: Vec::new() };
        assert(r@ =~= Seq::empty());
        r
    }

    /// Whether a name is in the set.
    pub fn contains(&self, name: &str) -> (r: bool)
        ensures
            r == self@.contains(name@),
    {
        let mut i: usize = 0;
        while i < self.names.len()
            invariant
                i <= self.names@.len(),
                forall|j: int| 0 <= j < i ==> (#[trigger] self@[j]) != name@,
            decreases self.names@.len() - i,
        {
            if same_text(&self.names[i], name) {
                assert(self@[i as int] == name@);
                return true;
            }
            assert(self@[i as int] != name@);
            i += 1;
        }
        false
    }

    /// Adds a name, and says whether it is new.
    pub fn insert(&mut self, name: String) -> (r: bool)
        ensures
            r == !old(self)@.contains(name@),
            final(self)@ == (if old(self)@.contains(name@) {
                old(self)@
            } else {
                old(self)@.push(name@)
            }),
    {
        if self.contains(&name) {
            false
        } else {
            let ghost before = self@;
            let ghost view = name@;
            self.names.push(name);
            assert(self@ =~= before.push(view));
            true
        }
    }
}

/// `entries` with those of `more` whose names it lacks.
pub open spec fn add_missing<W>(
    entries: Seq<(Seq<char>, W)>,
    more: Seq<(Seq<char>, W)>,
) -> Seq<(Seq<char>, W)>
    decreases more.len(),
{
    if more.len() == 0 {
        entries
    } else {
        let before = add_missing(entries, more.drop_last());
        if find(before, more.last().0) is Some {
            before
        } else {
            put(before, more.last().0, more.last().1)
        }
    }
}

fn add_missing_to<V: Duplicate>(m: &mut NameMap<V>, more: &NameMap<V>)
    ensures
        final(m)@ == add_missing(old(m)@, more@),
{
    let ghost before = m@;
    let ghost all = more@;
    let n = more.len();
    let mut i: usize = 0;
    assert(all.take(0) =~= Seq::empty());
    while i < n
        invariant
            i <= n,
            n == all.len(),
            all == more@,
            m@ == add_missing(before, all.take(i as int)),
        decreases n - i,
    {
        assert(all.take(i + 1).drop_last() =~= all.take(i as int));
        assert(all.take(i + 1).last() == all[i as int]);
        if !m.contains_key(more.key_at(i)) {
            m.insert(more.key_at(i).clone(), more.value_at(i).duplicate());
        }
        i += 1;
    }
    assert(all.take(n as int) =~= all);
}

/// The definitions that a body may mention: those of the crate itself, and
/// those of the crates that it depends on. Of several with one name the
/// crate's own counts, then that of the first dependency.
pub open spec fn effective(
    local: RegistryView,
    upstreams: Seq<(Seq<char>, RegistryView)>,
) -> RegistryView
    decreases upstreams.len(),
{
    if upstreams.len() == 0 {
        local
    } else {
        let before = effective(local, upstreams.drop_last());
        let last = upstreams.last().1;
        RegistryView {
            functions: add_missing(before.functions, last.functions),
            structs: add_missing(before.structs, last.structs),
            ..before
        }
    }
}

/// The definitions that a body may mention.
pub fn effective_registry(local: &ToylangRegistry, upstreams: &NameMap<ToylangRegistry>) -> (r:
    ToylangRegistry)
    ensures
        r@ == effective(local@, upstreams@),
{
    let ghost all = upstreams@;
    let mut r = local.duplicate();
    let n = upstreams.len();
    let mut i: usize = 0;
    assert(all.take(0) =~= Seq::empty());
    while i < n
        invariant
            i <= n,
            n == all.len(),
            all == upstreams@,
            r@ == effective(local@, all.take(i as int)),
        decreases n - i,
    {
        assert(all.take(i + 1).drop_last() =~= all.take(i as int));
        assert(all.take(i + 1).last() == all[i as int]);
        let upstream = upstreams.value_at(i);
        add_missing_to(&mut r.functions, &upstream.functions);
        add_missing_to(&mut r.structs, &upstream.structs);
        i += 1;
    }
    assert(all.take(n as int) =~= all);
    r
}

proof fn lemma_add_missing_keeps<W>(
    entries: Seq<(Seq<char>, W)>,
    more: Seq<(Seq<char>, W)>,
    name: Seq<char>,
)
    ensures
        find(entries, name) is Some ==> find(add_missing(entries, more), name) == find(
            entries,
            name,
        ),
        find(add_missing(entries, more), name) is None ==> find(entries, name) is None,
    decreases more.len(),
{
    if more.len() > 0 {
        lemma_add_missing_keeps(entries, more.drop_last(), name);
        let before = add_missing(entries, more.drop_last());
        crate::names::lemma_find_put(before, more.last().0, more.last().1, name);
    }
}

/// The crate's own definitions are found as they are, whatever the crates
/// that it depends on define.
pub proof fn lemma_local_wins(
    local: RegistryView,
    upstreams: Seq<(Seq<char>, RegistryView)>,
    name: Seq<char>,
)
    ensures
        find(local.functions, name) is Some ==> find(effective(local, upstreams).functions, name)
            == find(local.functions, name),
        find(local.structs, name) is Some ==> find(effective(local, upstreams).structs, name)
            == find(local.structs, name),
    decreases upstreams.len(),
{
    if upstreams.len() > 0 {
        let rest = upstreams.drop_last();
        lemma_local_wins(local, rest, name);
        let before = effective(local, rest);
        lemma_add_missing_keeps(before.functions, upstreams.last().1.functions, name);
        lemma_add_missing_keeps(before.structs, upstreams.last().1.structs, name);
    }
}

/// Parameters with type parameters replaced.
pub open spec fn substitute_params(
    params: Seq<ToyParamView>,
    subst: Seq<(Seq<char>, ResolvedTypeView)>,
) -> Seq<ToyParamView> {
    Seq::new(
        params.len(),
        |i: int|
            ToyParamView { name: params[i].name, ty: substitute_source(params[i].ty, subst) },
    )
}

/// A function with its type parameters replaced throughout.
pub open spec fn substituted_fn(
    f: ToyFunctionView,
    subst: Seq<(Seq<char>, ResolvedTypeView)>,
) -> ToyFunctionView {
    ToyFunctionView {
        type_params: Seq::empty(),
        params: substitute_params(f.params, subst),
        return_ty: match f.return_ty {
            Some(t) => Some(substitute_source(t, subst)),
            None => None,
        },
        body: match f.body {
            Some(b) => Some(substitute_block(b, subst)),
            None => None,
        },
        is_export: f.is_export,
    }
}

/// A function as a call with some type arguments means it.
pub open spec fn instantiated_fn(
    f: ToyFunctionView,
    type_args: Seq<ResolvedTypeView>,
) -> ToyFunctionView {
    substituted_fn(f, bind_all(f.type_params, type_args))
}

/// A function with its type parameters replaced throughout.
pub fn resolve_caller_from_type_args(f: &ToyFunction, subst: &NameMap<ResolvedType>) -> (r:
    ToyFunction)
    ensures
        r@ == substituted_fn(f@, subst@),
{
    let mut params: Vec<ToyParam> = Vec::new();
    let mut i: usize = 0;
    while i < f.params.len()
        invariant
            i == params@.len(),
            i <= f.params@.len(),
            forall|j: int|
                0 <= j < i ==> (#[trigger] params@[j])@ == (ToyParamView {
                    name: f.params@[j].name@,
                    ty: substitute_source(f.params@[j].ty@, subst@),
                }),
        decreases f.params@.len() - i,
    {
        params.push(
            ToyParam {
                name: f.params[i].name.clone(),
                ty: substitute_source_type(&f.params[i].ty, subst),
            },
        );
        i += 1;
    }
    let r = ToyFunction {
        type_params: Vec::new(),
        params,
        return_ty: match &f.return_ty {
            Some(t) => Some(substitute_source_type(t, subst)),
            None => None,
        },
        body: match &f.body {
            Some(b) => Some(substitute_type_params_in_body(b, subst)),
            None => None,
        },
        is_export: f.is_export,
    };
    assert(r@.type_params =~= Seq::empty());
    assert(r@.params =~= substitute_params(f@.params, subst@));
    r
}

/// A function as a call with some type arguments means it.
pub fn resolve_toylang_callee(f: &ToyFunction, type_args: &Vec<ResolvedType>) -> (r: ToyFunction)
    ensures
        r@ == instantiated_fn(f@, resolved_views(type_args@)),
{
    let subst = bind_params(&f.type_params, type_args);
    resolve_caller_from_type_args(f, &subst)
}

/// Something on the Rust side that a body needs.
#[derive(Debug, PartialEq)]
pub enum RustDep {
    /// An imported free function.
    FreeFn { name: String, type_args: Vec<ResolvedType> },
    /// A function that is declared in toylang and defined in Rust.
    Declared { name: String },
    /// A method of a trait, for the impl of a type.
    TraitMethod {
        trait_name: String,
        method_name: String,
        self_ty: ResolvedType,
        type_args: Vec<ResolvedType>,
    },
    /// A function of the stubs that stands for a method.
    Wrapper { name: String, type_args: Vec<ResolvedType> },
    /// A method of a type.
    InherentMethod { owner: String, method_name: String, type_args: Vec<ResolvedType> },
}

/// What a [`RustDep`] says.
pub enum RustDepView {
    FreeFn { name: Seq<char>, type_args: Seq<ResolvedTypeView> },
    Declared { name: Seq<char> },
    TraitMethod {
        trait_name: Seq<char>,
        method_name: Seq<char>,
        self_ty: ResolvedTypeView,
        type_args: Seq<ResolvedTypeView>,
    },
    Wrapper { name: Seq<char>, type_args: Seq<ResolvedTypeView> },
    InherentMethod {
        owner: Seq<char>,
        method_name: Seq<char>,
        type_args: Seq<ResolvedTypeView>,
    },
}

impl View for RustDep {
    type V = RustDepView;

    open spec fn view(&self) -> RustDepView {
        match self {
            RustDep::FreeFn { name, type_args } => RustDepView::FreeFn {
                name: name@,
                type_args: resolved_views(type_args@),
            },
            RustDep::Declared { name } => RustDepView::Declared { name: name@ },
            RustDep::TraitMethod { trait_name, method_name, self_ty, type_args } =>
                RustDepView::TraitMethod {
                trait_name: trait_name@,
                method_name: method_name@,
                self_ty: self_ty@,
                type_args: resolved_views(type_args@),
            },
            RustDep::Wrapper { name, type_args } => RustDepView::Wrapper {
                name: name@,
                type_args: resolved_views(type_args@),
            },
            RustDep::InherentMethod { owner, method_name, type_args } =>
                RustDepView::InherentMethod {
                owner: owner@,
                method_name: method_name@,
                type_args: resolved_views(type_args@),
            },
        }
    }
}

/// Why a walk over bodies stopped.
#[derive(Debug, PartialEq)]
pub enum WalkStop {
    /// The body of a function has no types.
    TypeError { fn_name: String, error: TypeResolveError },
    /// An answer about the Rust side is missing.
    Pending { error: TypeResolveError },
    /// Calls nest deeper than the machine can count. Only a function that calls
    /// itself with ever larger types nests without end.
    TooDeep,
    /// There is no function of that name.
    FunctionNotFound { name: String },
}

/// What a [`WalkStop`] says.
pub enum WalkStopView {
    TypeError { fn_name: Seq<char>, error: TypeResolveErrorView },
    Pending { error: TypeResolveErrorView },
    TooDeep,
    FunctionNotFound { name: Seq<char> },
}

impl View for WalkStop {
    type V = WalkStopView;

    open spec fn view(&self) -> WalkStopView {
        match self {
            WalkStop::TypeError { fn_name, error } => WalkStopView::TypeError {
                fn_name: fn_name@,
                error: error@,
            },
            WalkStop::Pending { error } => WalkStopView::Pending { error: error@ },
            WalkStop::TooDeep => WalkStopView::TooDeep,
            WalkStop::FunctionNotFound { name } => WalkStopView::FunctionNotFound { name: name@ },
        }
    }
}

/// What a use of a method needs, once it is known not to be a trait call: the
/// function that stands for the method, where the stubs hold one, else the
/// method itself.
pub open spec fn inherent_dep(d: RustMethodDepView, answers: RustAnswersView) -> Result<
    RustDepView,
    WalkStopView,
> {
    let method = RustDepView::InherentMethod {
        owner: d.owner,
        method_name: d.method_name,
        type_args: d.type_args,
    };
    match wrapper_name(d.owner, d.method_name) {
        None => Ok(method),
        Some(name) => match ask_has_wrapper(answers, name) {
            Err(error) => Err(WalkStopView::Pending { error }),
            Ok(is_there) => if is_there {
                Ok(RustDepView::Wrapper { name, type_args: d.type_args })
            } else {
                Ok(method)
            },
        },
    }
}

/// What a use of a method needs.
pub open spec fn method_dep(d: RustMethodDepView, answers: RustAnswersView) -> Result<
    RustDepView,
    WalkStopView,
> {
    match d.receiver_ty {
        None => inherent_dep(d, answers),
        Some(receiver) => match ask_trait(answers, d.owner) {
            Err(error) => Err(WalkStopView::Pending { error }),
            Ok(is_trait) => if is_trait {
                Ok(
                    RustDepView::TraitMethod {
                        trait_name: d.owner,
                        method_name: d.method_name,
                        self_ty: referent(receiver),
                        type_args: d.type_args,
                    },
                )
            } else {
                inherent_dep(d, answers)
            },
        },
    }
}

/// What some uses of methods need.
pub open spec fn method_deps(ds: Seq<RustMethodDepView>, answers: RustAnswersView) -> Result<
    Seq<RustDepView>,
    WalkStopView,
>
    decreases ds.len(),
{
    if ds.len() == 0 {
        Ok(Seq::empty())
    } else {
        match method_dep(ds[0], answers) {
            Err(e) => Err(e),
            Ok(first) => match method_deps(ds.drop_first(), answers) {
                Err(e) => Err(e),
                Ok(rest) => Ok(seq![first] + rest),
            },
        }
    }
}

/// What a function with a body needs from the Rust side, itself or through
/// the toylang functions that it calls, and the symbols that have been
/// visited. A symbol in `guard` is not visited again.
pub open spec fn deps_of_fn(
    f: ToyFunctionView,
    name: Seq<char>,
    guard: Seq<Seq<char>>,
    cx: Typing,
    depth: nat,
) -> Result<(Seq<RustDepView>, Seq<Seq<char>>), WalkStopView>
    decreases depth, 1int, 0nat,
{
    match type_fn_body(f, f.body->0, cx) {
        Err(error) => Err(WalkStopView::TypeError { fn_name: name, error }),
        Ok(body) => match deps_of_calls(calls_in_block(body), guard, cx, depth) {
            Err(e) => Err(e),
            Ok((deps, after)) => match method_deps(rust_deps_in_block(body), cx.answers) {
                Err(e) => Err(e),
                Ok(more) => Ok((deps + more, after)),
            },
        },
    }
}

/// What some calls need from the Rust side.
pub open spec fn deps_of_calls(
    calls: Seq<FnCallView>,
    guard: Seq<Seq<char>>,
    cx: Typing,
    depth: nat,
) -> Result<(Seq<RustDepView>, Seq<Seq<char>>), WalkStopView>
    decreases depth, 0int, calls.len(),
{
    if calls.len() == 0 {
        Ok((Seq::empty(), guard))
    } else {
        let call = calls[0];
        let first = match find(cx.registry.functions, call.name) {
            None => Ok(
                (
                    seq![RustDepView::FreeFn { name: call.name, type_args: call.type_args }],
                    guard,
                ),
            ),
            Some(callee) => if callee.body is None {
                Ok((seq![RustDepView::Declared { name: call.name }], guard))
            } else {
                let symbol = internal_symbol(call.name, call.type_args);
                if guard.contains(symbol) {
                    Ok((Seq::empty(), guard))
                } else if depth == 0 {
                    Err(WalkStopView::TooDeep)
                } else {
                    deps_of_fn(
                        instantiated_fn(callee, call.type_args),
                        call.name,
                        guard.push(symbol),
                        cx,
                        (depth - 1) as nat,
                    )
                }
            },
        };
        match first {
            Err(e) => Err(e),
            Ok((deps, after)) => match deps_of_calls(calls.drop_first(), after, cx, depth) {
                Err(e) => Err(e),
                Ok((more, last)) => Ok((deps + more, last)),
            },
        }
    }
}

/// A function that is emitted.
#[derive(Debug, PartialEq)]
pub struct ToylangInstance {
    /// The symbol by which the Rust side calls the function.
    pub extern_symbol: String,
    /// The symbol by which toylang calls the function.
    pub internal_symbol: String,
    pub resolved_func: ToyFunction,
    /// The stub that stands for the function on the Rust side, if there is one.
    pub stub_def_id: Option<u64>,
    pub instance_args: Vec<ResolvedType>,
}

/// What a [`ToylangInstance`] says.
pub struct InstanceView {
    pub extern_symbol: Seq<char>,
    pub internal_symbol: Seq<char>,
    pub resolved_func: ToyFunctionView,
    pub stub_def_id: Option<u64>,
    pub instance_args: Seq<ResolvedTypeView>,
}

impl View for ToylangInstance {
    type V = InstanceView;

    open spec fn view(&self) -> InstanceView {
        InstanceView {
            extern_symbol: self.extern_symbol@,
            internal_symbol: self.internal_symbol@,
            resolved_func: self.resolved_func@,
            stub_def_id: self.stub_def_id,
            instance_args: resolved_views(self.instance_args@),
        }
    }
}

/// The functions that are to be emitted, and the symbols that were visited on
/// the way.
#[derive(Debug, PartialEq)]
pub struct Emission {
    pub toylang_instances: Vec<ToylangInstance>,
    pub walked_entry_points: NameSet,
}

/// What an [`Emission`] says.
pub struct EmissionView {
    pub instances: Seq<InstanceView>,
    pub walked: Seq<Seq<char>>,
}

impl View for Emission {
    type V = EmissionView;

    open spec fn view(&self) -> EmissionView {
        EmissionView {
            instances: views(self.toylang_instances@),
            walked: self.walked_entry_points@,
        }
    }
}

/// What a walk over bodies goes by: the definitions, those of the crate
/// itself, and what is known of the Rust side.
pub struct WalkView {
    pub effective: RegistryView,
    pub local: RegistryView,
    pub answers: RustAnswersView,
}

/// The typing context of a walk.
pub open spec fn typing(w: WalkView) -> Typing {
    Typing { registry: w.effective, answers: w.answers }
}

/// Whether a walk leaves a call alone: a function of the Rust side, or one
/// without type arguments that another crate owns and has emitted.
pub open spec fn is_foreign(call: FnCallView, w: WalkView) -> bool {
    match find(w.effective.functions, call.name) {
        None => true,
        Some(callee) => callee.body is None || (find(w.local.functions, call.name) is None
            && call.type_args.len() == 0),
    }
}

/// What becomes of an emission by the toylang functions that a function calls,
/// itself or through others. Each is emitted once.
pub open spec fn stash_fn(
    f: ToyFunctionView,
    name: Seq<char>,
    st: EmissionView,
    w: WalkView,
    depth: nat,
) -> Result<EmissionView, WalkStopView>
    decreases depth, 1int, 0nat,
{
    match type_fn_body(f, f.body->0, typing(w)) {
        Err(error) => Err(WalkStopView::TypeError { fn_name: name, error }),
        Ok(body) => stash_calls(calls_in_block(body), st, w, depth),
    }
}

/// What becomes of an emission by some calls.
pub open spec fn stash_calls(
    calls: Seq<FnCallView>,
    st: EmissionView,
    w: WalkView,
    depth: nat,
) -> Result<EmissionView, WalkStopView>
    decreases depth, 0int, calls.len(),
{
    if calls.len() == 0 {
        Ok(st)
    } else {
        let call = calls[0];
        let symbol = internal_symbol(call.name, call.type_args);
        let first = if is_foreign(call, w) || st.walked.contains(symbol) {
            Ok(st)
        } else if depth == 0 {
            Err(WalkStopView::TooDeep)
        } else {
            let callee = instantiated_fn(
                find(w.effective.functions, call.name)->0,
                call.type_args,
            );
            stash_fn(
                callee,
                call.name,
                EmissionView {
                    instances: st.instances.push(
                        InstanceView {
                            extern_symbol: symbol,
                            internal_symbol: symbol,
                            resolved_func: callee,
                            stub_def_id: None,
                            instance_args: call.type_args,
                        },
                    ),
                    walked: st.walked.push(symbol),
                },
                w,
                (depth - 1) as nat,
            )
        };
        match first {
            Err(e) => Err(e),
            Ok(next) => stash_calls(calls.drop_first(), next, w, depth),
        }
    }
}

/// How deep calls may nest: as deep as the machine can count.
pub open spec fn no_bound() -> nat {
    usize::MAX as nat
}

/// What a function with a body needs from the Rust side, however deep calls
/// nest, and the symbols that have been visited.
pub open spec fn deps_of(
    f: ToyFunctionView,
    name: Seq<char>,
    guard: Seq<Seq<char>>,
    cx: Typing,
) -> Result<(Seq<RustDepView>, Seq<Seq<char>>), WalkStopView> {
    deps_of_fn(f, name, guard, cx, no_bound())
}

/// What becomes of an emission by the toylang functions that a function calls,
/// however deep calls nest.
pub open spec fn stashed(
    f: ToyFunctionView,
    name: Seq<char>,
    st: EmissionView,
    w: WalkView,
) -> Result<EmissionView, WalkStopView> {
    stash_fn(f, name, st, w, no_bound())
}

/// What a walk gathers does not depend on how deep calls may nest, once that is
/// deep enough.
pub proof fn lemma_deps_at_any_depth(
    f: ToyFunctionView,
    name: Seq<char>,
    guard: Seq<Seq<char>>,
    cx: Typing,
    depth: nat,
    deeper: nat,
)
    requires
        depth <= deeper,
        !(deps_of_fn(f, name, guard, cx, depth) matches Err(WalkStopView::TooDeep)),
    ensures
        deps_of_fn(f, name, guard, cx, deeper) == deps_of_fn(f, name, guard, cx, depth),
    decreases depth, 1int, 0nat,
{
    if let Ok(body) = type_fn_body(f, f.body->0, cx) {
        lemma_calls_at_any_depth(calls_in_block(body), guard, cx, depth, deeper);
    }
}

proof fn lemma_calls_at_any_depth(
    calls: Seq<FnCallView>,
    guard: Seq<Seq<char>>,
    cx: Typing,
    depth: nat,
    deeper: nat,
)
    requires
        depth <= deeper,
        !(deps_of_calls(calls, guard, cx, depth) matches Err(WalkStopView::TooDeep)),
    ensures
        deps_of_calls(calls, guard, cx, deeper) == deps_of_calls(calls, guard, cx, depth),
    decreases depth, 0int, calls.len(),
{
    if calls.len() > 0 {
        let call = calls[0];
        let rest = calls.drop_first();
        match find(cx.registry.functions, call.name) {
            None => {
                lemma_calls_at_any_depth(rest, guard, cx, depth, deeper);
            },
            Some(callee) => {
                let symbol = internal_symbol(call.name, call.type_args);
                if callee.body is None || guard.contains(symbol) {
                    lemma_calls_at_any_depth(rest, guard, cx, depth, deeper);
                } else {
                    let f = instantiated_fn(callee, call.type_args);
                    let inner = guard.push(symbol);
                    let less = (depth - 1) as nat;
                    lemma_deps_at_any_depth(
                        f,
                        call.name,
                        inner,
                        cx,
                        less,
                        (deeper - 1) as nat,
                    );
                    if let Ok((_, after)) = deps_of_fn(f, call.name, inner, cx, less) {
                        lemma_calls_at_any_depth(rest, after, cx, depth, deeper);
                    }
                }
            },
        }
    }
}

/// What a walk emits does not depend on how deep calls may nest, once that is
/// deep enough.
pub proof fn lemma_stashed_at_any_depth(
    f: ToyFunctionView,
    name: Seq<char>,
    st: EmissionView,
    w: WalkView,
    depth: nat,
    deeper: nat,
)
    requires
        depth <= deeper,
        !(stash_fn(f, name, st, w, depth) matches Err(WalkStopView::TooDeep)),
    ensures
        stash_fn(f, name, st, w, deeper) == stash_fn(f, name, st, w, depth),
    decreases depth, 1int, 0nat,
{
    if let Ok(body) = type_fn_body(f, f.body->0, typing(w)) {
        lemma_stash_at_any_depth(calls_in_block(body), st, w, depth, deeper);
    }
}

proof fn lemma_stash_at_any_depth(
    calls: Seq<FnCallView>,
    st: EmissionView,
    w: WalkView,
    depth: nat,
    deeper: nat,
)
    requires
        depth <= deeper,
        !(stash_calls(calls, st, w, depth) matches Err(WalkStopView::TooDeep)),
    ensures
        stash_calls(calls, st, w, deeper) == stash_calls(calls, st, w, depth),
    decreases depth, 0int, calls.len(),
{
    if calls.len() > 0 {
        let call = calls[0];
        let rest = calls.drop_first();
        let symbol = internal_symbol(call.name, call.type_args);
        if is_foreign(call, w) || st.walked.contains(symbol) {
            lemma_stash_at_any_depth(rest, st, w, depth, deeper);
        } else {
            let callee = instantiated_fn(
                find(w.effective.functions, call.name)->0,
                call.type_args,
            );
            let next = EmissionView {
                instances: st.instances.push(
                    InstanceView {
                        extern_symbol: symbol,
                        internal_symbol: symbol,
                        resolved_func: callee,
                        stub_def_id: None,
                        instance_args: call.type_args,
                    },
                ),
                walked: st.walked.push(symbol),
            };
            let less = (depth - 1) as nat;
            lemma_stashed_at_any_depth(callee, call.name, next, w, less, (deeper - 1) as nat);
            if let Ok(after) = stash_fn(callee, call.name, next, w, less) {
                lemma_stash_at_any_depth(rest, after, w, depth, deeper);
            }
        }
    }
}

/// Goes over bodies.
struct Walk<'a> {
    effective: &'a ToylangRegistry,
    local: &'a ToylangRegistry,
    answers: &'a RustAnswers,
}

/// Appends the elements of `more`.
fn append_all<T: View>(out: &mut Vec<T>, more: Vec<T>)
    ensures
        views(final(out)@) == views(old(out)@) + views(more@),
{
    let ghost a = out@;
    let ghost b = more@;
    let mut more = more;
    out.append(&mut more);
    assert(views(out@) =~= views(a) + views(b));
}

fn make_inherent_dep(d: &RustMethodDep, answers: &RustAnswers) -> (r: Result<RustDep, WalkStop>)
    ensures
        (match r {
            Ok(x) => Ok(x@),
            Err(e) => Err(e@),
        }) == inherent_dep(d@, answers@),
{
    let type_args = clone_resolved_types(&d.type_args);
    match wrapper_fn_name(&d.owner, &d.method_name) {
        Some(name) => match answers.has_wrapper(name) {
            Err(error) => {
                return Err(WalkStop::Pending { error });
            },
            Ok(is_there) => {
                if is_there {
                    return Ok(RustDep::Wrapper { name: owned(name), type_args });
                }
            },
        },
        None => {},
    }
    Ok(
        RustDep::InherentMethod {
            owner: d.owner.clone(),
            method_name: d.method_name.clone(),
            type_args,
        },
    )
}

/// What a use of a method needs.
pub fn make_method_dep(d: &RustMethodDep, answers: &RustAnswers) -> (r: Result<RustDep, WalkStop>)
    ensures
        (match r {
            Ok(x) => Ok(x@),
            Err(e) => Err(e@),
        }) == method_dep(d@, answers@),
{
    match &d.receiver_ty {
        None => make_inherent_dep(d, answers),
        Some(receiver) => match answers.is_rust_trait(&d.owner) {
            Err(error) => Err(WalkStop::Pending { error }),
            Ok(is_trait) => if is_trait {
                Ok(
                    RustDep::TraitMethod {
                        trait_name: d.owner.clone(),
                        method_name: d.method_name.clone(),
                        self_ty: strip_ref(receiver).duplicate(),
                        type_args: clone_resolved_types(&d.type_args),
                    },
                )
            } else {
                make_inherent_dep(d, answers)
            },
        },
    }
}

impl<'a> Walk<'a> {
    spec fn model(&self) -> WalkView {
        WalkView { effective: self.effective@, local: self.local@, answers: self.answers@ }
    }

    spec fn cx(&self) -> Typing {
        Typing { registry: self.effective@, answers: self.answers@ }
    }

    fn method_deps(&self, ds: &Vec<RustMethodDep>) -> (r: Result<Vec<RustDep>, WalkStop>)
        ensures
            (match r {
                Ok(v) => Ok(views(v@)),
                Err(e) => Err(e@),
            }) == method_deps(views(ds@), self.answers@),
    {
        let ghost all = views(ds@);
        let ghost whole = method_deps(all, self.answers@);
        let mut out: Vec<RustDep> = Vec::new();
        let mut i: usize = 0;
        assert(all.skip(0) =~= all);
        assert(whole is Ok ==> views(out@) + whole->Ok_0 =~= whole->Ok_0);
        while i < ds.len()
            invariant
                i <= ds@.len(),
                all == views(ds@),
                whole == method_deps(all, self.answers@),
                whole == (match method_deps(all.skip(i as int), self.answers@) {
                    Ok(rest) => Ok(views(out@) + rest),
                    Err(e) => Err(e),
                }),
            decreases ds@.len() - i,
        {
            let ghost done = views(out@);
            assert(all.skip(i as int).drop_first() =~= all.skip(i + 1));
            assert(all.skip(i as int)[0] == ds@[i as int]@);
            let one = match make_method_dep(&ds[i], self.answers) {
                Err(e) => {
                    return Err(e);
                },
                Ok(d) => d,
            };
            let ghost first = one@;
            out.push(one);
            assert(views(out@) =~= done.push(first));
            assert(forall|rest: Seq<RustDepView>|
                #[trigger] (views(out@) + rest) =~= done + (seq![first] + rest));
            i += 1;
        }
        assert(all.skip(i as int).len() == 0);
        assert(views(out@) + Seq::<RustDepView>::empty() =~= views(out@));
        Ok(out)
    }

    fn deps_of_fn(&self, f: &ToyFunction, name: &str, guard: &mut NameSet, depth: usize) -> (r: Result<
        Vec<RustDep>,
        WalkStop,
    >)
        requires
            f@.body is Some,
        ensures
            match deps_of_fn(f@, name@, old(guard)@, self.cx(), depth as nat) {
                Ok((deps, after)) => r is Ok && views(r->Ok_0@) == deps && final(guard)@ == after,
                Err(e) => r is Err && r->Err_0@ == e,
            },
        decreases depth, 1int, 0nat,
    {
        let body = match resolve_fn_body(self.effective, f, self.answers) {
            Err(error) => {
                return Err(WalkStop::TypeError { fn_name: owned(name), error });
            },
            Ok(b) => b,
        };
        let found = walk_typed_body_for_deps(&body);
        let mut deps = match self.deps_of_calls(&found.fn_calls, guard, depth) {
            Err(e) => {
                return Err(e);
            },
            Ok(d) => d,
        };
        match self.method_deps(&found.rust_method_deps) {
            Err(e) => Err(e),
            Ok(more) => {
                append_all(&mut deps, more);
                Ok(deps)
            },
        }
    }

    fn deps_of_calls(&self, calls: &Vec<FnCall>, guard: &mut NameSet, depth: usize) -> (r: Result<
        Vec<RustDep>,
        WalkStop,
    >)
        ensures
            match deps_of_calls(views(calls@), old(guard)@, self.cx(), depth as nat) {
                Ok((deps, after)) => r is Ok && views(r->Ok_0@) == deps && final(guard)@ == after,
                Err(e) => r is Err && r->Err_0@ == e,
            },
        decreases depth, 0int, calls@.len(),
    {
        let ghost all = views(calls@);
        let ghost cx = self.cx();
        let ghost whole = deps_of_calls(all, guard@, cx, depth as nat);
        let mut out: Vec<RustDep> = Vec::new();
        let mut i: usize = 0;
        assert(all.skip(0) =~= all);
        assert(whole is Ok ==> views(out@) + whole->Ok_0.0 =~= whole->Ok_0.0);
        while i < calls.len()
            invariant
                i <= calls@.len(),
                all == views(calls@),
                cx == self.cx(),
                whole == deps_of_calls(all, old(guard)@, cx, depth as nat),
                whole == (match deps_of_calls(all.skip(i as int), guard@, cx, depth as nat) {
                    Ok((rest, last)) => Ok((views(out@) + rest, last)),
                    Err(e) => Err(e),
                }),
            decreases calls@.len() - i,
        {
            let ghost done = views(out@);
            let ghost here = guard@;
            let ghost rest_before = deps_of_calls(all.skip(i as int), here, cx, depth as nat);
            assert(all.skip(i as int).drop_first() =~= all.skip(i + 1));
            assert(all.skip(i as int)[0] == calls@[i as int]@);
            let mut part: Vec<RustDep> = Vec::new();
            let ghost mut first: Seq<RustDepView> = Seq::empty();
            assert(views(part@) =~= first);
            match self.effective.functions.get(&calls[i].name) {
                None => {
                    part.push(
                        RustDep::FreeFn {
                            name: calls[i].name.clone(),
                            type_args: clone_resolved_types(&calls[i].type_args),
                        },
                    );
                    proof {
                        first = seq![
                            RustDepView::FreeFn {
                                name: calls@[i as int].name@,
                                type_args: resolved_views(calls@[i as int].type_args@),
                            },
                        ];
                        assert(views(part@) =~= first);
                    }
                },
                Some(callee) => {
                    if callee.body.is_none() {
                        part.push(RustDep::Declared { name: calls[i].name.clone() });
                        proof {
                            first = seq![RustDepView::Declared { name: calls@[i as int].name@ }];
                            assert(views(part@) =~= first);
                        }
                    } else {
                        let symbol = compute_internal_symbol_from_type_args(
                            &calls[i].name,
                            &calls[i].type_args,
                        );
                        if !guard.contains(&symbol) {
                            if depth == 0 {
                                return Err(WalkStop::TooDeep);
                            }
                            guard.insert(symbol);
                            let f = resolve_toylang_callee(callee, &calls[i].type_args);
                            part = match self.deps_of_fn(&f, &calls[i].name, guard, depth - 1) {
                                Err(e) => {
                                    return Err(e);
                                },
                                Ok(d) => d,
                            };
                            proof {
                                first = views(part@);
                            }
                        }
                    }
                },
            }
            append_all(&mut out, part);
            proof {
                let tail = deps_of_calls(all.skip(i + 1), guard@, cx, depth as nat);
                assert(rest_before == (match tail {
                    Ok((more, last)) => Ok((first + more, last)),
                    Err(e) => Err(e),
                }));
                assert(views(out@) == done + first);
                if tail is Ok {
                    assert(views(out@) + tail->Ok_0.0 =~= done + (first + tail->Ok_0.0));
                }
            }
            i += 1;
        }
        assert(all.skip(i as int).len() == 0);
        assert(views(out@) + Seq::<RustDepView>::empty() =~= views(out@));
        Ok(out)
    }

    fn is_foreign(&self, call: &FnCall) -> (r: bool)
        ensures
            r == is_foreign(call@, self.model()),
    {
        assert(resolved_views(call.type_args@).len() == call.type_args@.len());
        match self.effective.functions.get(&call.name) {
            None => true,
            Some(callee) => callee.body.is_none() || (!self.local.functions.contains_key(
                &call.name,
            ) && call.type_args.len() == 0),
        }
    }

    fn stash_fn(&self, f: &ToyFunction, name: &str, st: &mut Emission, depth: usize) -> (r: Result<
        (),
        WalkStop,
    >)
        requires
            f@.body is Some,
        ensures
            match stash_fn(f@, name@, old(st)@, self.model(), depth as nat) {
                Ok(after) => r is Ok && final(st)@ == after,
                Err(e) => r is Err && r->Err_0@ == e,
            },
        decreases depth, 1int, 0nat,
    {
        let body = match resolve_fn_body(self.effective, f, self.answers) {
            Err(error) => {
                return Err(WalkStop::TypeError { fn_name: owned(name), error });
            },
            Ok(b) => b,
        };
        let found = walk_typed_body_for_deps(&body);
        self.stash_calls(&found.fn_calls, st, depth)
    }

    fn stash_calls(&self, calls: &Vec<FnCall>, st: &mut Emission, depth: usize) -> (r: Result<
        (),
        WalkStop,
    >)
        ensures
            match stash_calls(views(calls@), old(st)@, self.model(), depth as nat) {
                Ok(after) => r is Ok && final(st)@ == after,
                Err(e) => r is Err && r->Err_0@ == e,
            },
        decreases depth, 0int, calls@.len(),
    {
        let ghost all = views(calls@);
        let ghost w = self.model();
        let ghost whole = stash_calls(all, st@, w, depth as nat);
        let mut i: usize = 0;
        assert(all.skip(0) =~= all);
        while i < calls.len()
            invariant
                i <= calls@.len(),
                all == views(calls@),
                w == self.model(),
                whole == stash_calls(all, old(st)@, w, depth as nat),
                whole == stash_calls(all.skip(i as int), st@, w, depth as nat),
            decreases calls@.len() - i,
        {
            assert(all.skip(i as int).drop_first() =~= all.skip(i + 1));
            assert(all.skip(i as int)[0] == calls@[i as int]@);
            if !self.is_foreign(&calls[i]) {
                let symbol = compute_internal_symbol_from_type_args(
                    &calls[i].name,
                    &calls[i].type_args,
                );
                if !st.walked_entry_points.contains(&symbol) {
                    if depth == 0 {
                        return Err(WalkStop::TooDeep);
                    }
                    match self.effective.functions.get(&calls[i].name) {
                        Some(callee) => {
                            let f = resolve_toylang_callee(callee, &calls[i].type_args);
                            let ghost before = st@;
                            let instance = ToylangInstance {
                                extern_symbol: symbol.clone(),
                                internal_symbol: symbol.clone(),
                                resolved_func: f.duplicate(),
                                stub_def_id: None,
                                instance_args: clone_resolved_types(&calls[i].type_args),
                            };
                            let ghost view = instance@;
                            st.walked_entry_points.insert(symbol);
                            st.toylang_instances.push(instance);
                            assert(st@.instances =~= before.instances.push(view));
                            match self.stash_fn(&f, &calls[i].name, st, depth - 1) {
                                Err(e) => {
                                    return Err(e);
                                },
                                Ok(_) => {},
                            }
                        },
                        None => {},
                    }
                }
            }
            i += 1;
        }
        assert(all.skip(i as int).len() == 0);
        Ok(())
    }
}

/// What a function with a body needs from the Rust side, itself or through
/// the toylang functions that it calls. The function itself, known by `symbol`,
/// is not visited again.
pub fn collect_rust_deps(
    registry: &ToylangRegistry,
    answers: &RustAnswers,
    f: &ToyFunction,
    name: &str,
    symbol: String,
) -> (r: Result<Vec<RustDep>, WalkStop>)
    requires
        f@.body is Some,
    ensures
        match deps_of(
            f@,
            name@,
            seq![symbol@],
            (Typing { registry: registry@, answers: answers@ }),
        ) {
            Ok((deps, _)) => r is Ok && views(r->Ok_0@) == deps,
            Err(e) => r is Err && r->Err_0@ == e,
        },
{
    let walk = Walk { effective: registry, local: registry, answers };
    let mut guard = NameSet::new();
    let ghost symbol_view = symbol@;
    guard.insert(symbol);
    assert(guard@ =~= seq![symbol_view]);
    walk.deps_of_fn(f, name, &mut guard, usize::MAX)
}

/// Emits the toylang functions that a function calls, itself or through
/// others, each once.
pub fn walk_and_stash_internal_callees(
    registry: &ToylangRegistry,
    local_registry: &ToylangRegistry,
    answers: &RustAnswers,
    f: &ToyFunction,
    name: &str,
    st: &mut Emission,
) -> (r: Result<(), WalkStop>)
    requires
        f@.body is Some,
    ensures
        match stashed(
            f@,
            name@,
            old(st)@,
            (WalkView { effective: registry@, local: local_registry@, answers: answers@ }),
        ) {
            Ok(after) => r is Ok && final(st)@ == after,
            Err(e) => r is Err && r->Err_0@ == e,
        },
{
    let walk = Walk { effective: registry, local: local_registry, answers };
    walk.stash_fn(f, name, st, usize::MAX)
}

} // verus!
