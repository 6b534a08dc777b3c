//! What the compiler asks about types: how a source type resolves against the
//! registry, and how names on the Rust side are formed.
use crate::names::{find, NameMap};
use crate::text::{owned, same_text, views, Duplicate};
use crate::toylang::registry::{ToyField, ToyFieldView, ToyStruct, ToyStructView, ToylangRegistry};
use crate::toylang::type_resolve::{TypeResolveError, TypeResolveErrorView};
use crate::toylang::typed_ast::{
    demote, demote_all, resolved_views, source_views, ResolvedType, ResolvedTypeView, SourceType, SourceTypeView,
};
use vstd::prelude::*;
use vstd::string::*;

verus! {

broadcast use {vstd::seq::group_seq_axioms, vstd::std_specs::vec::group_vec_axioms};

/// The name under which the stubs hold toylang's `main`, which keeps it apart
/// from Rust's own.
pub const TOYLANG_MAIN: &'static str = "__toylang_main";

/// A Rust type that was needed and is not imported.
#[derive(Clone, Debug, PartialEq)]
pub struct UnresolvedRustType {
    pub name: String,
    pub context: RustTypeLookupContext,
}

/// Where a Rust type was needed.
#[derive(Clone, Debug, PartialEq)]
pub enum RustTypeLookupContext {
    TraitCallSelf { trait_name: String, method: String },
    TraitMethodTypeArg { trait_name: String, method: String },
    InherentMethodTypeArg { owner: String, method: String },
    FreeFunctionTypeArg { function_name: String },
    NestedGenericArg { parent_type: String },
    Codegen,
    /// The trait of a trait call is itself not imported.
    TraitCallName { method: String },
    /// The trait was found and has no such method.
    TraitMethodName { trait_name: String },
    /// The question mentions a type parameter, so it can be answered only
    /// once that parameter is known.
    Deferred { type_param: String },
}

/// What an [`UnresolvedRustType`] says.
pub struct UnresolvedView {
    pub name: Seq<char>,
    pub context: ContextView,
}

/// What a [`RustTypeLookupContext`] says.
pub enum ContextView {
    TraitCallSelf { trait_name: Seq<char>, method: Seq<char> },
    TraitMethodTypeArg { trait_name: Seq<char>, method: Seq<char> },
    InherentMethodTypeArg { owner: Seq<char>, method: Seq<char> },
    FreeFunctionTypeArg { function_name: Seq<char> },
    NestedGenericArg { parent_type: Seq<char> },
    Codegen,
    TraitCallName { method: Seq<char> },
    TraitMethodName { trait_name: Seq<char> },
    Deferred { type_param: Seq<char> },
}

impl View for RustTypeLookupContext {
    type V = ContextView;

    open spec fn view(&self) -> ContextView {
        match self {
            Self::TraitCallSelf { trait_name, method } => ContextView::TraitCallSelf {
                trait_name: trait_name@,
                method: method@,
            },
            Self::TraitMethodTypeArg { trait_name, method } => ContextView::TraitMethodTypeArg {
                trait_name: trait_name@,
                method: method@,
            },
            Self::InherentMethodTypeArg { owner, method } =>
                ContextView::InherentMethodTypeArg { owner: owner@, method: method@ },
            Self::FreeFunctionTypeArg { function_name } => ContextView::FreeFunctionTypeArg {
                function_name: function_name@,
            },
            Self::NestedGenericArg { parent_type } => ContextView::NestedGenericArg {
                parent_type: parent_type@,
            },
            Self::Codegen => ContextView::Codegen,
            Self::TraitCallName { method } => ContextView::TraitCallName { method: method@ },
            Self::TraitMethodName { trait_name } => ContextView::TraitMethodName {
                trait_name: trait_name@,
            },
            Self::Deferred { type_param } => ContextView::Deferred { type_param: type_param@ },
        }
    }
}

impl View for UnresolvedRustType {
    type V = UnresolvedView;

    open spec fn view(&self) -> UnresolvedView {
        UnresolvedView { name: self.name@, context: self.context@ }
    }
}

/// How a context reads in a message.
pub open spec fn context_text(c: ContextView) -> Seq<char> {
    match c {
        ContextView::TraitCallSelf { trait_name, method } => "as Self of trait call `"@ + trait_name
            + "::"@ + method + "`"@,
        ContextView::TraitMethodTypeArg { trait_name, method } => "as type arg of trait call `"@
            + trait_name + "::"@ + method + "`"@,
        ContextView::InherentMethodTypeArg { owner, method } => "as type arg of method `"@
            + owner + "::"@ + method + "`"@,
        ContextView::FreeFunctionTypeArg { function_name } => "as type arg of free function `"@
            + function_name + "`"@,
        ContextView::NestedGenericArg { parent_type } => "as generic arg inside `"@ + parent_type
            + "`"@,
        ContextView::Codegen => "during codegen"@,
        ContextView::TraitCallName { method } => "as trait name in trait call `::"@ + method + "`"@,
        ContextView::TraitMethodName { trait_name } => "as method name on trait `"@ + trait_name
            + "`"@,
        ContextView::Deferred { type_param } => "until type parameter `"@ + type_param
            + "` is known"@,
    }
}

/// `before`, `name` and `after`, one behind the other.
fn around(before: &str, name: &str, after: &str) -> (r: String)
    ensures
        r@ == before@ + name@ + after@,
{
    let mut s = owned(before);
    s.append(name);
    s.append(after);
    s
}

/// `before`, `first`, `::`, `second` and a closing backquote.
fn around_path(before: &str, first: &str, second: &str) -> (r: String)
    ensures
        r@ == before@ + first@ + "::"@ + second@ + "`"@,
{
    let mut s = owned(before);
    s.append(first);
    s.append("::");
    s.append(second);
    s.append("`");
    s
}

impl RustTypeLookupContext {
    /// How the context reads in a message.
    pub fn to_text(&self) -> (r: String)
        ensures
            r@ == context_text(self@),
    {
        match self {
            Self::TraitCallSelf { trait_name, method } => around_path(
                "as Self of trait call `",
                trait_name,
                method,
            ),
            Self::TraitMethodTypeArg { trait_name, method } => around_path(
                "as type arg of trait call `",
                trait_name,
                method,
            ),
            Self::InherentMethodTypeArg { owner, method } => around_path(
                "as type arg of method `",
                owner,
                method,
            ),
            Self::FreeFunctionTypeArg { function_name } => around(
                "as type arg of free function `",
                function_name,
                "`",
            ),
            Self::NestedGenericArg { parent_type } => around(
                "as generic arg inside `",
                parent_type,
                "`",
            ),
            Self::Codegen => owned("during codegen"),
            Self::TraitCallName { method } => around(
                "as trait name in trait call `::",
                method,
                "`",
            ),
            Self::TraitMethodName { trait_name } => around(
                "as method name on trait `",
                trait_name,
                "`",
            ),
            Self::Deferred { type_param } => around(
                "until type parameter `",
                type_param,
                "` is known",
            ),
        }
    }
}

/// How an unresolved type reads in a message.
pub open spec fn unresolved_text(u: UnresolvedView) -> Seq<char> {
    "Rust type `"@ + u.name + "` is not imported (used "@ + context_text(u.context)
        + "). Add `use <path>::"@ + u.name + "` at the top of your source."@
}

impl UnresolvedRustType {
    /// How the unresolved type reads in a message.
    pub fn to_text(&self) -> (r: String)
        ensures
            r@ == unresolved_text(self@),
    {
        let mut s = around("Rust type `", &self.name, "` is not imported (used ");
        let context = self.context.to_text();
        s.append(&context);
        s.append("). Add `use <path>::");
        s.append(&self.name);
        s.append("` at the top of your source.");
        s
    }

    /// Whether the question waits for a type parameter to become known.
    pub fn is_deferred(&self) -> (r: bool)
        ensures
            r == (self@.context is Deferred),
    {
        match self.context {
            RustTypeLookupContext::Deferred { .. } => true,
            _ => false,
        }
    }
}

/// How many struct definitions may be nested in one another: a chain longer
/// than the number of definitions visits one of them twice.
pub open spec fn nesting_bound(structs: Seq<(Seq<char>, ToyStructView)>) -> nat {
    structs.len()
}

/// What a source type resolves to. Type parameters stand for what `env` binds
/// them to, or for themselves; a struct brings the types of its fields, in
/// which its own type parameters stand for its type arguments. The error is
/// that of the leftmost part that has one: a struct that is not defined, or
/// one whose definition nests deeper than `depth` structs.
pub open spec fn resolve_in(
    t: SourceTypeView,
    env: Seq<(Seq<char>, ResolvedTypeView)>,
    structs: Seq<(Seq<char>, ToyStructView)>,
    depth: nat,
) -> Result<ResolvedTypeView, TypeResolveErrorView>
    decreases depth, t,
{
    match t {
        SourceTypeView::I32 => Ok(ResolvedTypeView::I32),
        SourceTypeView::I64 => Ok(ResolvedTypeView::I64),
        SourceTypeView::F64 => Ok(ResolvedTypeView::F64),
        SourceTypeView::Bool => Ok(ResolvedTypeView::Bool),
        SourceTypeView::Void => Ok(ResolvedTypeView::Void),
        SourceTypeView::Usize => Ok(ResolvedTypeView::Usize),
        SourceTypeView::Str => Ok(ResolvedTypeView::Str),
        SourceTypeView::ByteSlice => Ok(ResolvedTypeView::ByteSlice),
        SourceTypeView::TypeParam(p) => Ok(
            match find(env, p) {
                Some(bound) => bound,
                None => ResolvedTypeView::TypeParam(p),
            },
        ),
        SourceTypeView::Ref { inner } => match resolve_in(*inner, env, structs, depth) {
            Ok(r) => Ok(ResolvedTypeView::Ref { inner: Box::new(r) }),
            Err(e) => Err(e),
        },
        SourceTypeView::RustType { name, type_args } => match resolve_all_in(
            type_args,
            env,
            structs,
            depth,
        ) {
            Ok(args) => Ok(ResolvedTypeView::RustType { name, type_args: args }),
            Err(e) => Err(e),
        },
        SourceTypeView::StructRef { name, type_args } => match resolve_all_in(
            type_args,
            env,
            structs,
            depth,
        ) {
            Ok(args) => match find(structs, name) {
                None => Err(TypeResolveErrorView::UndefinedStruct { name }),
                Some(def) => if depth == 0 {
                    Err(TypeResolveErrorView::RecursiveStruct { name })
                } else {
                    match resolve_all_in(
                        field_types_of(def.fields),
                        crate::names::bind_all(def.type_params, args),
                        structs,
                        (depth - 1) as nat,
                    ) {
                        Ok(fields) => Ok(
                            ResolvedTypeView::Struct { name, type_args: args, field_types: fields },
                        ),
                        Err(e) => Err(e),
                    }
                },
            },
            Err(e) => Err(e),
        },
    }
}

/// What some source types resolve to, or the error of the first that has one.
pub open spec fn resolve_all_in(
    ts: Seq<SourceTypeView>,
    env: Seq<(Seq<char>, ResolvedTypeView)>,
    structs: Seq<(Seq<char>, ToyStructView)>,
    depth: nat,
) -> Result<Seq<ResolvedTypeView>, TypeResolveErrorView>
    decreases depth, ts,
{
    if ts.len() == 0 {
        Ok(Seq::empty())
    } else {
        match resolve_in(ts[0], env, structs, depth) {
            Err(e) => Err(e),
            Ok(first) => match resolve_all_in(ts.drop_first(), env, structs, depth) {
                Err(e) => Err(e),
                Ok(rest) => Ok(seq![first] + rest),
            },
        }
    }
}

/// The types of some fields.
pub open spec fn field_types_of(fields: Seq<ToyFieldView>) -> Seq<SourceTypeView> {
    Seq::new(fields.len(), |i: int| fields[i].rust_type)
}

/// What a source type resolves to against the structs of a registry.
pub open spec fn resolve(t: SourceTypeView, structs: Seq<(Seq<char>, ToyStructView)>) -> Result<
    ResolvedTypeView,
    TypeResolveErrorView,
> {
    resolve_in(t, Seq::empty(), structs, nesting_bound(structs))
}

/// What some source types resolve to against the structs of a registry.
pub open spec fn resolve_all(
    ts: Seq<SourceTypeView>,
    structs: Seq<(Seq<char>, ToyStructView)>,
) -> Result<Seq<ResolvedTypeView>, TypeResolveErrorView> {
    resolve_all_in(ts, Seq::empty(), structs, nesting_bound(structs))
}

/// The view of the outcome of a resolution.
pub open spec fn resolved_outcome(r: Result<ResolvedType, TypeResolveError>) -> Result<
    ResolvedTypeView,
    TypeResolveErrorView,
> {
    match r {
        Ok(t) => Ok(t@),
        Err(e) => Err(e@),
    }
}

/// The view of the outcome of several resolutions.
pub open spec fn resolved_all_outcome(r: Result<Vec<ResolvedType>, TypeResolveError>) -> Result<
    Seq<ResolvedTypeView>,
    TypeResolveErrorView,
> {
    match r {
        Ok(ts) => Ok(resolved_views(ts@)),
        Err(e) => Err(e@),
    }
}

/// Resolves a source type against the registry: looks up struct fields,
/// recursively, and replaces type parameters by type arguments. A struct that
/// contains itself has no finite form and is refused.
pub fn resolve_source_type(t: &SourceType, registry: &ToylangRegistry) -> (r: Result<
    ResolvedType,
    TypeResolveError,
>)
    ensures
        resolved_outcome(r) == resolve(t@, registry@.structs),
{
    let env: NameMap<ResolvedType> = NameMap::new();
    assert(env@ =~= Seq::empty());
    resolve_type_in(t, &env, &registry.structs, registry.structs.len())
}

/// Resolves some source types against the registry.
pub fn resolve_source_types(ts: &Vec<SourceType>, registry: &ToylangRegistry) -> (r: Result<
    Vec<ResolvedType>,
    TypeResolveError,
>)
    ensures
        resolved_all_outcome(r) == resolve_all(source_views(ts@), registry@.structs),
{
    let env: NameMap<ResolvedType> = NameMap::new();
    assert(env@ =~= Seq::empty());
    resolve_types_in(ts, &env, &registry.structs, registry.structs.len())
}

fn resolve_type_in(
    t: &SourceType,
    env: &NameMap<ResolvedType>,
    structs: &NameMap<ToyStruct>,
    depth: usize,
) -> (r: Result<ResolvedType, TypeResolveError>)
    ensures
        resolved_outcome(r) == resolve_in(t@, env@, structs@, depth as nat),
    decreases 2 * depth, t,
{
    match t {
        SourceType::I32 => Ok(ResolvedType::I32),
        SourceType::I64 => Ok(ResolvedType::I64),
        SourceType::F64 => Ok(ResolvedType::F64),
        SourceType::Bool => Ok(ResolvedType::Bool),
        SourceType::Void => Ok(ResolvedType::Void),
        SourceType::Usize => Ok(ResolvedType::Usize),
        SourceType::Str => Ok(ResolvedType::Str),
        SourceType::ByteSlice => Ok(ResolvedType::ByteSlice),
        SourceType::TypeParam(p) => match env.get(p) {
            Some(bound) => Ok(bound.duplicate()),
            None => Ok(ResolvedType::TypeParam(p.clone())),
        },
        SourceType::Ref { inner } => match resolve_type_in(inner, env, structs, depth) {
            Ok(r) => Ok(ResolvedType::Ref { inner: Box::new(r) }),
            Err(e) => Err(e),
        },
        SourceType::RustType { name, type_args } => match resolve_types_in(
            type_args,
            env,
            structs,
            depth,
        ) {
            Ok(args) => Ok(ResolvedType::RustType { name: name.clone(), type_args: args }),
            Err(e) => Err(e),
        },
        SourceType::StructRef { name, type_args } => {
            let args = match resolve_types_in(type_args, env, structs, depth) {
                Ok(args) => args,
                Err(e) => {
                    return Err(e);
                },
            };
            let def = match structs.get(name) {
                Some(def) => def,
                None => {
                    return Err(TypeResolveError::UndefinedStruct { name: name.clone() });
                },
            };
            if depth == 0 {
                return Err(TypeResolveError::RecursiveStruct { name: name.clone() });
            }
            let inner_env = bind_params(&def.type_params, &args);
            match resolve_fields_in(&def.fields, &inner_env, structs, depth - 1) {
                Ok(fields) => Ok(
                    ResolvedType::Struct {
                        name: name.clone(),
                        type_args: args,
                        field_types: fields,
                    },
                ),
                Err(e) => Err(e),
            }
        },
    }
}

fn resolve_types_in(
    ts: &Vec<SourceType>,
    env: &NameMap<ResolvedType>,
    structs: &NameMap<ToyStruct>,
    depth: usize,
) -> (r: Result<Vec<ResolvedType>, TypeResolveError>)
    ensures
        resolved_all_outcome(r) == resolve_all_in(
            source_views(ts@),
            env@,
            structs@,
            depth as nat,
        ),
    decreases 2 * depth, ts,
{
    let ghost all = source_views(ts@);
    let ghost whole = resolve_all_in(all, env@, structs@, depth as nat);
    let mut out: Vec<ResolvedType> = Vec::new();
    let mut i: usize = 0;
    assert(all.skip(0) =~= all);
    assert(whole is Ok ==> resolved_views(out@) + whole->Ok_0 =~= whole->Ok_0);
    while i < ts.len()
        invariant
            i <= ts@.len(),
            all == source_views(ts@),
            whole == resolve_all_in(all, env@, structs@, depth as nat),
            whole == (match resolve_all_in(all.skip(i as int), env@, structs@, depth as nat) {
                Ok(rest) => Ok(resolved_views(out@) + rest),
                Err(e) => Err(e),
            }),
        decreases ts@.len() - i,
    {
        let ghost done = resolved_views(out@);
        assert(all.skip(i as int).drop_first() =~= all.skip(i + 1));
        assert(all.skip(i as int)[0] == ts@[i as int].model());
        let one = match resolve_type_in(&ts[i], env, structs, depth) {
            Ok(t) => t,
            Err(e) => {
                return Err(e);
            },
        };
        out.push(one);
        assert(resolved_views(out@) =~= done.push(out@.last().model()));
        assert(forall|rest: Seq<ResolvedTypeView>|
            #[trigger] (resolved_views(out@) + rest) =~= done + (seq![out@.last().model()] + rest));
        i += 1;
    }
    assert(all.skip(i as int).len() == 0);
    assert(resolved_views(out@) + Seq::<ResolvedTypeView>::empty() =~= resolved_views(out@));
    Ok(out)
}

fn resolve_fields_in(
    fields: &Vec<ToyField>,
    env: &NameMap<ResolvedType>,
    structs: &NameMap<ToyStruct>,
    depth: usize,
) -> (r: Result<Vec<ResolvedType>, TypeResolveError>)
    ensures
        resolved_all_outcome(r) == resolve_all_in(
            field_types_of(views(fields@)),
            env@,
            structs@,
            depth as nat,
        ),
    decreases 2 * depth + 1, fields,
{
    let ghost all = field_types_of(views(fields@));
    let ghost whole = resolve_all_in(all, env@, structs@, depth as nat);
    let mut out: Vec<ResolvedType> = Vec::new();
    let mut i: usize = 0;
    assert(all.skip(0) =~= all);
    assert(whole is Ok ==> resolved_views(out@) + whole->Ok_0 =~= whole->Ok_0);
    while i < fields.len()
        invariant
            i <= fields@.len(),
            all == field_types_of(views(fields@)),
            whole == resolve_all_in(all, env@, structs@, depth as nat),
            whole == (match resolve_all_in(all.skip(i as int), env@, structs@, depth as nat) {
                Ok(rest) => Ok(resolved_views(out@) + rest),
                Err(e) => Err(e),
            }),
        decreases fields@.len() - i,
    {
        let ghost done = resolved_views(out@);
        assert(all.skip(i as int).drop_first() =~= all.skip(i + 1));
        assert(all.skip(i as int)[0] == fields@[i as int].rust_type.model());
        let one = match resolve_type_in(&fields[i].rust_type, env, structs, depth) {
            Ok(t) => t,
            Err(e) => {
                return Err(e);
            },
        };
        out.push(one);
        assert(resolved_views(out@) =~= done.push(out@.last().model()));
        assert(forall|rest: Seq<ResolvedTypeView>|
            #[trigger] (resolved_views(out@) + rest) =~= done + (seq![out@.last().model()] + rest));
        i += 1;
    }
    assert(all.skip(i as int).len() == 0);
    assert(resolved_views(out@) + Seq::<ResolvedTypeView>::empty() =~= resolved_views(out@));
    Ok(out)
}

/// Binds each type parameter to the type argument at its position.
pub fn bind_params(params: &Vec<String>, args: &Vec<ResolvedType>) -> (m: NameMap<ResolvedType>)
    ensures
        m@ == crate::names::bind_all(views(params@), resolved_views(args@)),
{
    let mut m: NameMap<ResolvedType> = NameMap::new();
    let mut i: usize = 0;
    assert(m@ =~= Seq::empty());
    assert(views(params@).take(0) =~= Seq::empty());
    while i < params.len()
        invariant
            i <= params@.len(),
            m@ == crate::names::bind_all(views(params@).take(i as int), resolved_views(args@)),
        decreases params@.len() - i,
    {
        assert(views(params@).take(i + 1).drop_last() =~= views(params@).take(i as int));
        assert(views(params@).take(i + 1).last() == params@[i as int]@);
        if i < args.len() {
            m.insert(params[i].clone(), args[i].duplicate());
        }
        i += 1;
    }
    assert(views(params@).take(params@.len() as int) =~= views(params@));
    m
}

/// The part of a symbol that stands for a type.
pub open spec fn mangled(t: ResolvedTypeView) -> Seq<char>
    decreases t,
{
    match t {
        ResolvedTypeView::I32 => "i32"@,
        ResolvedTypeView::I64 => "i64"@,
        ResolvedTypeView::F64 => "f64"@,
        ResolvedTypeView::Bool => "bool"@,
        ResolvedTypeView::Usize => "usize"@,
        ResolvedTypeView::Void => "void"@,
        ResolvedTypeView::Struct { name, type_args, field_types } => if type_args.len() == 0 {
            name
        } else {
            name + "_LT_"@ + mangled_args(type_args) + "_GT_"@
        },
        ResolvedTypeView::RustType { name, type_args } => if type_args.len() == 0 {
            name
        } else {
            name + "_LT_"@ + mangled_args(type_args) + "_GT_"@
        },
        ResolvedTypeView::Ref { inner } => "ref_"@ + mangled(*inner),
        ResolvedTypeView::TypeParam(p) => "P_"@ + p,
        ResolvedTypeView::Str => "str"@,
        ResolvedTypeView::ByteSlice => "byte_slice"@,
    }
}

/// The parts of a symbol that stand for some types, with underscores between
/// them.
pub open spec fn mangled_args(ts: Seq<ResolvedTypeView>) -> Seq<char>
    decreases ts,
{
    if ts.len() == 0 {
        Seq::empty()
    } else if ts.len() == 1 {
        mangled(ts[0])
    } else {
        mangled_args(ts.drop_last()) + "_"@ + mangled(ts.last())
    }
}

/// The part of a symbol that stands for a type.
pub fn resolved_type_to_mangled_name(t: &ResolvedType) -> (r: String)
    ensures
        r@ == mangled(t@),
    decreases t,
{
    match t {
        ResolvedType::I32 => owned("i32"),
        ResolvedType::I64 => owned("i64"),
        ResolvedType::F64 => owned("f64"),
        ResolvedType::Bool => owned("bool"),
        ResolvedType::Usize => owned("usize"),
        ResolvedType::Void => owned("void"),
        ResolvedType::Struct { name, type_args, .. } => {
            assert(resolved_views(type_args@).len() == type_args@.len());
            if type_args.len() == 0 {
                name.clone()
            } else {
                let args = mangle_args(type_args);
                let mut s = name.clone();
                s.append("_LT_");
                s.append(&args);
                s.append("_GT_");
                s
            }
        },
        ResolvedType::RustType { name, type_args } => {
            assert(resolved_views(type_args@).len() == type_args@.len());
            if type_args.len() == 0 {
                name.clone()
            } else {
                let args = mangle_args(type_args);
                let mut s = name.clone();
                s.append("_LT_");
                s.append(&args);
                s.append("_GT_");
                s
            }
        },
        ResolvedType::Ref { inner } => {
            let target = resolved_type_to_mangled_name(inner);
            let mut s = owned("ref_");
            s.append(&target);
            s
        },
        ResolvedType::TypeParam(p) => {
            let mut s = owned("P_");
            s.append(p);
            s
        },
        ResolvedType::Str => owned("str"),
        ResolvedType::ByteSlice => owned("byte_slice"),
    }
}

fn mangle_args(ts: &Vec<ResolvedType>) -> (r: String)
    ensures
        r@ == mangled_args(resolved_views(ts@)),
    decreases ts,
{
    let ghost all = resolved_views(ts@);
    let mut s = String::new();
    let mut i: usize = 0;
    assert(all.take(0) =~= Seq::empty());
    while i < ts.len()
        invariant
            i <= ts@.len(),
            all == resolved_views(ts@),
            s@ == mangled_args(all.take(i as int)),
        decreases ts@.len() - i,
    {
        assert(all.take(i + 1).drop_last() =~= all.take(i as int));
        assert(all.take(i + 1).last() == ts@[i as int].model());
        if i > 0 {
            s.append("_");
        }
        let one = resolved_type_to_mangled_name(&ts[i]);
        s.append(&one);
        assert(s@ =~= mangled_args(all.take(i + 1)));
        i += 1;
    }
    assert(all.take(ts@.len() as int) =~= all);
    s
}

/// The function of the stubs through which a method of the Rust side is
/// called that cannot be called itself.
pub open spec fn wrapper_name(owner: Seq<char>, method: Seq<char>) -> Option<Seq<char>> {
    if owner == "Option"@ && method == "unwrap"@ {
        Some("__toylang_option_unwrap"@)
    } else if owner == "Result"@ && method == "unwrap"@ {
        Some("__toylang_result_unwrap"@)
    } else {
        None
    }
}

/// The function of the stubs through which a method of the Rust side is
/// called that cannot be called itself.
pub fn wrapper_fn_name(owner: &str, method_name: &str) -> (r: Option<&'static str>)
    ensures
        (match r {
            Some(w) => Some(w@),
            None => None,
        }) == wrapper_name(owner@, method_name@),
{
    if same_text(owner, "Option") && same_text(method_name, "unwrap") {
        Some("__toylang_option_unwrap")
    } else if same_text(owner, "Result") && same_text(method_name, "unwrap") {
        Some("__toylang_result_unwrap")
    } else {
        None
    }
}

/// What a type refers to, through all its references.
pub open spec fn referent(t: ResolvedTypeView) -> ResolvedTypeView
    decreases t,
{
    match t {
        ResolvedTypeView::Ref { inner } => referent(*inner),
        _ => t,
    }
}

/// What a type refers to, through all its references.
pub fn strip_ref(t: &ResolvedType) -> (r: &ResolvedType)
    ensures
        r@ == referent(t@),
    decreases t,
{
    match t {
        ResolvedType::Ref { inner } => strip_ref(inner),
        _ => t,
    }
}

/// What remains of a type that was resolved: its source shape. Resolving and
/// dropping the fields again gives the type back.
pub proof fn lemma_demote_resolve(
    t: SourceTypeView,
    structs: Seq<(Seq<char>, ToyStructView)>,
    depth: nat,
)
    ensures
        resolve_in(t, Seq::empty(), structs, depth) matches Ok(r) ==> demote(r) == t,
    decreases t,
{
    match t {
        SourceTypeView::Ref { inner } => {
            lemma_demote_resolve(*inner, structs, depth);
        },
        SourceTypeView::RustType { name, type_args } => {
            lemma_demote_resolve_all(type_args, structs, depth);
        },
        SourceTypeView::StructRef { name, type_args } => {
            lemma_demote_resolve_all(type_args, structs, depth);
        },
        _ => {},
    }
}

/// The same for several types.
pub proof fn lemma_demote_resolve_all(
    ts: Seq<SourceTypeView>,
    structs: Seq<(Seq<char>, ToyStructView)>,
    depth: nat,
)
    ensures
        resolve_all_in(ts, Seq::empty(), structs, depth) matches Ok(rs) ==> demote_all(rs) == ts,
    decreases ts,
{
    if ts.len() == 0 {
        assert(demote_all(Seq::empty()) =~= ts);
    } else {
        lemma_demote_resolve(ts[0], structs, depth);
        lemma_demote_resolve_all(ts.drop_first(), structs, depth);
        if let Ok(rs) = resolve_all_in(ts, Seq::empty(), structs, depth) {
            let rest = resolve_all_in(ts.drop_first(), Seq::empty(), structs, depth)->Ok_0;
            assert(rs.drop_first() =~= rest);
            assert forall|i: int| 0 <= i < ts.len() implies demote_all(rs)[i] == ts[i] by {
                if i > 0 {
                    assert(demote_all(rest)[i - 1] == ts.drop_first()[i - 1]);
                    assert(rs[i] == rest[i - 1]);
                }
            }
            assert(demote_all(rs) =~= ts);
        }
    }
}

/// A resolved struct has a type for each field of its definition.
pub proof fn lemma_resolved_fields(
    ts: Seq<SourceTypeView>,
    env: Seq<(Seq<char>, ResolvedTypeView)>,
    structs: Seq<(Seq<char>, ToyStructView)>,
    depth: nat,
)
    ensures
        resolve_all_in(ts, env, structs, depth) matches Ok(rs) ==> rs.len() == ts.len(),
    decreases ts.len(),
{
    if ts.len() > 0 {
        lemma_resolved_fields(ts.drop_first(), env, structs, depth);
    }
}

} // verus!
