//! What has to hold of a crate before code is made for it, and what a
//! compilation tells others about it.
use crate::names::{put, NameMap};
use crate::oracle::{mangled, resolved_type_to_mangled_name};
use crate::sidecar::{deserialize_sidecar, serialize_sidecar, sidecar_bytes, sidecar_registry, SidecarError};
use crate::text::{duplicate_all, owned, same_text, text_lt, text_precedes, views, Duplicate};
use crate::toylang::answers::{RustAnswers, RustAnswersView};
use crate::toylang::callbacks_impl::{effective, effective_registry, stub_name, stub_name_of, Emission, EmissionView, NameSet};
use crate::toylang::registry::{
    with_struct_ids, DiscoveredTraitImplInstance, DiscoveredView, RegistryView, ToyField, ToyFieldView, ToyFunction, ToyFunctionView,
    ToyImpl, ToyImplMethodView, ToyImplView, ToyStructView, ToylangRegistry, TypeIdEntryView,
};
use crate::toylang::type_resolve::{resolve_fn_body, type_fn_body, TypeResolveError, TypeResolveErrorView, Typing};
use crate::toylang::typed_ast::{resolved_views, source_views, ResolvedType, ResolvedTypeView, SourceType, SourceTypeView};
use vstd::prelude::*;
use vstd::string::*;

verus! {

broadcast use {vstd::seq::group_seq_axioms, vstd::std_specs::vec::group_vec_axioms};

/// The names of the Rust types in a type, from the outside in and from left
/// to right.
pub open spec fn rust_type_names(t: SourceTypeView) -> Seq<Seq<char>>
    decreases t,
{
    match t {
        SourceTypeView::RustType { name, type_args } => seq![name] + rust_type_names_all(type_args),
        SourceTypeView::StructRef { name, type_args } => rust_type_names_all(type_args),
        SourceTypeView::Ref { inner } => rust_type_names(*inner),
        _ => Seq::empty(),
    }
}

/// The same for several types.
pub open spec fn rust_type_names_all(ts: Seq<SourceTypeView>) -> Seq<Seq<char>>
    decreases ts,
{
    if ts.len() == 0 {
        Seq::empty()
    } else {
        rust_type_names_all(ts.drop_last()) + rust_type_names(ts.last())
    }
}

/// The names of the Rust types in a type.
pub fn collect_rust_type_names(t: &SourceType) -> (r: Vec<String>)
    ensures
        views(r@) == rust_type_names(t@),
{
    let mut names: Vec<String> = Vec::new();
    add_rust_type_names(t, &mut names);
    assert(views(names@) =~= rust_type_names(t@));
    names
}

fn add_rust_type_names(t: &SourceType, names: &mut Vec<String>)
    ensures
        views(final(names)@) == views(old(names)@) + rust_type_names(t@),
    decreases t,
{
    let ghost before = views(names@);
    match t {
        SourceType::RustType { name, type_args } => {
            names.push(name.clone());
            assert(views(names@) =~= before.push(name@));
            add_rust_type_names_all(type_args, names);
        },
        SourceType::StructRef { type_args, .. } => {
            add_rust_type_names_all(type_args, names);
        },
        SourceType::Ref { inner } => {
            add_rust_type_names(inner, names);
        },
        _ => {},
    }
    assert(views(names@) =~= before + rust_type_names(t@));
}

fn add_rust_type_names_all(ts: &Vec<SourceType>, names: &mut Vec<String>)
    ensures
        views(final(names)@) == views(old(names)@) + rust_type_names_all(source_views(ts@)),
    decreases ts,
{
    let ghost before = views(names@);
    let ghost all = source_views(ts@);
    let mut i: usize = 0;
    assert(all.take(0) =~= Seq::empty());
    assert(views(names@) =~= before + rust_type_names_all(all.take(0)));
    while i < ts.len()
        invariant
            i <= ts@.len(),
            all == source_views(ts@),
            views(names@) == before + rust_type_names_all(all.take(i as int)),
        decreases ts@.len() - i,
    {
        add_rust_type_names(&ts[i], names);
        proof {
            assert(all.take(i + 1).drop_last() =~= all.take(i as int));
            assert(all.take(i + 1).last() == ts@[i as int].model());
            assert(views(names@) =~= before + rust_type_names_all(all.take(i + 1)));
        }
        i += 1;
    }
    assert(all.take(ts@.len() as int) =~= all);
}

/// What is wrong with a crate.
#[derive(Debug, PartialEq)]
pub enum ValidationError {
    /// Rust does not see a struct.
    StructNotFound { name: String },
    /// An exported function has no stub.
    NoStub { name: String, expected: String },
    /// A field has a Rust type that is not there.
    RustTypeNotFound { struct_name: String, field: String, rust_name: String },
    /// A function is declared and not defined in Rust.
    DeclaredNotFound { name: String },
    /// The body of a function has no types.
    Function { name: String, error: TypeResolveError },
    /// The body of a method has no types.
    Method { trait_name: String, self_type: String, method: String, error: TypeResolveError },
}

/// What a [`ValidationError`] says.
pub enum ValidationErrorView {
    StructNotFound { name: Seq<char> },
    NoStub { name: Seq<char>, expected: Seq<char> },
    RustTypeNotFound { struct_name: Seq<char>, field: Seq<char>, rust_name: Seq<char> },
    DeclaredNotFound { name: Seq<char> },
    Function { name: Seq<char>, error: TypeResolveErrorView },
    Method {
        trait_name: Seq<char>,
        self_type: Seq<char>,
        method: Seq<char>,
        error: TypeResolveErrorView,
    },
}

impl View for ValidationError {
    type V = ValidationErrorView;

    open spec fn view(&self) -> ValidationErrorView {
        match self {
            ValidationError::StructNotFound { name } => ValidationErrorView::StructNotFound {
                name: name@,
            },
            ValidationError::NoStub { name, expected } => ValidationErrorView::NoStub {
                name: name@,
                expected: expected@,
            },
            ValidationError::RustTypeNotFound { struct_name, field, rust_name } =>
                ValidationErrorView::RustTypeNotFound {
                struct_name: struct_name@,
                field: field@,
                rust_name: rust_name@,
            },
            ValidationError::DeclaredNotFound { name } => ValidationErrorView::DeclaredNotFound {
                name: name@,
            },
            ValidationError::Function { name, error } => ValidationErrorView::Function {
                name: name@,
                error: error@,
            },
            ValidationError::Method { trait_name, self_type, method, error } =>
                ValidationErrorView::Method {
                trait_name: trait_name@,
                self_type: self_type@,
                method: method@,
                error: error@,
            },
        }
    }
}

/// How an error reads. What follows the place of a type error is the error
/// itself, written out for debugging.
pub open spec fn error_text(e: ValidationErrorView) -> Seq<char> {
    match e {
        ValidationErrorView::StructNotFound { name } => "struct '"@ + name
            + "' not found in rustc (stub generation may have failed)"@,
        ValidationErrorView::NoStub { name, expected } => "function '"@ + name
            + "' has no stub in __lang_stubs (expected '"@ + expected + "')"@,
        ValidationErrorView::RustTypeNotFound { struct_name, field, rust_name } => "struct '"@
            + struct_name + "' field '"@ + field + "': Rust type '"@ + rust_name + "' not found"@,
        ValidationErrorView::DeclaredNotFound { name } => "extern function '"@ + name
            + "' not found in Rust code"@,
        ValidationErrorView::Function { name, error } => "function '"@ + name + "': "@,
        ValidationErrorView::Method { trait_name, self_type, method, error } => "impl "@
            + trait_name + " for "@ + self_type + "::"@ + method + ": "@,
    }
}

impl ValidationError {
    /// How the error reads, without the type error at its end.
    pub fn to_text(&self) -> (r: String)
        ensures
            r@ == error_text(self@),
    {
        match self {
            ValidationError::StructNotFound { name } => {
                let mut s = owned("struct '");
                s.append(name);
                s.append("' not found in rustc (stub generation may have failed)");
                s
            },
            ValidationError::NoStub { name, expected } => {
                let mut s = owned("function '");
                s.append(name);
                s.append("' has no stub in __lang_stubs (expected '");
                s.append(expected);
                s.append("')");
                s
            },
            ValidationError::RustTypeNotFound { struct_name, field, rust_name } => {
                let mut s = owned("struct '");
                s.append(struct_name);
                s.append("' field '");
                s.append(field);
                s.append("': Rust type '");
                s.append(rust_name);
                s.append("' not found");
                s
            },
            ValidationError::DeclaredNotFound { name } => {
                let mut s = owned("extern function '");
                s.append(name);
                s.append("' not found in Rust code");
                s
            },
            ValidationError::Function { name, .. } => {
                let mut s = owned("function '");
                s.append(name);
                s.append("': ");
                s
            },
            ValidationError::Method { trait_name, self_type, method, .. } => {
                let mut s = owned("impl ");
                s.append(trait_name);
                s.append(" for ");
                s.append(self_type);
                s.append("::");
                s.append(method);
                s.append(": ");
                s
            },
        }
    }
}

/// What Rust sees.
pub struct RustcFacts {
    pub structs: NameSet,
    pub stub_fns: NameSet,
    pub rust_types: NameSet,
    pub declared_fns: NameSet,
}

/// What a [`RustcFacts`] says.
pub struct RustcFactsView {
    pub structs: Seq<Seq<char>>,
    pub stub_fns: Seq<Seq<char>>,
    pub rust_types: Seq<Seq<char>>,
    pub declared_fns: Seq<Seq<char>>,
}

impl View for RustcFacts {
    type V = RustcFactsView;

    open spec fn view(&self) -> RustcFactsView {
        RustcFactsView {
            structs: self.structs@,
            stub_fns: self.stub_fns@,
            rust_types: self.rust_types@,
            declared_fns: self.declared_fns@,
        }
    }
}

/// The structs that Rust does not see.
pub open spec fn struct_errors(
    structs: Seq<(Seq<char>, ToyStructView)>,
    facts: RustcFactsView,
) -> Seq<ValidationErrorView>
    decreases structs.len(),
{
    if structs.len() == 0 {
        Seq::empty()
    } else {
        let before = struct_errors(structs.drop_last(), facts);
        if facts.structs.contains(structs.last().0) {
            before
        } else {
            before.push(ValidationErrorView::StructNotFound { name: structs.last().0 })
        }
    }
}

/// The exported functions without a stub.
pub open spec fn stub_errors(
    fs: Seq<(Seq<char>, ToyFunctionView)>,
    facts: RustcFactsView,
) -> Seq<ValidationErrorView>
    decreases fs.len(),
{
    if fs.len() == 0 {
        Seq::empty()
    } else {
        let before = stub_errors(fs.drop_last(), facts);
        let (name, f) = fs.last();
        if f.body is None || !f.is_export || facts.stub_fns.contains(stub_name(name)) {
            before
        } else {
            before.push(ValidationErrorView::NoStub { name, expected: stub_name(name) })
        }
    }
}

/// The Rust types of a field that are not there.
pub open spec fn name_errors(
    struct_name: Seq<char>,
    field: Seq<char>,
    names: Seq<Seq<char>>,
    facts: RustcFactsView,
) -> Seq<ValidationErrorView>
    decreases names.len(),
{
    if names.len() == 0 {
        Seq::empty()
    } else {
        let before = name_errors(struct_name, field, names.drop_last(), facts);
        if facts.rust_types.contains(names.last()) {
            before
        } else {
            before.push(
                ValidationErrorView::RustTypeNotFound {
                    struct_name,
                    field,
                    rust_name: names.last(),
                },
            )
        }
    }
}

/// The Rust types of some fields that are not there.
pub open spec fn field_errors(
    struct_name: Seq<char>,
    fields: Seq<ToyFieldView>,
    facts: RustcFactsView,
) -> Seq<ValidationErrorView>
    decreases fields.len(),
{
    if fields.len() == 0 {
        Seq::empty()
    } else {
        field_errors(struct_name, fields.drop_last(), facts) + name_errors(
            struct_name,
            fields.last().name,
            rust_type_names(fields.last().rust_type),
            facts,
        )
    }
}

/// The Rust types of all fields of some structs that are not there.
pub open spec fn type_errors(
    structs: Seq<(Seq<char>, ToyStructView)>,
    facts: RustcFactsView,
) -> Seq<ValidationErrorView>
    decreases structs.len(),
{
    if structs.len() == 0 {
        Seq::empty()
    } else {
        type_errors(structs.drop_last(), facts) + field_errors(
            structs.last().0,
            structs.last().1.fields,
            facts,
        )
    }
}

/// The declared functions that Rust does not define.
pub open spec fn declared_errors(
    fs: Seq<(Seq<char>, ToyFunctionView)>,
    facts: RustcFactsView,
) -> Seq<ValidationErrorView>
    decreases fs.len(),
{
    if fs.len() == 0 {
        Seq::empty()
    } else {
        let before = declared_errors(fs.drop_last(), facts);
        let (name, f) = fs.last();
        if f.body is Some || facts.declared_fns.contains(name) {
            before
        } else {
            before.push(ValidationErrorView::DeclaredNotFound { name })
        }
    }
}

/// What is wrong with the types of a body, if anything is. What waits for a
/// type parameter is not wrong. A `main` without a return type must end in
/// nothing.
pub open spec fn body_error(name: Seq<char>, f: ToyFunctionView, cx: Typing) -> Option<
    TypeResolveErrorView,
> {
    match f.body {
        None => None,
        Some(body) => match type_fn_body(f, body, cx) {
            Err(e) => if e is RustTypeDeferred {
                None
            } else {
                Some(e)
            },
            Ok(typed) => if name == "main"@ && f.return_ty is None {
                match typed.ret {
                    Some(e) => if e.ty is Void {
                        None
                    } else {
                        Some(TypeResolveErrorView::MainMustReturnVoid { got: e.ty })
                    },
                    None => None,
                }
            } else {
                None
            },
        },
    }
}

/// What is wrong with the bodies of some functions.
pub open spec fn function_errors(fs: Seq<(Seq<char>, ToyFunctionView)>, cx: Typing) -> Seq<
    ValidationErrorView,
>
    decreases fs.len(),
{
    if fs.len() == 0 {
        Seq::empty()
    } else {
        let before = function_errors(fs.drop_last(), cx);
        match body_error(fs.last().0, fs.last().1, cx) {
            None => before,
            Some(error) => before.push(
                ValidationErrorView::Function { name: fs.last().0, error },
            ),
        }
    }
}

/// What is wrong with the bodies of some methods.
pub open spec fn method_errors(imp: ToyImplView, ms: Seq<ToyImplMethodView>, cx: Typing) -> Seq<
    ValidationErrorView,
>
    decreases ms.len(),
{
    if ms.len() == 0 {
        Seq::empty()
    } else {
        let before = method_errors(imp, ms.drop_last(), cx);
        match body_error(""@, ms.last().func, cx) {
            None => before,
            Some(error) => before.push(
                ValidationErrorView::Method {
                    trait_name: imp.trait_name,
                    self_type: imp.self_type_name,
                    method: ms.last().name,
                    error,
                },
            ),
        }
    }
}

/// What is wrong with the methods of some trait impls.
pub open spec fn impl_errors(imps: Seq<ToyImplView>, cx: Typing) -> Seq<ValidationErrorView>
    decreases imps.len(),
{
    if imps.len() == 0 {
        Seq::empty()
    } else {
        impl_errors(imps.drop_last(), cx) + method_errors(
            imps.last(),
            imps.last().methods,
            cx,
        )
    }
}

/// What is wrong with a crate.
pub open spec fn validation_errors(
    local: RegistryView,
    upstreams: Seq<(Seq<char>, RegistryView)>,
    answers: RustAnswersView,
    facts: RustcFactsView,
) -> Seq<ValidationErrorView> {
    let cx = Typing { registry: effective(local, upstreams), answers };
    struct_errors(local.structs, facts) + stub_errors(local.functions, facts) + type_errors(
        local.structs,
        facts,
    ) + declared_errors(local.functions, facts) + function_errors(local.functions, cx)
        + impl_errors(local.trait_impls, cx)
}

/// Notes what is wrong.
struct Validator<'a> {
    local: &'a ToylangRegistry,
    merged: &'a ToylangRegistry,
    answers: &'a RustAnswers,
    facts: &'a RustcFacts,
}

fn push_error(errors: &mut Vec<ValidationError>, e: ValidationError)
    ensures
        views(final(errors)@) == views(old(errors)@).push(e@),
{
    let ghost before = views(errors@);
    let ghost view = e@;
    errors.push(e);
    assert(views(errors@) =~= before.push(view));
}

impl<'a> Validator<'a> {
    spec fn cx(&self) -> Typing {
        Typing { registry: self.merged@, answers: self.answers@ }
    }

    fn check_structs(&self, errors: &mut Vec<ValidationError>)
        ensures
            views(final(errors)@) == views(old(errors)@) + struct_errors(
                self.local@.structs,
                self.facts@,
            ),
    {
        let ghost before = views(errors@);
        let ghost all = self.local@.structs;
        let n = self.local.structs.len();
        let mut i: usize = 0;
        assert(all.take(0) =~= Seq::empty());
        assert(views(errors@) =~= before + struct_errors(all.take(0), self.facts@));
        while i < n
            invariant
                i <= n,
                n == all.len(),
                all == self.local.structs@,
                views(errors@) == before + struct_errors(all.take(i as int), self.facts@),
            decreases n - i,
        {
            let name = self.local.structs.key_at(i);
            if !self.facts.structs.contains(name) {
                push_error(errors, ValidationError::StructNotFound { name: name.clone() });
            }
            proof {
                assert(all.take(i + 1).drop_last() =~= all.take(i as int));
                assert(all.take(i + 1).last() == all[i as int]);
                assert(views(errors@) =~= before + struct_errors(all.take(i + 1), self.facts@));
            }
            i += 1;
        }
        assert(all.take(n as int) =~= all);
    }

    fn check_stubs(&self, errors: &mut Vec<ValidationError>)
        ensures
            views(final(errors)@) == views(old(errors)@) + stub_errors(
                self.local@.functions,
                self.facts@,
            ),
    {
        let ghost before = views(errors@);
        let ghost all = self.local@.functions;
        let n = self.local.functions.len();
        let mut i: usize = 0;
        assert(all.take(0) =~= Seq::empty());
        assert(views(errors@) =~= before + stub_errors(all.take(0), self.facts@));
        while i < n
            invariant
                i <= n,
                n == all.len(),
                all == self.local.functions@,
                views(errors@) == before + stub_errors(all.take(i as int), self.facts@),
            decreases n - i,
        {
            let name = self.local.functions.key_at(i);
            let f = self.local.functions.value_at(i);
            if f.body.is_some() && f.is_export {
                let expected = stub_name_of(name);
                if !self.facts.stub_fns.contains(&expected) {
                    push_error(errors, ValidationError::NoStub { name: name.clone(), expected });
                }
            }
            proof {
                assert(all.take(i + 1).drop_last() =~= all.take(i as int));
                assert(all.take(i + 1).last() == all[i as int]);
                assert(views(errors@) =~= before + stub_errors(all.take(i + 1), self.facts@));
            }
            i += 1;
        }
        assert(all.take(n as int) =~= all);
    }

    fn check_names(
        &self,
        struct_name: &String,
        field: &String,
        names: &Vec<String>,
        errors: &mut Vec<ValidationError>,
    )
        ensures
            views(final(errors)@) == views(old(errors)@) + name_errors(
                struct_name@,
                field@,
                views(names@),
                self.facts@,
            ),
    {
        let ghost before = views(errors@);
        let ghost all = views(names@);
        let mut i: usize = 0;
        assert(all.take(0) =~= Seq::empty());
        assert(views(errors@) =~= before + name_errors(
            struct_name@,
            field@,
            all.take(0),
            self.facts@,
        ));
        while i < names.len()
            invariant
                i <= names@.len(),
                all == views(names@),
                views(errors@) == before + name_errors(
                    struct_name@,
                    field@,
                    all.take(i as int),
                    self.facts@,
                ),
            decreases names@.len() - i,
        {
            if !self.facts.rust_types.contains(&names[i]) {
                push_error(
                    errors,
                    ValidationError::RustTypeNotFound {
                        struct_name: struct_name.clone(),
                        field: field.clone(),
                        rust_name: names[i].clone(),
                    },
                );
            }
            proof {
                assert(all.take(i + 1).drop_last() =~= all.take(i as int));
                assert(all.take(i + 1).last() == names@[i as int]@);
                assert(views(errors@) =~= before + name_errors(
                    struct_name@,
                    field@,
                    all.take(i + 1),
                    self.facts@,
                ));
            }
            i += 1;
        }
        assert(all.take(names@.len() as int) =~= all);
    }

    fn check_fields(
        &self,
        struct_name: &String,
        fields: &Vec<ToyField>,
        errors: &mut Vec<ValidationError>,
    )
        ensures
            views(final(errors)@) == views(old(errors)@) + field_errors(
                struct_name@,
                views(fields@),
                self.facts@,
            ),
    {
        let ghost before = views(errors@);
        let ghost all = views(fields@);
        let mut i: usize = 0;
        assert(all.take(0) =~= Seq::empty());
        assert(views(errors@) =~= before + field_errors(struct_name@, all.take(0), self.facts@));
        while i < fields.len()
            invariant
                i <= fields@.len(),
                all == views(fields@),
                views(errors@) == before + field_errors(
                    struct_name@,
                    all.take(i as int),
                    self.facts@,
                ),
            decreases fields@.len() - i,
        {
            let names = collect_rust_type_names(&fields[i].rust_type);
            self.check_names(struct_name, &fields[i].name, &names, errors);
            proof {
                assert(all.take(i + 1).drop_last() =~= all.take(i as int));
                assert(all.take(i + 1).last() == fields@[i as int]@);
                assert(views(errors@) =~= before + field_errors(
                    struct_name@,
                    all.take(i + 1),
                    self.facts@,
                ));
            }
            i += 1;
        }
        assert(all.take(fields@.len() as int) =~= all);
    }

    fn check_types(&self, errors: &mut Vec<ValidationError>)
        ensures
            views(final(errors)@) == views(old(errors)@) + type_errors(
                self.local@.structs,
                self.facts@,
            ),
    {
        let ghost before = views(errors@);
        let ghost all = self.local@.structs;
        let n = self.local.structs.len();
        let mut i: usize = 0;
        assert(all.take(0) =~= Seq::empty());
        assert(views(errors@) =~= before + type_errors(all.take(0), self.facts@));
        while i < n
            invariant
                i <= n,
                n == all.len(),
                all == self.local.structs@,
                views(errors@) == before + type_errors(all.take(i as int), self.facts@),
            decreases n - i,
        {
            self.check_fields(
                self.local.structs.key_at(i),
                &self.local.structs.value_at(i).fields,
                errors,
            );
            proof {
                assert(all.take(i + 1).drop_last() =~= all.take(i as int));
                assert(all.take(i + 1).last() == all[i as int]);
                assert(views(errors@) =~= before + type_errors(all.take(i + 1), self.facts@));
            }
            i += 1;
        }
        assert(all.take(n as int) =~= all);
    }

    fn check_declared(&self, errors: &mut Vec<ValidationError>)
        ensures
            views(final(errors)@) == views(old(errors)@) + declared_errors(
                self.local@.functions,
                self.facts@,
            ),
    {
        let ghost before = views(errors@);
        let ghost all = self.local@.functions;
        let n = self.local.functions.len();
        let mut i: usize = 0;
        assert(all.take(0) =~= Seq::empty());
        assert(views(errors@) =~= before + declared_errors(all.take(0), self.facts@));
        while i < n
            invariant
                i <= n,
                n == all.len(),
                all == self.local.functions@,
                views(errors@) == before + declared_errors(all.take(i as int), self.facts@),
            decreases n - i,
        {
            let name = self.local.functions.key_at(i);
            let f = self.local.functions.value_at(i);
            if f.body.is_none() && !self.facts.declared_fns.contains(name) {
                push_error(errors, ValidationError::DeclaredNotFound { name: name.clone() });
            }
            proof {
                assert(all.take(i + 1).drop_last() =~= all.take(i as int));
                assert(all.take(i + 1).last() == all[i as int]);
                assert(views(errors@) =~= before + declared_errors(all.take(i + 1), self.facts@));
            }
            i += 1;
        }
        assert(all.take(n as int) =~= all);
    }

    fn body_error(&self, name: &str, f: &ToyFunction) -> (r: Option<TypeResolveError>)
        ensures
            (match r {
                Some(e) => Some(e@),
                None => None,
            }) == body_error(name@, f@, self.cx()),
    {
        if f.body.is_none() {
            return None;
        }
        match resolve_fn_body(self.merged, f, self.answers) {
            Err(e) => if e.is_deferred() {
                None
            } else {
                Some(e)
            },
            Ok(typed) => if same_text(name, "main") && f.return_ty.is_none() {
                match &typed.ret {
                    None => None,
                    Some(e) => match &e.ty {
                        ResolvedType::Void => None,
                        _ => Some(
                            TypeResolveError::MainMustReturnVoid { got: e.ty.duplicate() },
                        ),
                    },
                }
            } else {
                None
            },
        }
    }

    fn check_functions(&self, errors: &mut Vec<ValidationError>)
        ensures
            views(final(errors)@) == views(old(errors)@) + function_errors(
                self.local@.functions,
                self.cx(),
            ),
    {
        let ghost before = views(errors@);
        let ghost all = self.local@.functions;
        let n = self.local.functions.len();
        let mut i: usize = 0;
        assert(all.take(0) =~= Seq::empty());
        assert(views(errors@) =~= before + function_errors(all.take(0), self.cx()));
        while i < n
            invariant
                i <= n,
                n == all.len(),
                all == self.local.functions@,
                views(errors@) == before + function_errors(all.take(i as int), self.cx()),
            decreases n - i,
        {
            let name = self.local.functions.key_at(i);
            match self.body_error(name, self.local.functions.value_at(i)) {
                None => {},
                Some(error) => {
                    push_error(errors, ValidationError::Function { name: name.clone(), error });
                },
            }
            proof {
                assert(all.take(i + 1).drop_last() =~= all.take(i as int));
                assert(all.take(i + 1).last() == all[i as int]);
                assert(views(errors@) =~= before + function_errors(all.take(i + 1), self.cx()));
            }
            i += 1;
        }
        assert(all.take(n as int) =~= all);
    }

    fn check_methods(&self, imp: &ToyImpl, errors: &mut Vec<ValidationError>)
        ensures
            views(final(errors)@) == views(old(errors)@) + method_errors(
                imp@,
                imp@.methods,
                self.cx(),
            ),
    {
        let ghost before = views(errors@);
        let ghost all = imp@.methods;
        let mut i: usize = 0;
        assert(all.take(0) =~= Seq::empty());
        assert(views(errors@) =~= before + method_errors(imp@, all.take(0), self.cx()));
        while i < imp.methods.len()
            invariant
                i <= imp.methods@.len(),
                all == views(imp.methods@),
                views(errors@) == before + method_errors(imp@, all.take(i as int), self.cx()),
            decreases imp.methods@.len() - i,
        {
            match self.body_error("", &imp.methods[i].func) {
                None => {},
                Some(error) => {
                    push_error(
                        errors,
                        ValidationError::Method {
                            trait_name: imp.trait_name.clone(),
                            self_type: imp.self_type_name.clone(),
                            method: imp.methods[i].name.clone(),
                            error,
                        },
                    );
                },
            }
            proof {
                assert(all.take(i + 1).drop_last() =~= all.take(i as int));
                assert(all.take(i + 1).last() == imp.methods@[i as int]@);
                assert(views(errors@) =~= before + method_errors(imp@, all.take(i + 1), self.cx()));
            }
            i += 1;
        }
        assert(all.take(imp.methods@.len() as int) =~= all);
    }

    fn check_impls(&self, errors: &mut Vec<ValidationError>)
        ensures
            views(final(errors)@) == views(old(errors)@) + impl_errors(
                self.local@.trait_impls,
                self.cx(),
            ),
    {
        let ghost before = views(errors@);
        let ghost all = self.local@.trait_impls;
        let mut i: usize = 0;
        assert(all.take(0) =~= Seq::empty());
        assert(views(errors@) =~= before + impl_errors(all.take(0), self.cx()));
        while i < self.local.trait_impls.len()
            invariant
                i <= self.local.trait_impls@.len(),
                all == views(self.local.trait_impls@),
                views(errors@) == before + impl_errors(all.take(i as int), self.cx()),
            decreases self.local.trait_impls@.len() - i,
        {
            self.check_methods(&self.local.trait_impls[i], errors);
            proof {
                assert(all.take(i + 1).drop_last() =~= all.take(i as int));
                assert(all.take(i + 1).last() == self.local.trait_impls@[i as int]@);
                assert(views(errors@) =~= before + impl_errors(all.take(i + 1), self.cx()));
            }
            i += 1;
        }
        assert(all.take(self.local.trait_impls@.len() as int) =~= all);
    }
}

/// Finds what is wrong with a crate: first what Rust does not see, then what
/// has no types.
pub fn validate(
    local: &ToylangRegistry,
    upstreams: &NameMap<ToylangRegistry>,
    answers: &RustAnswers,
    facts: &RustcFacts,
) -> (errors: Vec<ValidationError>)
    ensures
        views(errors@) == validation_errors(local@, upstreams@, answers@, facts@),
{
    let merged = effective_registry(local, upstreams);
    let v = Validator { local, merged: &merged, answers, facts };
    let mut errors: Vec<ValidationError> = Vec::new();
    assert(views(errors@) =~= Seq::empty());
    v.check_structs(&mut errors);
    assert(views(errors@) =~= struct_errors(local@.structs, facts@));
    v.check_stubs(&mut errors);
    v.check_types(&mut errors);
    v.check_declared(&mut errors);
    v.check_functions(&mut errors);
    v.check_impls(&mut errors);
    errors
}

/// The names and ids that a crate adds to what is known of toylang.
#[derive(Debug, PartialEq)]
pub struct UniverseNames {
    pub type_names: Vec<String>,
    pub fn_names: Vec<String>,
    pub typeids: Vec<u64>,
}

/// The names of some entries.
pub open spec fn entry_names<W>(entries: Seq<(Seq<char>, W)>) -> Seq<Seq<char>> {
    Seq::new(entries.len(), |i: int| entries[i].0)
}

/// The names of the functions with a body; `main` also by the name that the
/// stubs give it.
pub open spec fn body_names(fs: Seq<(Seq<char>, ToyFunctionView)>) -> Seq<Seq<char>>
    decreases fs.len(),
{
    if fs.len() == 0 {
        Seq::empty()
    } else {
        let before = body_names(fs.drop_last());
        if fs.last().1.body is None {
            before
        } else if fs.last().0 == "main"@ {
            before.push(fs.last().0).push("__toylang_main"@)
        } else {
            before.push(fs.last().0)
        }
    }
}

/// The ids of some entries.
pub open spec fn entry_ids(entries: Seq<TypeIdEntryView>) -> Seq<u64> {
    Seq::new(entries.len(), |i: int| entries[i].id)
}

/// The names and ids that a crate adds to what is known of toylang.
pub fn universe_names(registry: &ToylangRegistry) -> (r: UniverseNames)
    ensures
        views(r.type_names@) == entry_names(registry@.structs),
        views(r.fn_names@) == body_names(registry@.functions),
        r.typeids@ == entry_ids(registry@.typeid_table),
{
    let mut type_names: Vec<String> = Vec::new();
    let n = registry.structs.len();
    let mut i: usize = 0;
    while i < n
        invariant
            i == type_names@.len(),
            i <= n,
            n == registry.structs@.len(),
            forall|j: int| 0 <= j < i ==> (#[trigger] type_names@[j])@ == registry.structs@[j].0,
        decreases n - i,
    {
        type_names.push(registry.structs.key_at(i).clone());
        i += 1;
    }
    assert(views(type_names@) =~= entry_names(registry@.structs));
    let ghost all = registry@.functions;
    let mut fn_names: Vec<String> = Vec::new();
    let m = registry.functions.len();
    let mut k: usize = 0;
    assert(all.take(0) =~= Seq::empty());
    assert(views(fn_names@) =~= body_names(all.take(0)));
    while k < m
        invariant
            k <= m,
            m == all.len(),
            all == registry.functions@,
            views(fn_names@) == body_names(all.take(k as int)),
        decreases m - k,
    {
        let ghost before = views(fn_names@);
        let name = registry.functions.key_at(k);
        if registry.functions.value_at(k).body.is_some() {
            fn_names.push(name.clone());
            assert(views(fn_names@) =~= before.push(name@));
            if same_text(name, "main") {
                let ghost with_name = views(fn_names@);
                fn_names.push(owned("__toylang_main"));
                assert(views(fn_names@) =~= with_name.push("__toylang_main"@));
            }
        }
        assert(all.take(k + 1).drop_last() =~= all.take(k as int));
        assert(all.take(k + 1).last() == all[k as int]);
        k += 1;
    }
    assert(all.take(m as int) =~= all);
    let mut typeids: Vec<u64> = Vec::new();
    let t = registry.typeid_table.len();
    let mut l: usize = 0;
    while l < t
        invariant
            l == typeids@.len(),
            l <= t,
            t == registry.typeid_table@.len(),
            forall|j: int| 0 <= j < l ==> (#[trigger] typeids@[j]) == registry.typeid_table@[j].id,
        decreases t - l,
    {
        typeids.push(registry.typeid_table.entry_at(l).id);
        l += 1;
    }
    assert(typeids@ =~= entry_ids(registry@.typeid_table));
    UniverseNames { type_names, fn_names, typeids }
}

/// The type arguments of an instance as part of the key by which instances
/// are put in order.
pub open spec fn args_key(ts: Seq<ResolvedTypeView>) -> Seq<char>
    decreases ts.len(),
{
    if ts.len() == 0 {
        Seq::empty()
    } else if ts.len() == 1 {
        mangled(ts[0])
    } else {
        args_key(ts.drop_last()) + "__"@ + mangled(ts.last())
    }
}

fn make_args_key(ts: &Vec<ResolvedType>) -> (r: String)
    ensures
        r@ == args_key(resolved_views(ts@)),
{
    let ghost all = resolved_views(ts@);
    let mut s = String::new();
    let mut i: usize = 0;
    assert(all.take(0) =~= Seq::empty());
    while i < ts.len()
        invariant
            i <= ts@.len(),
            all == resolved_views(ts@),
            s@ == args_key(all.take(i as int)),
        decreases ts@.len() - i,
    {
        assert(all.take(i + 1).drop_last() =~= all.take(i as int));
        assert(all.take(i + 1).last() == ts@[i as int].model());
        if i > 0 {
            s.append("__");
        }
        let one = resolved_type_to_mangled_name(&ts[i]);
        s.append(&one);
        assert(s@ =~= args_key(all.take(i + 1)));
        i += 1;
    }
    assert(all.take(ts@.len() as int) =~= all);
    s
}

/// Whether an instance precedes another: by its type, then by its type
/// arguments, its trait and its method.
pub open spec fn discovery_precedes(a: DiscoveredView, b: DiscoveredView) -> bool {
    if a.self_type_name != b.self_type_name {
        text_lt(a.self_type_name, b.self_type_name)
    } else if args_key(a.concrete_args) != args_key(b.concrete_args) {
        text_lt(args_key(a.concrete_args), args_key(b.concrete_args))
    } else if a.trait_name != b.trait_name {
        text_lt(a.trait_name, b.trait_name)
    } else {
        text_lt(a.method_name, b.method_name)
    }
}

fn comes_before(a: &DiscoveredTraitImplInstance, b: &DiscoveredTraitImplInstance) -> (r: bool)
    ensures
        r == discovery_precedes(a@, b@),
{
    if !same_text(&a.self_type_name, &b.self_type_name) {
        return text_precedes(&a.self_type_name, &b.self_type_name);
    }
    let x = make_args_key(&a.concrete_args);
    let y = make_args_key(&b.concrete_args);
    if !same_text(&x, &y) {
        return text_precedes(&x, &y);
    }
    if !same_text(&a.trait_name, &b.trait_name) {
        return text_precedes(&a.trait_name, &b.trait_name);
    }
    text_precedes(&a.method_name, &b.method_name)
}

/// Instances in order, with one more at its place, behind its equals.
pub open spec fn insert_discovery(ds: Seq<DiscoveredView>, d: DiscoveredView) -> Seq<DiscoveredView>
    decreases ds.len(),
{
    if ds.len() > 0 && discovery_precedes(d, ds.last()) {
        insert_discovery(ds.drop_last(), d).push(ds.last())
    } else {
        ds.push(d)
    }
}

/// Instances in order. Equal ones keep their order.
pub open spec fn sorted_discoveries(ds: Seq<DiscoveredView>) -> Seq<DiscoveredView>
    decreases ds.len(),
{
    if ds.len() == 0 {
        ds
    } else {
        insert_discovery(sorted_discoveries(ds.drop_last()), ds.last())
    }
}

proof fn lemma_insert_discovery_at(ds: Seq<DiscoveredView>, d: DiscoveredView, at: int)
    requires
        0 <= at <= ds.len(),
        forall|i: int| at <= i < ds.len() ==> discovery_precedes(d, #[trigger] ds[i]),
        at > 0 ==> !discovery_precedes(d, ds[at - 1]),
    ensures
        insert_discovery(ds, d) == ds.insert(at, d),
    decreases ds.len() - at,
{
    if at == ds.len() {
        assert(ds.insert(at, d) =~= ds.push(d));
    } else {
        assert(discovery_precedes(d, ds.last()));
        lemma_insert_discovery_at(ds.drop_last(), d, at);
        assert(ds.insert(at, d) =~= ds.drop_last().insert(at, d).push(ds.last()));
    }
}

/// Puts instances in order.
pub fn sort_discoveries(ds: &Vec<DiscoveredTraitImplInstance>) -> (r: Vec<
    DiscoveredTraitImplInstance,
>)
    ensures
        views(r@) == sorted_discoveries(views(ds@)),
{
    let ghost all = views(ds@);
    let mut r: Vec<DiscoveredTraitImplInstance> = Vec::new();
    let mut i: usize = 0;
    assert(all.take(0) =~= Seq::empty());
    assert(views(r@) =~= sorted_discoveries(all.take(0)));
    while i < ds.len()
        invariant
            i <= ds@.len(),
            all == views(ds@),
            views(r@) == sorted_discoveries(all.take(i as int)),
        decreases ds@.len() - i,
    {
        let ghost done = views(r@);
        let ghost view = ds@[i as int]@;
        let mut at: usize = r.len();
        while at > 0 && comes_before(&ds[i], &r[at - 1])
            invariant
                at <= r@.len(),
                i < ds@.len(),
                done == views(r@),
                view == ds@[i as int]@,
                forall|k: int| at <= k < r@.len() ==> discovery_precedes(view, #[trigger] done[k]),
            decreases at,
        {
            assert(done[at - 1] == r@[at - 1]@);
            at -= 1;
        }
        proof {
            if at > 0 {
                assert(done[at - 1] == r@[at - 1]@);
            }
            lemma_insert_discovery_at(done, view, at as int);
            assert(all.take(i + 1).drop_last() =~= all.take(i as int));
            assert(all.take(i + 1).last() == view);
        }
        r.insert(at, ds[i].duplicate());
        assert(views(r@) =~= done.insert(at as int, view));
        i += 1;
    }
    assert(all.take(ds@.len() as int) =~= all);
    r
}

/// The registry that a crate ships: with the instances that were seen in use,
/// in order, and with the ids of its structs.
pub open spec fn shipped_registry(local: RegistryView, seen: Seq<DiscoveredView>) -> RegistryView {
    RegistryView {
        discovered_trait_impl_instances: sorted_discoveries(
            local.discovered_trait_impl_instances + seen,
        ),
        typeid_table: with_struct_ids(local.typeid_table, local.structs),
        ..local
    }
}

/// The registry that a crate ships.
pub fn build_shipped_registry(
    local: &ToylangRegistry,
    seen: &Vec<DiscoveredTraitImplInstance>,
) -> (r: ToylangRegistry)
    ensures
        r@ == shipped_registry(local@, views(seen@)),
{
    let mut r = local.duplicate();
    let mut all = duplicate_all(&local.discovered_trait_impl_instances);
    let mut more = duplicate_all(seen);
    let ghost a = all@;
    let ghost b = more@;
    all.append(&mut more);
    assert(views(all@) =~= views(a) + views(b));
    r.discovered_trait_impl_instances = sort_discoveries(&all);
    r.populate_typeid_table();
    r
}

/// The sidecar that a crate ships.
pub fn build_shipped_sidecar(
    local: &ToylangRegistry,
    seen: &Vec<DiscoveredTraitImplInstance>,
) -> (r: Result<Vec<u8>, SidecarError>)
    ensures
        r is Ok,
        r->Ok_0@ == sidecar_bytes(shipped_registry(local@, views(seen@))),
{
    let shipped = build_shipped_registry(local, seen);
    serialize_sidecar(&shipped)
}

/// What happens during a compilation, for the log.
#[derive(Clone, Debug, PartialEq)]
pub enum CallbackLog {
    MonomorphizeType { name: String },
    CollectGenericRustDeps { name: String, args_fingerprint: String },
    NotifyConcreteEntryPoint { name: String },
    AfterRustAnalysis,
    OnSkyLibLoaded { crate_name: String, n_structs: usize, n_functions: usize },
    OracleCrossCrateProbe { resolved: usize, total: usize },
    Phase2RoundTripProbe {
        opaque_def_id_found: bool,
        encoded_typeid: u64,
        decoded_typeid: Option<u64>,
    },
    GenerateAndCompile,
}

/// What a compilation remembers.
pub struct ToylangState {
    pub log: Vec<CallbackLog>,
    pub emission: Emission,
    /// The registries of the crates that this one depends on, by their names.
    pub upstream_registries: NameMap<ToylangRegistry>,
}

/// What a compilation is about.
pub struct ToylangCallbacks {
    pub registry: ToylangRegistry,
    /// Whether the final binary is compiled, rather than the crate itself.
    pub is_user_bin_compile: bool,
}

impl ToylangState {
    /// The state at the start of a compilation.
    pub fn new() -> (r: Self)
        ensures
            r.log@.len() == 0,
            r.emission@ == (EmissionView { instances: Seq::empty(), walked: Seq::empty() }),
            r.upstream_registries@.len() == 0,
    {
        let r = ToylangState {
            log: Vec::new(),
            emission: Emission {
                toylang_instances: Vec::new(),
                walked_entry_points: NameSet::new(),
            },
            upstream_registries: NameMap::new(),
        };
        assert(r.emission@.instances =~= Seq::empty());
        r
    }

    /// Takes in the sidecar of a crate that this one depends on. A sidecar
    /// that cannot be read leaves everything as it was.
    pub fn on_sky_lib_loaded(&mut self, crate_name: &str, bytes: &[u8]) -> (r: Result<
        (),
        SidecarError,
    >)
        ensures
            match sidecar_registry(bytes@) {
                Ok(registry) => {
                    &&& r is Ok
                    &&& final(self).upstream_registries@ == put(
                        old(self).upstream_registries@,
                        crate_name@,
                        registry,
                    )
                    &&& final(self).log@.len() == old(self).log@.len() + 1
                    &&& final(self).log@.drop_last() == old(self).log@
                    &&& final(self).log@.last() matches CallbackLog::OnSkyLibLoaded {
                        crate_name: name,
                        n_structs,
                        n_functions,
                    } && name@ == crate_name@ && n_structs == registry.structs.len() && n_functions
                        == registry.functions.len()
                },
                Err(e) => {
                    &&& r is Err
                    &&& r->Err_0@ == e
                    &&& final(self).upstream_registries@ == old(self).upstream_registries@
                    &&& final(self).log@ == old(self).log@
                },
            },
            final(self).emission == old(self).emission,
    {
        match deserialize_sidecar(bytes) {
            Err(e) => Err(e),
            Ok(registry) => {
                let ghost before = self.log@;
                let entry = CallbackLog::OnSkyLibLoaded {
                    crate_name: owned(crate_name),
                    n_structs: registry.structs.len(),
                    n_functions: registry.functions.len(),
                };
                self.log.push(entry);
                assert(self.log@.drop_last() =~= before);
                self.upstream_registries.insert(owned(crate_name), registry);
                Ok(())
            },
        }
    }
}

/// What marks the log entries of a compilation.
pub open spec fn log_tag(is_user_bin_compile: bool) -> Seq<char> {
    if is_user_bin_compile {
        "[compile=userbin] "@
    } else {
        "[compile=rlib] "@
    }
}

/// Log entries, each on a line of its own behind the tag.
pub open spec fn log_text(tag: Seq<char>, entries: Seq<Seq<char>>) -> Seq<char>
    decreases entries.len(),
{
    if entries.len() == 0 {
        "\n"@
    } else if entries.len() == 1 {
        tag + entries[0] + "\n"@
    } else {
        log_text(tag, entries.drop_last()) + tag + entries.last() + "\n"@
    }
}

/// Log entries, each on a line of its own behind the tag of the compilation.
pub fn render_log(is_user_bin_compile: bool, entries: &Vec<String>) -> (r: String)
    ensures
        r@ == log_text(log_tag(is_user_bin_compile), views(entries@)),
{
    let tag = if is_user_bin_compile {
        "[compile=userbin] "
    } else {
        "[compile=rlib] "
    };
    if entries.len() == 0 {
        return owned("\n");
    }
    let ghost all = views(entries@);
    let mut s = owned(tag);
    s.append(&entries[0]);
    s.append("\n");
    let mut i: usize = 1;
    assert(all.take(1).len() == 1);
    assert(s@ =~= log_text(tag@, all.take(1)));
    while i < entries.len()
        invariant
            1 <= i <= entries@.len(),
            all == views(entries@),
            s@ == log_text(tag@, all.take(i as int)),
        decreases entries@.len() - i,
    {
        assert(all.take(i + 1).drop_last() =~= all.take(i as int));
        assert(all.take(i + 1).last() == entries@[i as int]@);
        s.append(tag);
        s.append(&entries[i]);
        s.append("\n");
        i += 1;
    }
    assert(all.take(entries@.len() as int) =~= all);
    s
}

} // verus!
