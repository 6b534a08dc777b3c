//! What the type resolution asks about the Rust side, and the answers that it
//! is given.
use crate::oracle::{context_text, UnresolvedRustType, UnresolvedView};
use crate::text::{owned, same_text, views};
use crate::toylang::type_resolve::{TypeResolveError, TypeResolveErrorView};
use crate::toylang::typed_ast::{clone_source_types, same_source_types, source_views, SourceType, SourceTypeView};
use vstd::prelude::*;

verus! {

broadcast use {vstd::seq::group_seq_axioms, vstd::std_specs::vec::group_vec_axioms};

/// A question about the Rust side.
#[derive(Debug, PartialEq)]
pub enum RustQuery {
    /// The return type of a method of a type, of a trait (`__trait::` and its
    /// name) or of a free function (the empty name).
    MethodReturn { owner: String, method: String, type_args: Vec<SourceType> },
    /// The parameter types of the same.
    ParamTypes { owner: String, method: String, type_args: Vec<SourceType> },
    /// Whether a name is that of an imported trait.
    IsTrait { name: String },
    /// Whether the stubs hold a function of that name.
    HasWrapper { name: String },
}

/// What a [`RustQuery`] says.
pub enum RustQueryView {
    MethodReturn { owner: Seq<char>, method: Seq<char>, type_args: Seq<SourceTypeView> },
    ParamTypes { owner: Seq<char>, method: Seq<char>, type_args: Seq<SourceTypeView> },
    IsTrait { name: Seq<char> },
    HasWrapper { name: Seq<char> },
}

impl View for RustQuery {
    type V = RustQueryView;

    open spec fn view(&self) -> RustQueryView {
        match self {
            RustQuery::MethodReturn { owner, method, type_args } => RustQueryView::MethodReturn {
                owner: owner@,
                method: method@,
                type_args: source_views(type_args@),
            },
            RustQuery::ParamTypes { owner, method, type_args } => RustQueryView::ParamTypes {
                owner: owner@,
                method: method@,
                type_args: source_views(type_args@),
            },
            RustQuery::IsTrait { name } => RustQueryView::IsTrait { name: name@ },
            RustQuery::HasWrapper { name } => RustQueryView::HasWrapper { name: name@ },
        }
    }
}

/// The answer to a question for a return type.
#[derive(Debug, PartialEq)]
pub struct MethodReturnAnswer {
    pub owner: String,
    pub method: String,
    pub type_args: Vec<SourceType>,
    pub answer: Result<SourceType, UnresolvedRustType>,
}

/// The answer to a question for parameter types. `None` says that there is no
/// such function.
#[derive(Debug, PartialEq)]
pub struct ParamTypesAnswer {
    pub owner: String,
    pub method: String,
    pub type_args: Vec<SourceType>,
    pub answer: Result<Option<Vec<SourceType>>, UnresolvedRustType>,
}

/// The answer to the question whether a name is that of an imported trait.
#[derive(Debug, PartialEq)]
pub struct TraitAnswer {
    pub name: String,
    pub is_trait: bool,
}

/// The answer to the question whether the stubs hold a function.
#[derive(Debug, PartialEq)]
pub struct WrapperAnswer {
    pub name: String,
    pub is_there: bool,
}

/// What is known of the Rust side.
#[derive(Debug, PartialEq)]
pub struct RustAnswers {
    pub method_returns: Vec<MethodReturnAnswer>,
    pub param_types: Vec<ParamTypesAnswer>,
    pub traits: Vec<TraitAnswer>,
    pub wrappers: Vec<WrapperAnswer>,
}

/// What a [`MethodReturnAnswer`] says.
pub struct MethodReturnAnswerView {
    pub owner: Seq<char>,
    pub method: Seq<char>,
    pub type_args: Seq<SourceTypeView>,
    pub answer: Result<SourceTypeView, UnresolvedView>,
}

/// What a [`ParamTypesAnswer`] says.
pub struct ParamTypesAnswerView {
    pub owner: Seq<char>,
    pub method: Seq<char>,
    pub type_args: Seq<SourceTypeView>,
    pub answer: Result<Option<Seq<SourceTypeView>>, UnresolvedView>,
}

/// What a [`TraitAnswer`] says.
pub struct TraitAnswerView {
    pub name: Seq<char>,
    pub is_trait: bool,
}

/// What a [`WrapperAnswer`] says.
pub struct WrapperAnswerView {
    pub name: Seq<char>,
    pub is_there: bool,
}

/// What a [`RustAnswers`] says.
pub struct RustAnswersView {
    pub method_returns: Seq<MethodReturnAnswerView>,
    pub param_types: Seq<ParamTypesAnswerView>,
    pub traits: Seq<TraitAnswerView>,
    pub wrappers: Seq<WrapperAnswerView>,
}

impl View for MethodReturnAnswer {
    type V = MethodReturnAnswerView;

    open spec fn view(&self) -> MethodReturnAnswerView {
        MethodReturnAnswerView {
            owner: self.owner@,
            method: self.method@,
            type_args: source_views(self.type_args@),
            answer: match self.answer {
                Ok(t) => Ok(t@),
                Err(u) => Err(u@),
            },
        }
    }
}

impl View for ParamTypesAnswer {
    type V = ParamTypesAnswerView;

    open spec fn view(&self) -> ParamTypesAnswerView {
        ParamTypesAnswerView {
            owner: self.owner@,
            method: self.method@,
            type_args: source_views(self.type_args@),
            answer: match self.answer {
                Ok(Some(ts)) => Ok(Some(source_views(ts@))),
                Ok(None) => Ok(None),
                Err(u) => Err(u@),
            },
        }
    }
}

impl View for TraitAnswer {
    type V = TraitAnswerView;

    open spec fn view(&self) -> TraitAnswerView {
        TraitAnswerView { name: self.name@, is_trait: self.is_trait }
    }
}

impl View for WrapperAnswer {
    type V = WrapperAnswerView;

    open spec fn view(&self) -> WrapperAnswerView {
        WrapperAnswerView { name: self.name@, is_there: self.is_there }
    }
}

impl View for RustAnswers {
    type V = RustAnswersView;

    open spec fn view(&self) -> RustAnswersView {
        RustAnswersView {
            method_returns: views(self.method_returns@),
            param_types: views(self.param_types@),
            traits: views(self.traits@),
            wrappers: views(self.wrappers@),
        }
    }
}

/// The error that an unresolved Rust type turns into.
pub open spec fn unresolved_error(u: UnresolvedView) -> TypeResolveErrorView {
    if u.context is Deferred {
        TypeResolveErrorView::RustTypeDeferred { context: context_text(u.context) }
    } else {
        TypeResolveErrorView::RustTypeNotImported {
            name: u.name,
            context: context_text(u.context),
        }
    }
}

impl TypeResolveError {
    /// The error that an unresolved Rust type turns into.
    pub fn from_unresolved(u: &UnresolvedRustType) -> (r: TypeResolveError)
        ensures
            r@ == unresolved_error(u@),
    {
        if u.is_deferred() {
            TypeResolveError::RustTypeDeferred { context: u.context.to_text() }
        } else {
            TypeResolveError::RustTypeNotImported {
                name: u.name.clone(),
                context: u.context.to_text(),
            }
        }
    }
}

/// The first answer to the question for a return type.
pub open spec fn find_return(
    answers: Seq<MethodReturnAnswerView>,
    owner: Seq<char>,
    method: Seq<char>,
    type_args: Seq<SourceTypeView>,
) -> Option<Result<SourceTypeView, UnresolvedView>>
    decreases answers.len(),
{
    if answers.len() == 0 {
        None
    } else if answers[0].owner == owner && answers[0].method == method && answers[0].type_args
        == type_args {
        Some(answers[0].answer)
    } else {
        find_return(answers.drop_first(), owner, method, type_args)
    }
}

/// The first answer to the question for parameter types.
pub open spec fn find_param_types(
    answers: Seq<ParamTypesAnswerView>,
    owner: Seq<char>,
    method: Seq<char>,
    type_args: Seq<SourceTypeView>,
) -> Option<Result<Option<Seq<SourceTypeView>>, UnresolvedView>>
    decreases answers.len(),
{
    if answers.len() == 0 {
        None
    } else if answers[0].owner == owner && answers[0].method == method && answers[0].type_args
        == type_args {
        Some(answers[0].answer)
    } else {
        find_param_types(answers.drop_first(), owner, method, type_args)
    }
}

/// The first answer to the question whether a name is that of a trait.
pub open spec fn find_trait(answers: Seq<TraitAnswerView>, name: Seq<char>) -> Option<bool>
    decreases answers.len(),
{
    if answers.len() == 0 {
        None
    } else if answers[0].name == name {
        Some(answers[0].is_trait)
    } else {
        find_trait(answers.drop_first(), name)
    }
}

/// The first answer to the question whether the stubs hold a function.
pub open spec fn find_wrapper_answer(answers: Seq<WrapperAnswerView>, name: Seq<char>) -> Option<
    bool,
>
    decreases answers.len(),
{
    if answers.len() == 0 {
        None
    } else if answers[0].name == name {
        Some(answers[0].is_there)
    } else {
        find_wrapper_answer(answers.drop_first(), name)
    }
}

/// The return type of a function on the Rust side, as far as it is known.
pub open spec fn ask_return(
    answers: RustAnswersView,
    owner: Seq<char>,
    method: Seq<char>,
    type_args: Seq<SourceTypeView>,
) -> Result<SourceTypeView, TypeResolveErrorView> {
    match find_return(answers.method_returns, owner, method, type_args) {
        None => Err(
            TypeResolveErrorView::AnswerPending {
                query: RustQueryView::MethodReturn { owner, method, type_args },
            },
        ),
        Some(Ok(t)) => Ok(t),
        Some(Err(u)) => Err(unresolved_error(u)),
    }
}

/// The parameter types of a function on the Rust side, as far as they are known.
pub open spec fn ask_param_types(
    answers: RustAnswersView,
    owner: Seq<char>,
    method: Seq<char>,
    type_args: Seq<SourceTypeView>,
) -> Result<Option<Seq<SourceTypeView>>, TypeResolveErrorView> {
    match find_param_types(answers.param_types, owner, method, type_args) {
        None => Err(
            TypeResolveErrorView::AnswerPending {
                query: RustQueryView::ParamTypes { owner, method, type_args },
            },
        ),
        Some(Ok(ts)) => Ok(ts),
        Some(Err(u)) => Err(unresolved_error(u)),
    }
}

/// Whether a name is that of an imported trait, as far as it is known.
pub open spec fn ask_trait(answers: RustAnswersView, name: Seq<char>) -> Result<
    bool,
    TypeResolveErrorView,
> {
    match find_trait(answers.traits, name) {
        None => Err(
            TypeResolveErrorView::AnswerPending { query: RustQueryView::IsTrait { name } },
        ),
        Some(b) => Ok(b),
    }
}

/// Whether the stubs hold a function, as far as it is known.
pub open spec fn ask_has_wrapper(answers: RustAnswersView, name: Seq<char>) -> Result<
    bool,
    TypeResolveErrorView,
> {
    match find_wrapper_answer(answers.wrappers, name) {
        None => Err(
            TypeResolveErrorView::AnswerPending { query: RustQueryView::HasWrapper { name } },
        ),
        Some(b) => Ok(b),
    }
}

impl RustAnswers {
    /// No answer at all.
    pub fn new() -> (r: Self)
        ensures
            r@.method_returns.len() == 0,
            r@.param_types.len() == 0,
            r@.traits.len() == 0,
            r@.wrappers.len() == 0,
    {
        RustAnswers {
            method_returns: Vec::new(),
            param_types: Vec::new(),
            traits: Vec::new(),
            wrappers: Vec::new(),
        }
    }

    /// The return type of a function on the Rust side.
    pub fn method_return(&self, owner: &str, method: &str, type_args: &Vec<SourceType>) -> (r: Result<
        &SourceType,
        TypeResolveError,
    >)
        ensures
            (match r {
                Ok(t) => Ok(t@),
                Err(e) => Err(e@),
            }) == ask_return(self@, owner@, method@, source_views(type_args@)),
    {
        let ghost all = self@.method_returns;
        let ghost args = source_views(type_args@);
        let mut i: usize = 0;
        assert(all.skip(0) =~= all);
        while i < self.method_returns.len()
            invariant
                i <= self.method_returns@.len(),
                all == views(self.method_returns@),
                args == source_views(type_args@),
                find_return(all, owner@, method@, args) == find_return(
                    all.skip(i as int),
                    owner@,
                    method@,
                    args,
                ),
            decreases self.method_returns@.len() - i,
        {
            assert(all.skip(i as int).drop_first() =~= all.skip(i + 1));
            assert(all.skip(i as int)[0] == self.method_returns@[i as int]@);
            let entry = &self.method_returns[i];
            if same_text(&entry.owner, owner) && same_text(&entry.method, method)
                && same_source_types(&entry.type_args, type_args) {
                return match &entry.answer {
                    Ok(t) => Ok(t),
                    Err(u) => Err(TypeResolveError::from_unresolved(u)),
                };
            }
            i += 1;
        }
        Err(
            TypeResolveError::AnswerPending {
                query: RustQuery::MethodReturn {
                    owner: owned(owner),
                    method: owned(method),
                    type_args: clone_source_types(type_args),
                },
            },
        )
    }

    /// The parameter types of a function on the Rust side.
    pub fn param_types_of(&self, owner: &str, method: &str, type_args: &Vec<SourceType>) -> (r: Result<
        &Option<Vec<SourceType>>,
        TypeResolveError,
    >)
        ensures
            (match r {
                Ok(Some(ts)) => Ok(Some(source_views(ts@))),
                Ok(None) => Ok(None),
                Err(e) => Err(e@),
            }) == ask_param_types(self@, owner@, method@, source_views(type_args@)),
    {
        let ghost all = self@.param_types;
        let ghost args = source_views(type_args@);
        let mut i: usize = 0;
        assert(all.skip(0) =~= all);
        while i < self.param_types.len()
            invariant
                i <= self.param_types@.len(),
                all == views(self.param_types@),
                args == source_views(type_args@),
                find_param_types(all, owner@, method@, args) == find_param_types(
                    all.skip(i as int),
                    owner@,
                    method@,
                    args,
                ),
            decreases self.param_types@.len() - i,
        {
            assert(all.skip(i as int).drop_first() =~= all.skip(i + 1));
            assert(all.skip(i as int)[0] == self.param_types@[i as int]@);
            let entry = &self.param_types[i];
            if same_text(&entry.owner, owner) && same_text(&entry.method, method)
                && same_source_types(&entry.type_args, type_args) {
                return match &entry.answer {
                    Ok(ts) => Ok(ts),
                    Err(u) => Err(TypeResolveError::from_unresolved(u)),
                };
            }
            i += 1;
        }
        Err(
            TypeResolveError::AnswerPending {
                query: RustQuery::ParamTypes {
                    owner: owned(owner),
                    method: owned(method),
                    type_args: clone_source_types(type_args),
                },
            },
        )
    }

    /// Whether a name is that of an imported trait.
    pub fn is_rust_trait(&self, name: &str) -> (r: Result<bool, TypeResolveError>)
        ensures
            (match r {
                Ok(b) => Ok(b),
                Err(e) => Err(e@),
            }) == ask_trait(self@, name@),
    {
        let ghost all = self@.traits;
        let mut i: usize = 0;
        assert(all.skip(0) =~= all);
        while i < self.traits.len()
            invariant
                i <= self.traits@.len(),
                all == views(self.traits@),
                find_trait(all, name@) == find_trait(all.skip(i as int), name@),
            decreases self.traits@.len() - i,
        {
            assert(all.skip(i as int).drop_first() =~= all.skip(i + 1));
            assert(all.skip(i as int)[0] == self.traits@[i as int]@);
            if same_text(&self.traits[i].name, name) {
                return Ok(self.traits[i].is_trait);
            }
            i += 1;
        }
        Err(TypeResolveError::AnswerPending { query: RustQuery::IsTrait { name: owned(name) } })
    }

    /// Whether the stubs hold a function.
    pub fn has_wrapper(&self, name: &str) -> (r: Result<bool, TypeResolveError>)
        ensures
            (match r {
                Ok(b) => Ok(b),
                Err(e) => Err(e@),
            }) == ask_has_wrapper(self@, name@),
    {
        let ghost all = self@.wrappers;
        let mut i: usize = 0;
        assert(all.skip(0) =~= all);
        while i < self.wrappers.len()
            invariant
                i <= self.wrappers@.len(),
                all == views(self.wrappers@),
                find_wrapper_answer(all, name@) == find_wrapper_answer(all.skip(i as int), name@),
            decreases self.wrappers@.len() - i,
        {
            assert(all.skip(i as int).drop_first() =~= all.skip(i + 1));
            assert(all.skip(i as int)[0] == self.wrappers@[i as int]@);
            if same_text(&self.wrappers[i].name, name) {
                return Ok(self.wrappers[i].is_there);
            }
            i += 1;
        }
        Err(TypeResolveError::AnswerPending { query: RustQuery::HasWrapper { name: owned(name) } })
    }
}

} // verus!
