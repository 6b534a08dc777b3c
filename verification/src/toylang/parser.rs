//! From tokens to definitions.
use crate::names::{find, put, NameMap};
use crate::text::{has_prefix, owned, same_text, starts_with, views};
use crate::toylang::ast::{
    expr_views, field_views, stmt_views, BinOp, Block, BlockView, Expr, ExprView, Stmt, StmtView,
};
use crate::toylang::lexer::{classed, classify, lex, lex_classed, token_text, well_ended, LexStop, LexStopView, Token, TokenView};
use crate::toylang::registry::{
    empty_registry, struct_pairs, synthesize_accessor_pairs, RegistryView, ToyField, ToyFieldView, ToyFunction, ToyFunctionView, ToyParam, ToyParamView, ToyStruct, ToyStructView,
    ToylangRegistry, TypeIdTable,
};
use crate::toylang::typed_ast::{source_views, SourceType, SourceTypeView};
use vstd::prelude::*;
use vstd::string::*;

verus! {

broadcast use {vstd::seq::group_seq_axioms, vstd::std_specs::vec::group_vec_axioms};

/// Why a text is no program.
#[derive(Debug, PartialEq)]
pub enum ParseError {
    UnknownIntSuffix { suffix: String },
    UnexpectedCharacter { ch: char },
    UnexpectedToken { expected: String, got: String },
    UnexpectedTopLevelToken { got: String },
    ExpectedExpression { got: String },
    ExpectedType { got: String },
    ExpectedPointerQualifier { got: String },
    DuplicateStruct { name: String },
    DuplicateFunction { name: String },
    ReservedName { name: String },
}

/// What a [`ParseError`] says.
pub enum ParseErrorView {
    UnknownIntSuffix { suffix: Seq<char> },
    UnexpectedCharacter { ch: char },
    UnexpectedToken { expected: Seq<char>, got: Seq<char> },
    UnexpectedTopLevelToken { got: Seq<char> },
    ExpectedExpression { got: Seq<char> },
    ExpectedType { got: Seq<char> },
    ExpectedPointerQualifier { got: Seq<char> },
    DuplicateStruct { name: Seq<char> },
    DuplicateFunction { name: Seq<char> },
    ReservedName { name: Seq<char> },
}

impl View for ParseError {
    type V = ParseErrorView;

    open spec fn view(&self) -> ParseErrorView {
        match self {
            ParseError::UnknownIntSuffix { suffix } => ParseErrorView::UnknownIntSuffix {
                suffix: suffix@,
            },
            ParseError::UnexpectedCharacter { ch } => ParseErrorView::UnexpectedCharacter {
                ch: *ch,
            },
            ParseError::UnexpectedToken { expected, got } => ParseErrorView::UnexpectedToken {
                expected: expected@,
                got: got@,
            },
            ParseError::UnexpectedTopLevelToken { got } =>
                ParseErrorView::UnexpectedTopLevelToken { got: got@ },
            ParseError::ExpectedExpression { got } => ParseErrorView::ExpectedExpression {
                got: got@,
            },
            ParseError::ExpectedType { got } => ParseErrorView::ExpectedType { got: got@ },
            ParseError::ExpectedPointerQualifier { got } =>
                ParseErrorView::ExpectedPointerQualifier { got: got@ },
            ParseError::DuplicateStruct { name } => ParseErrorView::DuplicateStruct {
                name: name@,
            },
            ParseError::DuplicateFunction { name } => ParseErrorView::DuplicateFunction {
                name: name@,
            },
            ParseError::ReservedName { name } => ParseErrorView::ReservedName { name: name@ },
        }
    }
}

/// The names that a type or an expression may mention.
pub struct NamesView {
    pub type_params: Seq<Seq<char>>,
    pub struct_names: Seq<Seq<char>>,
}

/// The position behind `pos`; the last position has none behind it.
pub open spec fn after(ts: Seq<TokenView>, pos: int) -> int {
    if pos + 1 < ts.len() {
        pos + 1
    } else {
        pos
    }
}

/// Whether `to` is a position behind `from`.
pub open spec fn ahead(ts: Seq<TokenView>, from: int, to: int) -> bool {
    0 <= from < to < ts.len()
}

/// The position behind an optional comma.
pub open spec fn after_comma(ts: Seq<TokenView>, pos: int) -> int {
    if ts[pos] is Comma {
        after(ts, pos)
    } else {
        pos
    }
}

/// The identifier at `pos`, and the position behind it.
pub open spec fn take_ident(ts: Seq<TokenView>, pos: int) -> Result<(Seq<char>, int), ParseErrorView> {
    match ts[pos] {
        TokenView::Ident(s) => Ok((s, after(ts, pos))),
        t => Err(
            ParseErrorView::UnexpectedToken { expected: "identifier"@, got: token_text(t) },
        ),
    }
}

/// The position behind the token `expected`, which must stand at `pos`.
pub open spec fn take(ts: Seq<TokenView>, pos: int, expected: TokenView) -> Result<int, ParseErrorView> {
    if ts[pos] == expected {
        Ok(after(ts, pos))
    } else {
        Err(
            ParseErrorView::UnexpectedToken {
                expected: token_text(expected),
                got: token_text(ts[pos]),
            },
        )
    }
}

/// The type that a name without type arguments stands for.
pub open spec fn named_type(s: Seq<char>, names: NamesView) -> SourceTypeView {
    if s == "i32"@ {
        SourceTypeView::I32
    } else if s == "i64"@ {
        SourceTypeView::I64
    } else if s == "f64"@ {
        SourceTypeView::F64
    } else if s == "bool"@ {
        SourceTypeView::Bool
    } else if s == "usize"@ {
        SourceTypeView::Usize
    } else if names.type_params.contains(s) {
        SourceTypeView::TypeParam(s)
    } else {
        applied_type(s, Seq::empty(), names)
    }
}

/// The type that a name with type arguments stands for.
pub open spec fn applied_type(
    s: Seq<char>,
    type_args: Seq<SourceTypeView>,
    names: NamesView,
) -> SourceTypeView {
    if names.struct_names.contains(s) {
        SourceTypeView::StructRef { name: s, type_args }
    } else {
        SourceTypeView::RustType { name: s, type_args }
    }
}

/// The type at `pos`, and the position behind it.
///
/// Here and below, a step that does not go forward has no meaning: every
/// step of a sequence of tokens that ends well goes forward.
pub open spec fn p_type(ts: Seq<TokenView>, pos: int, names: NamesView) -> Result<
    (SourceTypeView, int),
    ParseErrorView,
>
    decreases ts.len() - pos, 1int,
{
    match ts[pos] {
        TokenView::Ampersand => {
            let p = after(ts, pos);
            let q = if ts[p] == TokenView::Ident("mut"@) {
                after(ts, p)
            } else {
                p
            };
            if ahead(ts, pos, q) {
                match p_type(ts, q, names) {
                    Err(e) => Err(e),
                    Ok((t, r)) => Ok((SourceTypeView::Ref { inner: Box::new(t) }, r)),
                }
            } else {
                arbitrary()
            }
        },
        TokenView::Star => match take_ident(ts, after(ts, pos)) {
            Err(e) => Err(e),
            Ok((qualifier, q)) => if qualifier != "const"@ && qualifier != "mut"@ {
                Err(ParseErrorView::ExpectedPointerQualifier { got: qualifier })
            } else if ahead(ts, pos, q) {
                match p_type(ts, q, names) {
                    Err(e) => Err(e),
                    Ok((t, r)) => Ok((SourceTypeView::Ref { inner: Box::new(t) }, r)),
                }
            } else {
                arbitrary()
            },
        },
        TokenView::Ident(s) => {
            let p = after(ts, pos);
            if ts[p] is LAngle {
                if ahead(ts, pos, p) {
                    match p_type_args(ts, p, names) {
                        Err(e) => Err(e),
                        Ok((args, q)) => Ok((applied_type(s, args, names), q)),
                    }
                } else {
                    arbitrary()
                }
            } else {
                Ok((named_type(s, names), p))
            }
        },
        t => Err(ParseErrorView::ExpectedType { got: token_text(t) }),
    }
}

/// The type argument list at `pos`, with its angle brackets.
pub open spec fn p_type_args(ts: Seq<TokenView>, pos: int, names: NamesView) -> Result<
    (Seq<SourceTypeView>, int),
    ParseErrorView,
>
    decreases ts.len() - pos, 3int,
{
    match take(ts, pos, TokenView::LAngle) {
        Err(e) => Err(e),
        Ok(p) => if ahead(ts, pos, p) {
            match p_types(ts, p, names) {
                Err(e) => Err(e),
                Ok((args, q)) => match take(ts, q, TokenView::RAngle) {
                    Err(e) => Err(e),
                    Ok(r) => Ok((args, r)),
                },
            }
        } else {
            arbitrary()
        },
    }
}

/// The types from `pos` on, up to a closing angle bracket.
pub open spec fn p_types(ts: Seq<TokenView>, pos: int, names: NamesView) -> Result<
    (Seq<SourceTypeView>, int),
    ParseErrorView,
>
    decreases ts.len() - pos, 2int,
{
    if ts[pos] is RAngle || ts[pos] is Eof {
        Ok((Seq::empty(), pos))
    } else {
        match p_type(ts, pos, names) {
            Err(e) => Err(e),
            Ok((first, p)) => {
                let q = after_comma(ts, p);
                if ahead(ts, pos, q) {
                    match p_types(ts, q, names) {
                        Err(e) => Err(e),
                        Ok((rest, r)) => Ok((seq![first] + rest, r)),
                    }
                } else {
                    arbitrary()
                }
            },
        }
    }
}

/// What a step from a position gives in a longer sequence of tokens, which has
/// `n` more in front.
pub open spec fn moved<T>(r: Result<(T, int), ParseErrorView>, n: nat) -> Result<
    (T, int),
    ParseErrorView,
> {
    match r {
        Ok((t, p)) => Ok((t, p + n)),
        Err(e) => Err(e),
    }
}

proof fn lemma_type_moved(pre: Seq<TokenView>, ts: Seq<TokenView>, pos: int, names: NamesView)
    requires
        well_ended(ts),
        0 <= pos < ts.len(),
    ensures
        p_type(pre + ts, pos + pre.len(), names) == moved(p_type(ts, pos, names), pre.len()),
        p_type(ts, pos, names) matches Ok((_, r)) ==> pos < r < ts.len(),
    decreases ts.len() - pos, 1int,
{
    let all = pre + ts;
    let n = pre.len() as int;
    lemma_token_moved(pre, ts, pos);
    match ts[pos] {
        TokenView::Ampersand => {
            let p = after(ts, pos);
            assert(p == pos + 1);
            lemma_token_moved(pre, ts, p);
            let q = if ts[p] == TokenView::Ident("mut"@) {
                after(ts, p)
            } else {
                p
            };
            lemma_type_moved(pre, ts, q, names);
        },
        TokenView::Star => {
            let p = after(ts, pos);
            assert(p == pos + 1);
            lemma_token_moved(pre, ts, p);
            if let Ok((qualifier, q)) = take_ident(ts, p) {
                assert(q == p + 1);
                lemma_type_moved(pre, ts, q, names);
            }
        },
        TokenView::Ident(s) => {
            let p = after(ts, pos);
            assert(p == pos + 1);
            lemma_token_moved(pre, ts, p);
            if ts[p] is LAngle {
                lemma_type_args_moved(pre, ts, p, names);
            }
        },
        _ => {},
    }
}

proof fn lemma_token_moved(pre: Seq<TokenView>, ts: Seq<TokenView>, pos: int)
    requires
        well_ended(ts),
        0 <= pos < ts.len(),
    ensures
        (pre + ts)[pos + pre.len()] == ts[pos],
        after(pre + ts, pos + pre.len()) == after(ts, pos) + pre.len(),
        !(ts[pos] is Eof) ==> after(ts, pos) == pos + 1 < ts.len(),
{
}

proof fn lemma_type_args_moved(pre: Seq<TokenView>, ts: Seq<TokenView>, pos: int, names: NamesView)
    requires
        well_ended(ts),
        0 <= pos < ts.len(),
    ensures
        p_type_args(pre + ts, pos + pre.len(), names) == moved(
            p_type_args(ts, pos, names),
            pre.len(),
        ),
        p_type_args(ts, pos, names) matches Ok((_, r)) ==> pos < r < ts.len(),
    decreases ts.len() - pos, 3int,
{
    lemma_token_moved(pre, ts, pos);
    if let Ok(p) = take(ts, pos, TokenView::LAngle) {
        lemma_types_moved(pre, ts, p, names);
        if let Ok((args, q)) = p_types(ts, p, names) {
            lemma_token_moved(pre, ts, q);
        }
    }
}

proof fn lemma_types_moved(pre: Seq<TokenView>, ts: Seq<TokenView>, pos: int, names: NamesView)
    requires
        well_ended(ts),
        0 <= pos < ts.len(),
    ensures
        p_types(pre + ts, pos + pre.len(), names) == moved(p_types(ts, pos, names), pre.len()),
        p_types(ts, pos, names) matches Ok((_, r)) ==> pos <= r < ts.len(),
    decreases ts.len() - pos, 2int,
{
    lemma_token_moved(pre, ts, pos);
    if !(ts[pos] is RAngle || ts[pos] is Eof) {
        lemma_type_moved(pre, ts, pos, names);
        if let Ok((first, p)) = p_type(ts, pos, names) {
            lemma_token_moved(pre, ts, p);
            let q = after_comma(ts, p);
            lemma_types_moved(pre, ts, q, names);
        }
    }
}

/// Whether tokens are what stands in front of the type that is referred to: a
/// reference, shared or not, or a raw pointer.
pub open spec fn refers(pre: Seq<TokenView>) -> bool {
    ||| pre == seq![TokenView::Ampersand]
    ||| pre == seq![TokenView::Ampersand, TokenView::Ident("mut"@)]
    ||| pre == seq![TokenView::Star, TokenView::Ident("const"@)]
    ||| pre == seq![TokenView::Star, TokenView::Ident("mut"@)]
}

/// References, shared or not, and raw pointers are all the same type: that of
/// a reference to what stands behind. A type that is called `mut` cannot be
/// told from the word behind `&`.
pub proof fn lemma_references_alike(
    pre: Seq<TokenView>,
    ts: Seq<TokenView>,
    names: NamesView,
)
    requires
        refers(pre),
        well_ended(ts),
        pre.len() == 1 ==> ts[0] != TokenView::Ident("mut"@),
    ensures
        p_type(pre + ts, 0, names) == (match p_type(ts, 0, names) {
            Ok((t, r)) => Ok((SourceTypeView::Ref { inner: Box::new(t) }, r + pre.len())),
            Err(e) => Err(e),
        }),
{
    let all = pre + ts;
    lemma_type_moved(pre, ts, 0, names);
    assert(all[pre.len() as int] == ts[0]);
    assert(all[0] == pre[0]);
    if pre.len() == 2 {
        assert(all[1] == pre[1]);
    }
    reveal_strlit("mut");
    reveal_strlit("const");
}

/// The binary operator that a token is on some level of precedence: `||` on
/// the fifth, `&&` on the fourth, comparisons on the third, sums on the
/// second, products on the first.
pub open spec fn op_on(level: nat, t: TokenView) -> Option<BinOp> {
    match t {
        TokenView::PipePipe => if level == 5 {
            Some(BinOp::Or)
        } else {
            None
        },
        TokenView::AmpAmp => if level == 4 {
            Some(BinOp::And)
        } else {
            None
        },
        TokenView::EqEq => if level == 3 {
            Some(BinOp::Eq)
        } else {
            None
        },
        TokenView::BangEq => if level == 3 {
            Some(BinOp::Ne)
        } else {
            None
        },
        TokenView::Lt => if level == 3 {
            Some(BinOp::Lt)
        } else {
            None
        },
        TokenView::LAngleEq => if level == 3 {
            Some(BinOp::Le)
        } else {
            None
        },
        TokenView::Gt => if level == 3 {
            Some(BinOp::Gt)
        } else {
            None
        },
        TokenView::RAngleEq => if level == 3 {
            Some(BinOp::Ge)
        } else {
            None
        },
        TokenView::Plus => if level == 2 {
            Some(BinOp::Add)
        } else {
            None
        },
        TokenView::Minus => if level == 2 {
            Some(BinOp::Sub)
        } else {
            None
        },
        TokenView::Star => if level == 1 {
            Some(BinOp::Mul)
        } else {
            None
        },
        TokenView::Slash => if level == 1 {
            Some(BinOp::Div)
        } else {
            None
        },
        _ => None,
    }
}

/// The expression at `pos` whose operators are on the given level of
/// precedence or bind more tightly.
pub open spec fn p_binary(ts: Seq<TokenView>, pos: int, level: nat, names: NamesView) -> Result<
    (ExprView, int),
    ParseErrorView,
>
    decreases ts.len() - pos, 10 + level,
{
    if level == 0 {
        p_postfix(ts, pos, names)
    } else {
        match p_binary(ts, pos, (level - 1) as nat, names) {
            Err(e) => Err(e),
            Ok((left, p)) => if ahead(ts, pos, p) {
                p_binary_rest(ts, p, level, left, names)
            } else {
                arbitrary()
            },
        }
    }
}

/// What follows `left` on a level of precedence. Operators of one level group
/// to the left.
pub open spec fn p_binary_rest(
    ts: Seq<TokenView>,
    pos: int,
    level: nat,
    left: ExprView,
    names: NamesView,
) -> Result<(ExprView, int), ParseErrorView>
    decreases ts.len() - pos, 0int,
{
    match op_on(level, ts[pos]) {
        None => Ok((left, pos)),
        Some(op) => {
            let p = after(ts, pos);
            if ahead(ts, pos, p) && level > 0 {
                match p_binary(ts, p, (level - 1) as nat, names) {
                    Err(e) => Err(e),
                    Ok((right, q)) => if ahead(ts, pos, q) {
                        p_binary_rest(
                            ts,
                            q,
                            level,
                            ExprView::BinaryOp { op, left: Box::new(left), right: Box::new(right) },
                            names,
                        )
                    } else {
                        arbitrary()
                    },
                }
            } else {
                arbitrary()
            }
        },
    }
}

/// The expression at `pos`.
pub open spec fn p_expr(ts: Seq<TokenView>, pos: int, names: NamesView) -> Result<
    (ExprView, int),
    ParseErrorView,
>
    decreases ts.len() - pos, 16int,
{
    p_binary(ts, pos, 5, names)
}

/// The expression at `pos` that has no binary operator outside brackets.
pub open spec fn p_postfix(ts: Seq<TokenView>, pos: int, names: NamesView) -> Result<
    (ExprView, int),
    ParseErrorView,
>
    decreases ts.len() - pos, 9int,
{
    match p_primary(ts, pos, names) {
        Err(e) => Err(e),
        Ok((e, p)) => if ahead(ts, pos, p) {
            p_postfix_rest(ts, p, e, names)
        } else {
            arbitrary()
        },
    }
}

/// The accesses and method calls that follow an expression.
pub open spec fn p_postfix_rest(ts: Seq<TokenView>, pos: int, e: ExprView, names: NamesView) -> Result<
    (ExprView, int),
    ParseErrorView,
>
    decreases ts.len() - pos, 0int,
{
    if ts[pos] is Dot {
        match take_ident(ts, after(ts, pos)) {
            Err(e) => Err(e),
            Ok((ident, p)) => if !ahead(ts, pos, p) {
                arbitrary()
            } else if ts[p] is LParen {
                let q = after(ts, p);
                if ahead(ts, pos, q) {
                    match p_closed_args(ts, q, names) {
                        Err(e) => Err(e),
                        Ok((args, r)) => if ahead(ts, pos, r) {
                            p_postfix_rest(
                                ts,
                                r,
                                ExprView::MethodCall { receiver: Box::new(e), method: ident, args },
                                names,
                            )
                        } else {
                            arbitrary()
                        },
                    }
                } else {
                    arbitrary()
                }
            } else {
                p_postfix_rest(
                    ts,
                    p,
                    ExprView::FieldAccess { receiver: Box::new(e), field: ident },
                    names,
                )
            },
        }
    } else {
        Ok((e, pos))
    }
}

/// The expression at `pos` that has no operator behind it.
pub open spec fn p_primary(ts: Seq<TokenView>, pos: int, names: NamesView) -> Result<
    (ExprView, int),
    ParseErrorView,
>
    decreases ts.len() - pos, 8int,
{
    let p = after(ts, pos);
    match ts[pos] {
        TokenView::Minus => if ahead(ts, pos, p) {
            match p_primary(ts, p, names) {
                Err(e) => Err(e),
                Ok((e, q)) => Ok((ExprView::UnaryNeg(Box::new(e)), q)),
            }
        } else {
            arbitrary()
        },
        TokenView::Ampersand => if ahead(ts, pos, p) {
            match p_primary(ts, p, names) {
                Err(e) => Err(e),
                Ok((e, q)) => Ok((ExprView::Ref(Box::new(e)), q)),
            }
        } else {
            arbitrary()
        },
        TokenView::StringLit(s) => Ok((ExprView::StringLit(s), p)),
        TokenView::IntLit(n, ty) => Ok((ExprView::IntLit(n, ty), p)),
        TokenView::Ident(name) => if name == "true"@ || name == "false"@ {
            Ok((ExprView::BoolLit(name == "true"@), p))
        } else if !ahead(ts, pos, p) {
            arbitrary()
        } else if name == "if"@ {
            p_if(ts, p, names)
        } else {
            p_named(ts, p, name, names)
        },
        t => Err(ParseErrorView::ExpectedExpression { got: token_text(t) }),
    }
}

/// The expression that starts with `name`, `pos` being behind the name: a
/// call, a struct literal where the name is that of a struct, or a variable.
pub open spec fn p_named(ts: Seq<TokenView>, pos: int, name: Seq<char>, names: NamesView) -> Result<
    (ExprView, int),
    ParseErrorView,
>
    decreases ts.len() - pos, 30int,
{
    let p = after(ts, pos);
    if ts[pos] is DoubleColon {
        match take_ident(ts, p) {
            Err(e) => Err(e),
            Ok((method, q)) => if ahead(ts, pos, q) {
                match p_optional_type_args(ts, q, names) {
                    Err(e) => Err(e),
                    Ok((type_args, r)) => if q <= r < ts.len() {
                        match p_call_args(ts, r, names) {
                            Err(e) => Err(e),
                            Ok((args, s)) => Ok(
                                (ExprView::StaticCall { ty: name, method, type_args, args }, s),
                            ),
                        }
                    } else {
                        arbitrary()
                    },
                }
            } else {
                arbitrary()
            },
        }
    } else if ts[pos] is LBrace && names.struct_names.contains(name) {
        match p_lit_fields(ts, pos, names) {
            Err(e) => Err(e),
            Ok((fields, q)) => Ok(
                (ExprView::StructLit { name, type_args: Seq::empty(), fields }, q),
            ),
        }
    } else if ts[pos] is LAngle {
        match p_type_args(ts, pos, names) {
            Err(e) => Err(e),
            Ok((type_args, q)) => if !ahead(ts, pos, q) {
                arbitrary()
            } else if ts[q] is LBrace && names.struct_names.contains(name) {
                match p_lit_fields(ts, q, names) {
                    Err(e) => Err(e),
                    Ok((fields, r)) => Ok((ExprView::StructLit { name, type_args, fields }, r)),
                }
            } else {
                match p_call_args(ts, q, names) {
                    Err(e) => Err(e),
                    Ok((args, r)) => Ok((ExprView::FnCall { name, type_args, args }, r)),
                }
            },
        }
    } else if ts[pos] is LParen {
        match p_call_args(ts, pos, names) {
            Err(e) => Err(e),
            Ok((args, q)) => Ok((ExprView::FnCall { name, type_args: Seq::empty(), args }, q)),
        }
    } else {
        Ok((ExprView::Var(name), pos))
    }
}

/// The type argument list at `pos`, if one stands there.
pub open spec fn p_optional_type_args(ts: Seq<TokenView>, pos: int, names: NamesView) -> Result<
    (Seq<SourceTypeView>, int),
    ParseErrorView,
>
    decreases ts.len() - pos, 4int,
{
    if ts[pos] is LAngle {
        p_type_args(ts, pos, names)
    } else {
        Ok((Seq::empty(), pos))
    }
}

/// The arguments at `pos`, with their parentheses.
pub open spec fn p_call_args(ts: Seq<TokenView>, pos: int, names: NamesView) -> Result<
    (Seq<ExprView>, int),
    ParseErrorView,
>
    decreases ts.len() - pos, 20int,
{
    match take(ts, pos, TokenView::LParen) {
        Err(e) => Err(e),
        Ok(p) => if ahead(ts, pos, p) {
            p_closed_args(ts, p, names)
        } else {
            arbitrary()
        },
    }
}

/// The arguments at `pos`, with their closing parenthesis.
pub open spec fn p_closed_args(ts: Seq<TokenView>, pos: int, names: NamesView) -> Result<
    (Seq<ExprView>, int),
    ParseErrorView,
>
    decreases ts.len() - pos, 19int,
{
    match p_args(ts, pos, names) {
        Err(e) => Err(e),
        Ok((args, p)) => match take(ts, p, TokenView::RParen) {
            Err(e) => Err(e),
            Ok(q) => Ok((args, q)),
        },
    }
}

/// The expressions from `pos` on, up to a closing parenthesis.
pub open spec fn p_args(ts: Seq<TokenView>, pos: int, names: NamesView) -> Result<
    (Seq<ExprView>, int),
    ParseErrorView,
>
    decreases ts.len() - pos, 18int,
{
    if ts[pos] is RParen || ts[pos] is Eof {
        Ok((Seq::empty(), pos))
    } else {
        match p_expr(ts, pos, names) {
            Err(e) => Err(e),
            Ok((first, p)) => {
                let q = after_comma(ts, p);
                if ahead(ts, pos, q) {
                    match p_args(ts, q, names) {
                        Err(e) => Err(e),
                        Ok((rest, r)) => Ok((seq![first] + rest, r)),
                    }
                } else {
                    arbitrary()
                }
            },
        }
    }
}

/// The fields of a struct literal at `pos`, with their braces.
pub open spec fn p_lit_fields(ts: Seq<TokenView>, pos: int, names: NamesView) -> Result<
    (Seq<(Seq<char>, ExprView)>, int),
    ParseErrorView,
>
    decreases ts.len() - pos, 20int,
{
    match take(ts, pos, TokenView::LBrace) {
        Err(e) => Err(e),
        Ok(p) => if ahead(ts, pos, p) {
            match p_lit_field_list(ts, p, names) {
                Err(e) => Err(e),
                Ok((fields, q)) => match take(ts, q, TokenView::RBrace) {
                    Err(e) => Err(e),
                    Ok(r) => Ok((fields, r)),
                },
            }
        } else {
            arbitrary()
        },
    }
}

/// The fields of a struct literal from `pos` on, up to a closing brace.
pub open spec fn p_lit_field_list(ts: Seq<TokenView>, pos: int, names: NamesView) -> Result<
    (Seq<(Seq<char>, ExprView)>, int),
    ParseErrorView,
>
    decreases ts.len() - pos, 18int,
{
    if ts[pos] is RBrace || ts[pos] is Eof {
        Ok((Seq::empty(), pos))
    } else {
        match take_ident(ts, pos) {
            Err(e) => Err(e),
            Ok((field, p)) => match take(ts, p, TokenView::Colon) {
                Err(e) => Err(e),
                Ok(q) => if !ahead(ts, pos, q) {
                    arbitrary()
                } else {
                    match p_expr(ts, q, names) {
                        Err(e) => Err(e),
                        Ok((e, r)) => {
                            let s = after_comma(ts, r);
                            if ahead(ts, pos, s) {
                                match p_lit_field_list(ts, s, names) {
                                    Err(e) => Err(e),
                                    Ok((rest, u)) => Ok((seq![(field, e)] + rest, u)),
                                }
                            } else {
                                arbitrary()
                            }
                        },
                    }
                },
            },
        }
    }
}

/// The conditional whose condition stands at `pos`.
pub open spec fn p_if(ts: Seq<TokenView>, pos: int, names: NamesView) -> Result<
    (ExprView, int),
    ParseErrorView,
>
    decreases ts.len() - pos, 30int,
{
    match p_expr(ts, pos, names) {
        Err(e) => Err(e),
        Ok((cond, p)) => if !ahead(ts, pos, p) {
            arbitrary()
        } else {
            match p_braced(ts, p, names) {
                Err(e) => Err(e),
                Ok((then_body, q)) => if !ahead(ts, pos, q) {
                    arbitrary()
                } else {
                    match p_else(ts, q, names) {
                        Err(e) => Err(e),
                        Ok((else_body, r)) => Ok(
                            (
                                ExprView::If {
                                    cond: Box::new(cond),
                                    then_body: Box::new(then_body),
                                    else_body,
                                },
                                r,
                            ),
                        ),
                    }
                },
            }
        },
    }
}

/// The else branch at `pos`, if one stands there. `else if ..` is a branch
/// whose value is the inner conditional.
pub open spec fn p_else(ts: Seq<TokenView>, pos: int, names: NamesView) -> Result<
    (Option<Box<BlockView>>, int),
    ParseErrorView,
>
    decreases ts.len() - pos, 30int,
{
    if ts[pos] == TokenView::Ident("else"@) {
        let p = after(ts, pos);
        if !ahead(ts, pos, p) {
            arbitrary()
        } else if ts[p] == TokenView::Ident("if"@) {
            match p_expr(ts, p, names) {
                Err(e) => Err(e),
                Ok((inner, q)) => Ok(
                    (Some(Box::new(BlockView { stmts: Seq::empty(), ret: Some(inner) })), q),
                ),
            }
        } else {
            match p_braced(ts, p, names) {
                Err(e) => Err(e),
                Ok((b, q)) => Ok((Some(Box::new(b)), q)),
            }
        }
    } else {
        Ok((None, pos))
    }
}

/// The block at `pos`, with its braces.
pub open spec fn p_braced(ts: Seq<TokenView>, pos: int, names: NamesView) -> Result<
    (BlockView, int),
    ParseErrorView,
>
    decreases ts.len() - pos, 28int,
{
    match take(ts, pos, TokenView::LBrace) {
        Err(e) => Err(e),
        Ok(p) => if ahead(ts, pos, p) {
            p_block(ts, p, names)
        } else {
            arbitrary()
        },
    }
}

/// What stands at one position of a block.
pub enum ItemView {
    Stmt(StmtView),
    /// The trailing expression, with the closing brace.
    Ret(ExprView),
    /// The closing brace, or the end of the text.
    End,
}

/// The block whose statements stand at `pos`, with its closing brace. The end
/// of the text closes it too.
pub open spec fn p_block(ts: Seq<TokenView>, pos: int, names: NamesView) -> Result<
    (BlockView, int),
    ParseErrorView,
>
    decreases ts.len() - pos, 27int,
{
    match p_item(ts, pos, names) {
        Err(e) => Err(e),
        Ok((ItemView::End, p)) => Ok((BlockView { stmts: Seq::empty(), ret: None }, p)),
        Ok((ItemView::Ret(e), p)) => Ok((BlockView { stmts: Seq::empty(), ret: Some(e) }, p)),
        Ok((ItemView::Stmt(s), p)) => if ahead(ts, pos, p) {
            match p_block(ts, p, names) {
                Err(e) => Err(e),
                Ok((b, q)) => Ok((BlockView { stmts: seq![s] + b.stmts, ret: b.ret }, q)),
            }
        } else {
            arbitrary()
        },
    }
}

/// Whether a word starts an expression rather than an assignment.
pub open spec fn is_expr_word(s: Seq<char>) -> bool {
    s == "if"@ || s == "true"@ || s == "false"@ || s == "else"@
}

/// `let name = expr;` from behind `let` on.
pub open spec fn p_let(ts: Seq<TokenView>, pos: int, names: NamesView) -> Result<
    (Seq<char>, ExprView, int),
    ParseErrorView,
>
    decreases ts.len() - pos, 25int,
{
    match take_ident(ts, pos) {
        Err(e) => Err(e),
        Ok((name, p)) => match take(ts, p, TokenView::Equals) {
            Err(e) => Err(e),
            Ok(q) => if !ahead(ts, pos, q) {
                arbitrary()
            } else {
                match p_expr(ts, q, names) {
                    Err(e) => Err(e),
                    Ok((e, r)) => match take(ts, r, TokenView::Semicolon) {
                        Err(e) => Err(e),
                        Ok(s) => Ok((name, e, s)),
                    },
                }
            },
        },
    }
}

/// What stands at position `pos` of a block.
pub open spec fn p_item(ts: Seq<TokenView>, pos: int, names: NamesView) -> Result<
    (ItemView, int),
    ParseErrorView,
>
    decreases ts.len() - pos, 26int,
{
    let p = after(ts, pos);
    if ts[pos] is RBrace || ts[pos] is Eof {
        Ok((ItemView::End, p))
    } else if ts[pos] == TokenView::Ident("let"@) {
        if !ahead(ts, pos, p) {
            arbitrary()
        } else {
            match p_let(ts, p, names) {
                Err(e) => Err(e),
                Ok((name, expr, q)) => Ok((ItemView::Stmt(StmtView::Let { name, expr }), q)),
            }
        }
    } else if ts[pos] == TokenView::Ident("while"@) {
        if !ahead(ts, pos, p) {
            arbitrary()
        } else {
            match p_expr(ts, p, names) {
                Err(e) => Err(e),
                Ok((cond, q)) => if !ahead(ts, pos, q) {
                    arbitrary()
                } else {
                    match p_braced(ts, q, names) {
                        Err(e) => Err(e),
                        Ok((body, r)) => Ok(
                            (ItemView::Stmt(StmtView::While { cond, body: Box::new(body) }), r),
                        ),
                    }
                },
            }
        }
    } else if ts[pos] is Ident && !is_expr_word(ts[pos]->Ident_0) && pos + 1 < ts.len()
        && ts[pos + 1] is Equals {
        match p_let(ts, pos, names) {
            Err(e) => Err(e),
            Ok((name, expr, q)) => Ok((ItemView::Stmt(StmtView::Assign { name, expr }), q)),
        }
    } else {
        match p_expr(ts, pos, names) {
            Err(e) => Err(e),
            Ok((e, q)) => if ts[q] is Semicolon {
                Ok((ItemView::Stmt(StmtView::ExprStmt(e)), after(ts, q)))
            } else if e is If && !(ts[q] is RBrace) {
                Ok((ItemView::Stmt(StmtView::ExprStmt(e)), q))
            } else {
                match take(ts, q, TokenView::RBrace) {
                    Err(e) => Err(e),
                    Ok(r) => Ok((ItemView::Ret(e), r)),
                }
            },
        }
    }
}

/// The identifiers from `pos` on, up to a closing angle bracket.
pub open spec fn p_idents(ts: Seq<TokenView>, pos: int) -> Result<
    (Seq<Seq<char>>, int),
    ParseErrorView,
>
    decreases ts.len() - pos,
{
    if ts[pos] is RAngle || ts[pos] is Eof {
        Ok((Seq::empty(), pos))
    } else {
        match take_ident(ts, pos) {
            Err(e) => Err(e),
            Ok((first, p)) => {
                let q = after_comma(ts, p);
                if ahead(ts, pos, q) {
                    match p_idents(ts, q) {
                        Err(e) => Err(e),
                        Ok((rest, r)) => Ok((seq![first] + rest, r)),
                    }
                } else {
                    arbitrary()
                }
            },
        }
    }
}

/// The type parameters at `pos`, if any stand there.
pub open spec fn p_generics(ts: Seq<TokenView>, pos: int) -> Result<
    (Seq<Seq<char>>, int),
    ParseErrorView,
> {
    if ts[pos] is LAngle {
        match p_idents(ts, after(ts, pos)) {
            Err(e) => Err(e),
            Ok((params, p)) => match take(ts, p, TokenView::RAngle) {
                Err(e) => Err(e),
                Ok(q) => Ok((params, q)),
            },
        }
    } else {
        Ok((Seq::empty(), pos))
    }
}

/// `name: type` at `pos`.
pub open spec fn p_field(ts: Seq<TokenView>, pos: int, names: NamesView) -> Result<
    (Seq<char>, SourceTypeView, int),
    ParseErrorView,
> {
    match take_ident(ts, pos) {
        Err(e) => Err(e),
        Ok((name, p)) => match take(ts, p, TokenView::Colon) {
            Err(e) => Err(e),
            Ok(q) => match p_type(ts, q, names) {
                Err(e) => Err(e),
                Ok((ty, r)) => Ok((name, ty, r)),
            },
        },
    }
}

/// The fields of a struct from `pos` on, up to a closing brace.
pub open spec fn p_fields(ts: Seq<TokenView>, pos: int, names: NamesView) -> Result<
    (Seq<ToyFieldView>, int),
    ParseErrorView,
>
    decreases ts.len() - pos,
{
    if ts[pos] is RBrace || ts[pos] is Eof {
        Ok((Seq::empty(), pos))
    } else {
        match p_field(ts, pos, names) {
            Err(e) => Err(e),
            Ok((name, rust_type, p)) => {
                let q = after_comma(ts, p);
                if ahead(ts, pos, q) {
                    match p_fields(ts, q, names) {
                        Err(e) => Err(e),
                        Ok((rest, r)) => Ok((seq![ToyFieldView { name, rust_type }] + rest, r)),
                    }
                } else {
                    arbitrary()
                }
            },
        }
    }
}

/// The parameters of a function from `pos` on, up to a closing parenthesis.
pub open spec fn p_params(ts: Seq<TokenView>, pos: int, names: NamesView) -> Result<
    (Seq<ToyParamView>, int),
    ParseErrorView,
>
    decreases ts.len() - pos,
{
    if ts[pos] is RParen || ts[pos] is Eof {
        Ok((Seq::empty(), pos))
    } else {
        match p_field(ts, pos, names) {
            Err(e) => Err(e),
            Ok((name, ty, p)) => {
                let q = after_comma(ts, p);
                if ahead(ts, pos, q) {
                    match p_params(ts, q, names) {
                        Err(e) => Err(e),
                        Ok((rest, r)) => Ok((seq![ToyParamView { name, ty }] + rest, r)),
                    }
                } else {
                    arbitrary()
                }
            },
        }
    }
}

/// The struct definition at `pos`. Its fields may mention the struct itself.
pub open spec fn p_struct(ts: Seq<TokenView>, pos: int, struct_names: Seq<Seq<char>>) -> Result<
    (Seq<char>, ToyStructView, int),
    ParseErrorView,
> {
    match take_ident(ts, after(ts, pos)) {
        Err(e) => Err(e),
        Ok((name, p)) => match p_generics(ts, p) {
            Err(e) => Err(e),
            Ok((type_params, q)) => match take(ts, q, TokenView::LBrace) {
                Err(e) => Err(e),
                Ok(r) => match p_fields(
                    ts,
                    r,
                    NamesView { type_params, struct_names: struct_names.push(name) },
                ) {
                    Err(e) => Err(e),
                    Ok((fields, s)) => match take(ts, s, TokenView::RBrace) {
                        Err(e) => Err(e),
                        Ok(u) => Ok((name, ToyStructView { type_params, fields }, u)),
                    },
                },
            },
        },
    }
}

/// The return type at `pos`, if one stands there.
pub open spec fn p_return(ts: Seq<TokenView>, pos: int, names: NamesView) -> Result<
    (Option<SourceTypeView>, int),
    ParseErrorView,
> {
    if ts[pos] is Arrow {
        match p_type(ts, after(ts, pos), names) {
            Err(e) => Err(e),
            Ok((t, p)) => Ok((Some(t), p)),
        }
    } else {
        Ok((None, pos))
    }
}

/// The body at `pos`, if one stands there.
pub open spec fn p_body(ts: Seq<TokenView>, pos: int, names: NamesView) -> Result<
    (Option<BlockView>, int),
    ParseErrorView,
> {
    if ts[pos] is LBrace {
        match p_braced(ts, pos, names) {
            Err(e) => Err(e),
            Ok((b, p)) => Ok((Some(b), p)),
        }
    } else {
        Ok((None, pos))
    }
}

/// The function definition at `pos`. Rust code may call `main`.
pub open spec fn p_fn(ts: Seq<TokenView>, pos: int, struct_names: Seq<Seq<char>>) -> Result<
    (Seq<char>, ToyFunctionView, int),
    ParseErrorView,
> {
    match take_ident(ts, after(ts, pos)) {
        Err(e) => Err(e),
        Ok((name, p)) => match p_generics(ts, p) {
            Err(e) => Err(e),
            Ok((type_params, q)) => match take(ts, q, TokenView::LParen) {
                Err(e) => Err(e),
                Ok(r) => {
                    let names = NamesView { type_params, struct_names };
                    match p_params(ts, r, names) {
                        Err(e) => Err(e),
                        Ok((params, s)) => match take(ts, s, TokenView::RParen) {
                            Err(e) => Err(e),
                            Ok(u) => match p_return(ts, u, names) {
                                Err(e) => Err(e),
                                Ok((return_ty, v)) => match p_body(ts, v, names) {
                                    Err(e) => Err(e),
                                    Ok((body, w)) => Ok(
                                        (
                                            name,
                                            ToyFunctionView {
                                                type_params,
                                                params,
                                                return_ty,
                                                body,
                                                is_export: name == "main"@,
                                            },
                                            w,
                                        ),
                                    ),
                                },
                            },
                        },
                    }
                },
            },
        },
    }
}

/// The path that starts with `path` and goes on at `pos`.
pub open spec fn p_path_rest(ts: Seq<TokenView>, pos: int, path: Seq<char>) -> Result<
    (Seq<char>, int),
    ParseErrorView,
>
    decreases ts.len() - pos,
{
    if ts[pos] is DoubleColon {
        match take_ident(ts, after(ts, pos)) {
            Err(e) => Err(e),
            Ok((segment, p)) => if ahead(ts, pos, p) {
                p_path_rest(ts, p, path + "::"@ + segment)
            } else {
                arbitrary()
            },
        }
    } else {
        Ok((path, pos))
    }
}

/// The path at `pos`.
pub open spec fn p_path(ts: Seq<TokenView>, pos: int) -> Result<(Seq<char>, int), ParseErrorView> {
    match take_ident(ts, pos) {
        Err(e) => Err(e),
        Ok((first, p)) => p_path_rest(ts, p, first),
    }
}

/// The prefix of the names that programs may not define.
pub open spec fn reserved_prefix() -> Seq<char> {
    "__toylang_"@
}

/// What a program has defined so far.
pub struct ProgramView {
    pub structs: Seq<(Seq<char>, ToyStructView)>,
    pub functions: Seq<(Seq<char>, ToyFunctionView)>,
    pub imports: Seq<Seq<char>>,
    /// The names of the structs in the order of their definitions.
    pub struct_names: Seq<Seq<char>>,
}

/// The registry of a program. Every field of a struct has an accessor.
pub open spec fn registry_of(p: ProgramView) -> RegistryView {
    RegistryView {
        structs: p.structs,
        functions: p.functions,
        imports: p.imports,
        accessor_pairs: struct_pairs(p.structs),
        ..empty_registry()
    }
}

/// What `done` becomes by one definition at `pos`.
pub open spec fn p_definition(ts: Seq<TokenView>, pos: int, done: ProgramView) -> Result<
    (ProgramView, int),
    ParseErrorView,
> {
    if ts[pos] == TokenView::Ident("use"@) {
        match p_path(ts, after(ts, pos)) {
            Err(e) => Err(e),
            Ok((path, p)) => Ok((ProgramView { imports: done.imports.push(path), ..done }, p)),
        }
    } else if ts[pos] == TokenView::Ident("struct"@) {
        match p_struct(ts, pos, done.struct_names) {
            Err(e) => Err(e),
            Ok((name, def, p)) => if has_prefix(name, reserved_prefix()) {
                Err(ParseErrorView::ReservedName { name })
            } else if find(done.structs, name) is Some {
                Err(ParseErrorView::DuplicateStruct { name })
            } else {
                Ok(
                    (
                        ProgramView {
                            structs: put(done.structs, name, def),
                            struct_names: done.struct_names.push(name),
                            ..done
                        },
                        p,
                    ),
                )
            },
        }
    } else if ts[pos] == TokenView::Ident("fn"@) {
        match p_fn(ts, pos, done.struct_names) {
            Err(e) => Err(e),
            Ok((name, def, p)) => if has_prefix(name, reserved_prefix()) {
                Err(ParseErrorView::ReservedName { name })
            } else if find(done.functions, name) is Some {
                Err(ParseErrorView::DuplicateFunction { name })
            } else {
                Ok((ProgramView { functions: put(done.functions, name, def), ..done }, p))
            },
        }
    } else {
        Err(ParseErrorView::UnexpectedTopLevelToken { got: token_text(ts[pos]) })
    }
}

/// What `done` becomes by the definitions from `pos` on.
pub open spec fn p_program(ts: Seq<TokenView>, pos: int, done: ProgramView) -> Result<
    ProgramView,
    ParseErrorView,
>
    decreases ts.len() - pos,
{
    if ts[pos] is Eof {
        Ok(done)
    } else {
        match p_definition(ts, pos, done) {
            Err(e) => Err(e),
            Ok((next, p)) => if ahead(ts, pos, p) {
                p_program(ts, p, next)
            } else {
                arbitrary()
            },
        }
    }
}

/// The program without definitions.
pub open spec fn empty_program() -> ProgramView {
    ProgramView {
        structs: Seq::empty(),
        functions: Seq::empty(),
        imports: Seq::empty(),
        struct_names: Seq::empty(),
    }
}

/// The registry of the program that some tokens write.
pub open spec fn program_of(ts: Seq<TokenView>) -> Result<RegistryView, ParseErrorView> {
    match p_program(ts, 0, empty_program()) {
        Err(e) => Err(e),
        Ok(p) => Ok(registry_of(p)),
    }
}

/// Whether `name` is one of `list`.
fn contains_name(list: &Vec<String>, name: &String) -> (r: bool)
    ensures
        r == views(list@).contains(name@),
{
    let mut i: usize = 0;
    while i < list.len()
        invariant
            i <= list@.len(),
            forall|j: int| 0 <= j < i ==> (#[trigger] views(list@)[j]) != name@,
        decreases list@.len() - i,
    {
        if list[i] == *name {
            assert(views(list@)[i as int] == name@);
            return true;
        }
        assert(views(list@)[i as int] != name@);
        i += 1;
    }
    false
}

/// The names that a type or an expression may mention.
pub struct Names {
    pub type_params: Vec<String>,
    pub struct_names: Vec<String>,
}

impl Names {
    /// What the names say.
    pub open spec fn model(&self) -> NamesView {
        NamesView {
            type_params: views(self.type_params@),
            struct_names: views(self.struct_names@),
        }
    }

    fn applied_type(&self, s: String, type_args: Vec<SourceType>) -> (r: SourceType)
        ensures
            r@ == applied_type(s@, source_views(type_args@), self.model()),
    {
        if contains_name(&self.struct_names, &s) {
            SourceType::StructRef { name: s, type_args }
        } else {
            SourceType::RustType { name: s, type_args }
        }
    }

    fn named_type(&self, s: String) -> (r: SourceType)
        ensures
            r@ == named_type(s@, self.model()),
    {
        if same_text(&s, "i32") {
            SourceType::I32
        } else if same_text(&s, "i64") {
            SourceType::I64
        } else if same_text(&s, "f64") {
            SourceType::F64
        } else if same_text(&s, "bool") {
            SourceType::Bool
        } else if same_text(&s, "usize") {
            SourceType::Usize
        } else if contains_name(&self.type_params, &s) {
            SourceType::TypeParam(s)
        } else {
            let none: Vec<SourceType> = Vec::new();
            assert(source_views(none@) =~= Seq::empty());
            self.applied_type(s, none)
        }
    }
}

/// What stands at one position of a block.
enum Item {
    Stmt(Stmt),
    Ret(Expr),
    End,
}

impl Item {
    spec fn model(&self) -> ItemView {
        match self {
            Item::Stmt(s) => ItemView::Stmt(s@),
            Item::Ret(e) => ItemView::Ret(e@),
            Item::End => ItemView::End,
        }
    }
}

/// Reads tokens from the front to the back.
pub struct Parser {
    pub tokens: Vec<Token>,
    pub pos: usize,
}

impl Parser {
    /// What the tokens say.
    pub open spec fn ts(&self) -> Seq<TokenView> {
        views(self.tokens@)
    }

    /// Whether the tokens end well, and the position is that of a token.
    pub open spec fn wf(&self) -> bool {
        &&& well_ended(self.ts())
        &&& self.pos < self.tokens@.len()
    }

    /// Whether this parser reads the tokens of `before`, from a position that
    /// is not before that of `before`.
    pub open spec fn follows(&self, before: &Parser) -> bool {
        &&& self.wf()
        &&& self.tokens@ == before.tokens@
        &&& before.pos <= self.pos
    }

    /// A parser at the first of some tokens.
    pub fn new(tokens: Vec<Token>) -> (r: Self)
        requires
            well_ended(views(tokens@)),
        ensures
            r.wf(),
            r.ts() == views(tokens@),
            r.pos == 0,
    {
        Parser { tokens, pos: 0 }
    }

    fn peek(&self) -> (r: &Token)
        requires
            self.wf(),
        ensures
            r@ == self.ts()[self.pos as int],
    {
        &self.tokens[self.pos]
    }

    fn peek2(&self) -> (r: Option<&Token>)
        requires
            self.wf(),
        ensures
            match r {
                Some(t) => self.pos + 1 < self.ts().len() && t@ == self.ts()[self.pos + 1],
                None => self.pos + 1 >= self.ts().len(),
            },
    {
        if self.tokens.len() - self.pos > 1 {
            Some(&self.tokens[self.pos + 1])
        } else {
            None
        }
    }

    /// Whether the token at the position is `t`.
    fn at(&self, t: &Token) -> (r: bool)
        requires
            self.wf(),
        ensures
            r == (self.ts()[self.pos as int] == t@),
    {
        self.peek().same(t)
    }

    /// Whether the token at the position is the word `w`.
    fn at_word(&self, w: &str) -> (r: bool)
        requires
            self.wf(),
        ensures
            r == (self.ts()[self.pos as int] == TokenView::Ident(w@)),
    {
        match self.peek() {
            Token::Ident(s) => same_text(s, w),
            _ => false,
        }
    }

    fn consume(&mut self) -> (t: Token)
        requires
            old(self).wf(),
        ensures
            final(self).follows(old(self)),
            t@ == old(self).ts()[old(self).pos as int],
            final(self).pos == after(old(self).ts(), old(self).pos as int),
            !(t@ is Eof) ==> final(self).pos > old(self).pos,
    {
        let t = self.tokens[self.pos].copy();
        if self.tokens.len() - self.pos > 1 {
            self.pos = self.pos + 1;
        }
        t
    }

    fn expect_ident(&mut self) -> (r: Result<String, ParseError>)
        requires
            old(self).wf(),
        ensures
            final(self).follows(old(self)),
            match take_ident(old(self).ts(), old(self).pos as int) {
                Ok((s, p)) => r is Ok && r->Ok_0@ == s && final(self).pos == p && p > old(self).pos,
                Err(e) => r is Err && r->Err_0@ == e,
            },
    {
        match self.consume() {
            Token::Ident(s) => Ok(s),
            t => Err(
                ParseError::UnexpectedToken { expected: owned("identifier"), got: t.to_text() },
            ),
        }
    }

    fn expect(&mut self, expected: Token) -> (r: Result<(), ParseError>)
        requires
            old(self).wf(),
            !(expected@ is Eof),
        ensures
            final(self).follows(old(self)),
            match take(old(self).ts(), old(self).pos as int, expected@) {
                Ok(p) => r is Ok && final(self).pos == p && p > old(self).pos,
                Err(e) => r is Err && r->Err_0@ == e,
            },
    {
        let t = self.consume();
        if t.same(&expected) {
            Ok(())
        } else {
            Err(
                ParseError::UnexpectedToken { expected: expected.to_text(), got: t.to_text() },
            )
        }
    }

    fn skip_comma(&mut self)
        requires
            old(self).wf(),
        ensures
            final(self).follows(old(self)),
            final(self).pos == after_comma(old(self).ts(), old(self).pos as int),
    {
        if self.at(&Token::Comma) {
            self.consume();
        }
    }

    /// The type at the position of the parser, which then stands behind it.
    pub fn parse_type(&mut self, names: &Names) -> (r: Result<SourceType, ParseError>)
        requires
            old(self).wf(),
        ensures
            final(self).follows(old(self)),
            match p_type(old(self).ts(), old(self).pos as int, names.model()) {
                Ok((t, p)) => r is Ok && r->Ok_0@ == t && final(self).pos == p && p > old(self).pos,
                Err(e) => r is Err && r->Err_0@ == e,
            },
        decreases old(self).tokens@.len() - old(self).pos, 1int,
    {
        let t = self.peek().copy();
        match t {
            Token::Ampersand => {
                self.consume();
                if self.at_word("mut") {
                    self.consume();
                }
                match self.parse_type(names) {
                    Err(e) => Err(e),
                    Ok(inner) => Ok(SourceType::Ref { inner: Box::new(inner) }),
                }
            },
            Token::Star => {
                self.consume();
                let qualifier = match self.expect_ident() {
                    Err(e) => {
                        return Err(e);
                    },
                    Ok(q) => q,
                };
                if !same_text(&qualifier, "const") && !same_text(&qualifier, "mut") {
                    return Err(ParseError::ExpectedPointerQualifier { got: qualifier });
                }
                match self.parse_type(names) {
                    Err(e) => Err(e),
                    Ok(inner) => Ok(SourceType::Ref { inner: Box::new(inner) }),
                }
            },
            Token::Ident(s) => {
                self.consume();
                if self.at(&Token::LAngle) {
                    match self.parse_type_arg_list(names) {
                        Err(e) => Err(e),
                        Ok(args) => Ok(names.applied_type(s, args)),
                    }
                } else {
                    Ok(names.named_type(s))
                }
            },
            t => Err(ParseError::ExpectedType { got: t.to_text() }),
        }
    }

    fn parse_type_arg_list(&mut self, names: &Names) -> (r: Result<Vec<SourceType>, ParseError>)
        requires
            old(self).wf(),
        ensures
            final(self).follows(old(self)),
            match p_type_args(old(self).ts(), old(self).pos as int, names.model()) {
                Ok((args, p)) => r is Ok && source_views(r->Ok_0@) == args && final(self).pos == p
                    && p > old(self).pos,
                Err(e) => r is Err && r->Err_0@ == e,
            },
        decreases old(self).tokens@.len() - old(self).pos, 3int,
    {
        match self.expect(Token::LAngle) {
            Err(e) => {
                return Err(e);
            },
            Ok(_) => {},
        }
        let args = match self.parse_types(names) {
            Err(e) => {
                return Err(e);
            },
            Ok(args) => args,
        };
        match self.expect(Token::RAngle) {
            Err(e) => Err(e),
            Ok(_) => Ok(args),
        }
    }

    fn parse_types(&mut self, names: &Names) -> (r: Result<Vec<SourceType>, ParseError>)
        requires
            old(self).wf(),
        ensures
            final(self).follows(old(self)),
            match p_types(old(self).ts(), old(self).pos as int, names.model()) {
                Ok((args, p)) => r is Ok && source_views(r->Ok_0@) == args && final(self).pos == p,
                Err(e) => r is Err && r->Err_0@ == e,
            },
        decreases old(self).tokens@.len() - old(self).pos, 2int,
    {
        let ghost ts = self.ts();
        let ghost whole = p_types(ts, self.pos as int, names.model());
        let mut out: Vec<SourceType> = Vec::new();
        assert(whole is Ok ==> source_views(out@) + whole->Ok_0.0 =~= whole->Ok_0.0);
        while !self.at(&Token::RAngle) && !self.at(&Token::Eof)
            invariant
                self.follows(old(self)),
                ts == self.ts(),
                whole == p_types(ts, old(self).pos as int, names.model()),
                whole == (match p_types(ts, self.pos as int, names.model()) {
                    Ok((rest, p)) => Ok((source_views(out@) + rest, p)),
                    Err(e) => Err(e),
                }),
            decreases self.tokens@.len() - self.pos,
        {
            let ghost done = source_views(out@);
            let one = match self.parse_type(names) {
                Err(e) => {
                    return Err(e);
                },
                Ok(t) => t,
            };
            self.skip_comma();
            let ghost first = one.model();
            out.push(one);
            assert(source_views(out@) =~= done.push(first));
            assert(forall|rest: Seq<SourceTypeView>|
                #[trigger] (source_views(out@) + rest) =~= done + (seq![first] + rest));
        }
        assert(source_views(out@) + Seq::<SourceTypeView>::empty() =~= source_views(out@));
        Ok(out)
    }

    /// The operator at the position on a level of precedence.
    fn op_at(&self, level: u8) -> (r: Option<BinOp>)
        requires
            self.wf(),
        ensures
            r == op_on(level as nat, self.ts()[self.pos as int]),
            r is Some ==> !(self.ts()[self.pos as int] is Eof) && level > 0,
    {
        let (op, on): (BinOp, u8) = match self.peek() {
            Token::PipePipe => (BinOp::Or, 5),
            Token::AmpAmp => (BinOp::And, 4),
            Token::EqEq => (BinOp::Eq, 3),
            Token::BangEq => (BinOp::Ne, 3),
            Token::Lt => (BinOp::Lt, 3),
            Token::LAngleEq => (BinOp::Le, 3),
            Token::Gt => (BinOp::Gt, 3),
            Token::RAngleEq => (BinOp::Ge, 3),
            Token::Plus => (BinOp::Add, 2),
            Token::Minus => (BinOp::Sub, 2),
            Token::Star => (BinOp::Mul, 1),
            Token::Slash => (BinOp::Div, 1),
            _ => {
                return None;
            },
        };
        if on == level {
            Some(op)
        } else {
            None
        }
    }

    fn parse_expr(&mut self, names: &Names) -> (r: Result<Expr, ParseError>)
        requires
            old(self).wf(),
        ensures
            final(self).follows(old(self)),
            match p_expr(old(self).ts(), old(self).pos as int, names.model()) {
                Ok((t, p)) => r is Ok && r->Ok_0@ == t && final(self).pos == p && p > old(self).pos,
                Err(e) => r is Err && r->Err_0@ == e,
            },
        decreases old(self).tokens@.len() - old(self).pos, 16int,
    {
        self.parse_binary(5, names)
    }

    fn parse_binary(&mut self, level: u8, names: &Names) -> (r: Result<Expr, ParseError>)
        requires
            old(self).wf(),
            level <= 5,
        ensures
            final(self).follows(old(self)),
            match p_binary(old(self).ts(), old(self).pos as int, level as nat, names.model()) {
                Ok((t, p)) => r is Ok && r->Ok_0@ == t && final(self).pos == p && p > old(self).pos,
                Err(e) => r is Err && r->Err_0@ == e,
            },
        decreases old(self).tokens@.len() - old(self).pos, 10 + level,
    {
        if level == 0 {
            return self.parse_postfix(names);
        }
        let mut left = match self.parse_binary(level - 1, names) {
            Err(e) => {
                return Err(e);
            },
            Ok(e) => e,
        };
        let ghost ts = self.ts();
        let ghost whole = p_binary(ts, old(self).pos as int, level as nat, names.model());
        loop
            invariant
                self.follows(old(self)),
                self.pos > old(self).pos,
                ts == self.ts(),
                0 < level <= 5,
                whole == p_binary(ts, old(self).pos as int, level as nat, names.model()),
                whole == p_binary_rest(ts, self.pos as int, level as nat, left@, names.model()),
            decreases self.tokens@.len() - self.pos,
        {
            let op = match self.op_at(level) {
                None => {
                    return Ok(left);
                },
                Some(op) => op,
            };
            self.consume();
            let right = match self.parse_binary(level - 1, names) {
                Err(e) => {
                    return Err(e);
                },
                Ok(e) => e,
            };
            left = Expr::BinaryOp { op, left: Box::new(left), right: Box::new(right) };
        }
    }

    fn parse_postfix(&mut self, names: &Names) -> (r: Result<Expr, ParseError>)
        requires
            old(self).wf(),
        ensures
            final(self).follows(old(self)),
            match p_postfix(old(self).ts(), old(self).pos as int, names.model()) {
                Ok((t, p)) => r is Ok && r->Ok_0@ == t && final(self).pos == p && p > old(self).pos,
                Err(e) => r is Err && r->Err_0@ == e,
            },
        decreases old(self).tokens@.len() - old(self).pos, 9int,
    {
        let mut expr = match self.parse_primary(names) {
            Err(e) => {
                return Err(e);
            },
            Ok(e) => e,
        };
        let ghost ts = self.ts();
        let ghost whole = p_postfix(ts, old(self).pos as int, names.model());
        while self.at(&Token::Dot)
            invariant
                self.follows(old(self)),
                self.pos > old(self).pos,
                ts == self.ts(),
                whole == p_postfix(ts, old(self).pos as int, names.model()),
                whole == p_postfix_rest(ts, self.pos as int, expr@, names.model()),
            decreases self.tokens@.len() - self.pos,
        {
            self.consume();
            let ident = match self.expect_ident() {
                Err(e) => {
                    return Err(e);
                },
                Ok(s) => s,
            };
            if self.at(&Token::LParen) {
                self.consume();
                let args = match self.parse_closed_args(names) {
                    Err(e) => {
                        return Err(e);
                    },
                    Ok(args) => args,
                };
                expr = Expr::MethodCall { receiver: Box::new(expr), method: ident, args };
            } else {
                expr = Expr::FieldAccess { receiver: Box::new(expr), field: ident };
            }
        }
        Ok(expr)
    }

    fn parse_primary(&mut self, names: &Names) -> (r: Result<Expr, ParseError>)
        requires
            old(self).wf(),
        ensures
            final(self).follows(old(self)),
            match p_primary(old(self).ts(), old(self).pos as int, names.model()) {
                Ok((t, p)) => r is Ok && r->Ok_0@ == t && final(self).pos == p && p > old(self).pos,
                Err(e) => r is Err && r->Err_0@ == e,
            },
        decreases old(self).tokens@.len() - old(self).pos, 8int,
    {
        let t = self.peek().copy();
        match t {
            Token::Minus => {
                self.consume();
                match self.parse_primary(names) {
                    Err(e) => Err(e),
                    Ok(operand) => Ok(Expr::UnaryNeg(Box::new(operand))),
                }
            },
            Token::Ampersand => {
                self.consume();
                match self.parse_primary(names) {
                    Err(e) => Err(e),
                    Ok(operand) => Ok(Expr::Ref(Box::new(operand))),
                }
            },
            Token::StringLit(s) => {
                self.consume();
                Ok(Expr::StringLit(s))
            },
            Token::IntLit(n, ty) => {
                self.consume();
                Ok(Expr::IntLit(n, ty))
            },
            Token::Ident(name) => {
                self.consume();
                if same_text(&name, "true") {
                    Ok(Expr::BoolLit(true))
                } else if same_text(&name, "false") {
                    Ok(Expr::BoolLit(false))
                } else if same_text(&name, "if") {
                    self.parse_if(names)
                } else {
                    self.parse_named(name, names)
                }
            },
            t => Err(ParseError::ExpectedExpression { got: t.to_text() }),
        }
    }

    fn parse_named(&mut self, name: String, names: &Names) -> (r: Result<Expr, ParseError>)
        requires
            old(self).wf(),
        ensures
            final(self).follows(old(self)),
            match p_named(old(self).ts(), old(self).pos as int, name@, names.model()) {
                Ok((t, p)) => r is Ok && r->Ok_0@ == t && final(self).pos == p,
                Err(e) => r is Err && r->Err_0@ == e,
            },
        decreases old(self).tokens@.len() - old(self).pos, 30int,
    {
        if self.at(&Token::DoubleColon) {
            self.consume();
            let method = match self.expect_ident() {
                Err(e) => {
                    return Err(e);
                },
                Ok(s) => s,
            };
            let type_args = match self.parse_optional_type_args(names) {
                Err(e) => {
                    return Err(e);
                },
                Ok(ts) => ts,
            };
            match self.parse_call_args(names) {
                Err(e) => Err(e),
                Ok(args) => Ok(Expr::StaticCall { ty: name, method, type_args, args }),
            }
        } else if self.at(&Token::LBrace) && contains_name(&names.struct_names, &name) {
            match self.parse_struct_lit_fields(names) {
                Err(e) => Err(e),
                Ok(fields) => {
                    let none: Vec<SourceType> = Vec::new();
                    assert(source_views(none@) =~= Seq::empty());
                    Ok(Expr::StructLit { name, type_args: none, fields })
                },
            }
        } else if self.at(&Token::LAngle) {
            let type_args = match self.parse_type_arg_list(names) {
                Err(e) => {
                    return Err(e);
                },
                Ok(ts) => ts,
            };
            if self.at(&Token::LBrace) && contains_name(&names.struct_names, &name) {
                match self.parse_struct_lit_fields(names) {
                    Err(e) => Err(e),
                    Ok(fields) => Ok(Expr::StructLit { name, type_args, fields }),
                }
            } else {
                match self.parse_call_args(names) {
                    Err(e) => Err(e),
                    Ok(args) => Ok(Expr::FnCall { name, type_args, args }),
                }
            }
        } else if self.at(&Token::LParen) {
            match self.parse_call_args(names) {
                Err(e) => Err(e),
                Ok(args) => {
                    let none: Vec<SourceType> = Vec::new();
                    assert(source_views(none@) =~= Seq::empty());
                    Ok(Expr::FnCall { name, type_args: none, args })
                },
            }
        } else {
            Ok(Expr::Var(name))
        }
    }

    fn parse_optional_type_args(&mut self, names: &Names) -> (r: Result<
        Vec<SourceType>,
        ParseError,
    >)
        requires
            old(self).wf(),
        ensures
            final(self).follows(old(self)),
            match p_optional_type_args(old(self).ts(), old(self).pos as int, names.model()) {
                Ok((args, p)) => r is Ok && source_views(r->Ok_0@) == args && final(self).pos == p,
                Err(e) => r is Err && r->Err_0@ == e,
            },
        decreases old(self).tokens@.len() - old(self).pos, 4int,
    {
        if self.at(&Token::LAngle) {
            self.parse_type_arg_list(names)
        } else {
            let none: Vec<SourceType> = Vec::new();
            assert(source_views(none@) =~= Seq::empty());
            Ok(none)
        }
    }

    fn parse_call_args(&mut self, names: &Names) -> (r: Result<Vec<Expr>, ParseError>)
        requires
            old(self).wf(),
        ensures
            final(self).follows(old(self)),
            match p_call_args(old(self).ts(), old(self).pos as int, names.model()) {
                Ok((args, p)) => r is Ok && expr_views(r->Ok_0@) == args && final(self).pos == p,
                Err(e) => r is Err && r->Err_0@ == e,
            },
        decreases old(self).tokens@.len() - old(self).pos, 20int,
    {
        match self.expect(Token::LParen) {
            Err(e) => Err(e),
            Ok(_) => self.parse_closed_args(names),
        }
    }

    fn parse_closed_args(&mut self, names: &Names) -> (r: Result<Vec<Expr>, ParseError>)
        requires
            old(self).wf(),
        ensures
            final(self).follows(old(self)),
            match p_closed_args(old(self).ts(), old(self).pos as int, names.model()) {
                Ok((args, p)) => r is Ok && expr_views(r->Ok_0@) == args && final(self).pos == p,
                Err(e) => r is Err && r->Err_0@ == e,
            },
        decreases old(self).tokens@.len() - old(self).pos, 19int,
    {
        let args = match self.parse_args(names) {
            Err(e) => {
                return Err(e);
            },
            Ok(args) => args,
        };
        match self.expect(Token::RParen) {
            Err(e) => Err(e),
            Ok(_) => Ok(args),
        }
    }

    fn parse_args(&mut self, names: &Names) -> (r: Result<Vec<Expr>, ParseError>)
        requires
            old(self).wf(),
        ensures
            final(self).follows(old(self)),
            match p_args(old(self).ts(), old(self).pos as int, names.model()) {
                Ok((args, p)) => r is Ok && expr_views(r->Ok_0@) == args && final(self).pos == p,
                Err(e) => r is Err && r->Err_0@ == e,
            },
        decreases old(self).tokens@.len() - old(self).pos, 18int,
    {
        let ghost ts = self.ts();
        let ghost whole = p_args(ts, self.pos as int, names.model());
        let mut out: Vec<Expr> = Vec::new();
        assert(whole is Ok ==> expr_views(out@) + whole->Ok_0.0 =~= whole->Ok_0.0);
        while !self.at(&Token::RParen) && !self.at(&Token::Eof)
            invariant
                self.follows(old(self)),
                ts == self.ts(),
                whole == p_args(ts, old(self).pos as int, names.model()),
                whole == (match p_args(ts, self.pos as int, names.model()) {
                    Ok((rest, p)) => Ok((expr_views(out@) + rest, p)),
                    Err(e) => Err(e),
                }),
            decreases self.tokens@.len() - self.pos,
        {
            let ghost done = expr_views(out@);
            let one = match self.parse_expr(names) {
                Err(e) => {
                    return Err(e);
                },
                Ok(t) => t,
            };
            self.skip_comma();
            let ghost first = one.model();
            out.push(one);
            assert(expr_views(out@) =~= done.push(first));
            assert(forall|rest: Seq<ExprView>|
                #[trigger] (expr_views(out@) + rest) =~= done + (seq![first] + rest));
        }
        assert(expr_views(out@) + Seq::<ExprView>::empty() =~= expr_views(out@));
        Ok(out)
    }

    fn parse_struct_lit_fields(&mut self, names: &Names) -> (r: Result<
        Vec<(String, Expr)>,
        ParseError,
    >)
        requires
            old(self).wf(),
        ensures
            final(self).follows(old(self)),
            match p_lit_fields(old(self).ts(), old(self).pos as int, names.model()) {
                Ok((fields, p)) => r is Ok && field_views(r->Ok_0@) == fields && final(self).pos
                    == p,
                Err(e) => r is Err && r->Err_0@ == e,
            },
        decreases old(self).tokens@.len() - old(self).pos, 20int,
    {
        match self.expect(Token::LBrace) {
            Err(e) => {
                return Err(e);
            },
            Ok(_) => {},
        }
        let fields = match self.parse_lit_field_list(names) {
            Err(e) => {
                return Err(e);
            },
            Ok(fields) => fields,
        };
        match self.expect(Token::RBrace) {
            Err(e) => Err(e),
            Ok(_) => Ok(fields),
        }
    }

    fn parse_lit_field_list(&mut self, names: &Names) -> (r: Result<
        Vec<(String, Expr)>,
        ParseError,
    >)
        requires
            old(self).wf(),
        ensures
            final(self).follows(old(self)),
            match p_lit_field_list(old(self).ts(), old(self).pos as int, names.model()) {
                Ok((fields, p)) => r is Ok && field_views(r->Ok_0@) == fields && final(self).pos
                    == p,
                Err(e) => r is Err && r->Err_0@ == e,
            },
        decreases old(self).tokens@.len() - old(self).pos, 18int,
    {
        let ghost ts = self.ts();
        let ghost whole = p_lit_field_list(ts, self.pos as int, names.model());
        let mut out: Vec<(String, Expr)> = Vec::new();
        assert(whole is Ok ==> field_views(out@) + whole->Ok_0.0 =~= whole->Ok_0.0);
        while !self.at(&Token::RBrace) && !self.at(&Token::Eof)
            invariant
                self.follows(old(self)),
                ts == self.ts(),
                whole == p_lit_field_list(ts, old(self).pos as int, names.model()),
                whole == (match p_lit_field_list(ts, self.pos as int, names.model()) {
                    Ok((rest, p)) => Ok((field_views(out@) + rest, p)),
                    Err(e) => Err(e),
                }),
            decreases self.tokens@.len() - self.pos,
        {
            let ghost done = field_views(out@);
            let field = match self.expect_ident() {
                Err(e) => {
                    return Err(e);
                },
                Ok(s) => s,
            };
            match self.expect(Token::Colon) {
                Err(e) => {
                    return Err(e);
                },
                Ok(_) => {},
            }
            let one = match self.parse_expr(names) {
                Err(e) => {
                    return Err(e);
                },
                Ok(t) => t,
            };
            self.skip_comma();
            let ghost first = (field@, one.model());
            out.push((field, one));
            assert(field_views(out@) =~= done.push(first));
            assert(forall|rest: Seq<(Seq<char>, ExprView)>|
                #[trigger] (field_views(out@) + rest) =~= done + (seq![first] + rest));
        }
        assert(field_views(out@) + Seq::<(Seq<char>, ExprView)>::empty() =~= field_views(out@));
        Ok(out)
    }

    fn parse_if(&mut self, names: &Names) -> (r: Result<Expr, ParseError>)
        requires
            old(self).wf(),
        ensures
            final(self).follows(old(self)),
            match p_if(old(self).ts(), old(self).pos as int, names.model()) {
                Ok((t, p)) => r is Ok && r->Ok_0@ == t && final(self).pos == p,
                Err(e) => r is Err && r->Err_0@ == e,
            },
        decreases old(self).tokens@.len() - old(self).pos, 30int,
    {
        let cond = match self.parse_expr(names) {
            Err(e) => {
                return Err(e);
            },
            Ok(c) => c,
        };
        let then_body = match self.parse_braced(names) {
            Err(e) => {
                return Err(e);
            },
            Ok(b) => b,
        };
        match self.parse_else(names) {
            Err(e) => Err(e),
            Ok(else_body) => Ok(
                Expr::If { cond: Box::new(cond), then_body: Box::new(then_body), else_body },
            ),
        }
    }

    fn parse_else(&mut self, names: &Names) -> (r: Result<Option<Box<Block>>, ParseError>)
        requires
            old(self).wf(),
        ensures
            final(self).follows(old(self)),
            match p_else(old(self).ts(), old(self).pos as int, names.model()) {
                Ok((b, p)) => r is Ok && (match r->Ok_0 {
                    Some(x) => Some(Box::new(x@)),
                    None => None,
                }) == b && final(self).pos == p,
                Err(e) => r is Err && r->Err_0@ == e,
            },
        decreases old(self).tokens@.len() - old(self).pos, 30int,
    {
        if self.at_word("else") {
            self.consume();
            if self.at_word("if") {
                match self.parse_expr(names) {
                    Err(e) => Err(e),
                    Ok(inner) => {
                        let b = Block { stmts: Vec::new(), ret: Some(inner) };
                        assert(b@.stmts =~= Seq::empty());
                        Ok(Some(Box::new(b)))
                    },
                }
            } else {
                match self.parse_braced(names) {
                    Err(e) => Err(e),
                    Ok(b) => Ok(Some(Box::new(b))),
                }
            }
        } else {
            Ok(None)
        }
    }

    fn parse_braced(&mut self, names: &Names) -> (r: Result<Block, ParseError>)
        requires
            old(self).wf(),
        ensures
            final(self).follows(old(self)),
            match p_braced(old(self).ts(), old(self).pos as int, names.model()) {
                Ok((b, p)) => r is Ok && r->Ok_0@ == b && final(self).pos == p && p > old(self).pos,
                Err(e) => r is Err && r->Err_0@ == e,
            },
        decreases old(self).tokens@.len() - old(self).pos, 28int,
    {
        match self.expect(Token::LBrace) {
            Err(e) => Err(e),
            Ok(_) => self.parse_fn_body(names),
        }
    }

    fn parse_fn_body(&mut self, names: &Names) -> (r: Result<Block, ParseError>)
        requires
            old(self).wf(),
        ensures
            final(self).follows(old(self)),
            match p_block(old(self).ts(), old(self).pos as int, names.model()) {
                Ok((b, p)) => r is Ok && r->Ok_0@ == b && final(self).pos == p,
                Err(e) => r is Err && r->Err_0@ == e,
            },
        decreases old(self).tokens@.len() - old(self).pos, 27int,
    {
        let ghost ts = self.ts();
        let ghost whole = p_block(ts, self.pos as int, names.model());
        let mut stmts: Vec<Stmt> = Vec::new();
        assert(whole is Ok ==> stmt_views(stmts@) + whole->Ok_0.0.stmts =~= whole->Ok_0.0.stmts);
        loop
            invariant
                self.follows(old(self)),
                ts == self.ts(),
                whole == p_block(ts, old(self).pos as int, names.model()),
                whole == (match p_block(ts, self.pos as int, names.model()) {
                    Ok((b, p)) => Ok(
                        (BlockView { stmts: stmt_views(stmts@) + b.stmts, ret: b.ret }, p),
                    ),
                    Err(e) => Err(e),
                }),
            decreases self.tokens@.len() - self.pos,
        {
            let ghost done = stmt_views(stmts@);
            assert(done + Seq::<StmtView>::empty() =~= done);
            let item = match self.parse_item(names) {
                Err(e) => {
                    return Err(e);
                },
                Ok(item) => item,
            };
            match item {
                Item::End => {
                    return Ok(Block { stmts, ret: None });
                },
                Item::Ret(e) => {
                    return Ok(Block { stmts, ret: Some(e) });
                },
                Item::Stmt(s) => {
                    let ghost first = s.model();
                    stmts.push(s);
                    assert(stmt_views(stmts@) =~= done.push(first));
                    assert(forall|rest: Seq<StmtView>|
                        #[trigger] (stmt_views(stmts@) + rest) =~= done + (seq![first] + rest));
                },
            }
        }
    }

    fn parse_let(&mut self, names: &Names) -> (r: Result<(String, Expr), ParseError>)
        requires
            old(self).wf(),
        ensures
            final(self).follows(old(self)),
            match p_let(old(self).ts(), old(self).pos as int, names.model()) {
                Ok((name, e, p)) => r is Ok && r->Ok_0.0@ == name && r->Ok_0.1@ == e
                    && final(self).pos == p && p > old(self).pos,
                Err(e) => r is Err && r->Err_0@ == e,
            },
        decreases old(self).tokens@.len() - old(self).pos, 25int,
    {
        let name = match self.expect_ident() {
            Err(e) => {
                return Err(e);
            },
            Ok(s) => s,
        };
        match self.expect(Token::Equals) {
            Err(e) => {
                return Err(e);
            },
            Ok(_) => {},
        }
        let expr = match self.parse_expr(names) {
            Err(e) => {
                return Err(e);
            },
            Ok(e) => e,
        };
        match self.expect(Token::Semicolon) {
            Err(e) => Err(e),
            Ok(_) => Ok((name, expr)),
        }
    }

    /// Whether an assignment starts at the position.
    fn at_assignment(&self) -> (r: bool)
        requires
            self.wf(),
        ensures
            r == (self.ts()[self.pos as int] is Ident && !is_expr_word(
                self.ts()[self.pos as int]->Ident_0,
            ) && self.pos + 1 < self.ts().len() && self.ts()[self.pos + 1] is Equals),
    {
        match self.peek() {
            Token::Ident(s) => if same_text(s, "if") || same_text(s, "true") || same_text(
                s,
                "false",
            ) || same_text(s, "else") {
                false
            } else {
                match self.peek2() {
                    Some(Token::Equals) => true,
                    _ => false,
                }
            },
            _ => false,
        }
    }

    fn parse_item(&mut self, names: &Names) -> (r: Result<Item, ParseError>)
        requires
            old(self).wf(),
        ensures
            final(self).follows(old(self)),
            match p_item(old(self).ts(), old(self).pos as int, names.model()) {
                Ok((item, p)) => r is Ok && r->Ok_0.model() == item && final(self).pos == p && (
                item is Stmt ==> p > old(self).pos),
                Err(e) => r is Err && r->Err_0@ == e,
            },
        decreases old(self).tokens@.len() - old(self).pos, 26int,
    {
        if self.at(&Token::RBrace) || self.at(&Token::Eof) {
            self.consume();
            return Ok(Item::End);
        }
        if self.at_word("let") {
            self.consume();
            return match self.parse_let(names) {
                Err(e) => Err(e),
                Ok((name, expr)) => Ok(Item::Stmt(Stmt::Let { name, expr })),
            };
        }
        if self.at_word("while") {
            self.consume();
            let cond = match self.parse_expr(names) {
                Err(e) => {
                    return Err(e);
                },
                Ok(c) => c,
            };
            return match self.parse_braced(names) {
                Err(e) => Err(e),
                Ok(body) => Ok(Item::Stmt(Stmt::While { cond, body: Box::new(body) })),
            };
        }
        if self.at_assignment() {
            return match self.parse_let(names) {
                Err(e) => Err(e),
                Ok((name, expr)) => Ok(Item::Stmt(Stmt::Assign { name, expr })),
            };
        }
        let expr = match self.parse_expr(names) {
            Err(e) => {
                return Err(e);
            },
            Ok(e) => e,
        };
        let is_block_expr = match &expr {
            Expr::If { .. } => true,
            _ => false,
        };
        if self.at(&Token::Semicolon) {
            self.consume();
            Ok(Item::Stmt(Stmt::ExprStmt(expr)))
        } else if is_block_expr && !self.at(&Token::RBrace) {
            Ok(Item::Stmt(Stmt::ExprStmt(expr)))
        } else {
            match self.expect(Token::RBrace) {
                Err(e) => Err(e),
                Ok(_) => Ok(Item::Ret(expr)),
            }
        }
    }

    fn parse_idents(&mut self) -> (r: Result<Vec<String>, ParseError>)
        requires
            old(self).wf(),
        ensures
            final(self).follows(old(self)),
            match p_idents(old(self).ts(), old(self).pos as int) {
                Ok((ids, p)) => r is Ok && views(r->Ok_0@) == ids && final(self).pos == p,
                Err(e) => r is Err && r->Err_0@ == e,
            },
    {
        let ghost ts = self.ts();
        let ghost whole = p_idents(ts, self.pos as int);
        let mut out: Vec<String> = Vec::new();
        assert(whole is Ok ==> views(out@) + whole->Ok_0.0 =~= whole->Ok_0.0);
        while !self.at(&Token::RAngle) && !self.at(&Token::Eof)
            invariant
                self.follows(old(self)),
                ts == self.ts(),
                whole == p_idents(ts, old(self).pos as int),
                whole == (match p_idents(ts, self.pos as int) {
                    Ok((rest, p)) => Ok((views(out@) + rest, p)),
                    Err(e) => Err(e),
                }),
            decreases self.tokens@.len() - self.pos,
        {
            let ghost done = views(out@);
            let one = match self.expect_ident() {
                Err(e) => {
                    return Err(e);
                },
                Ok(t) => t,
            };
            self.skip_comma();
            let ghost first = one@;
            out.push(one);
            assert(views(out@) =~= done.push(first));
            assert(forall|rest: Seq<Seq<char>>|
                #[trigger] (views(out@) + rest) =~= done + (seq![first] + rest));
        }
        assert(views(out@) + Seq::<Seq<char>>::empty() =~= views(out@));
        Ok(out)
    }

    fn parse_generics(&mut self) -> (r: Result<Vec<String>, ParseError>)
        requires
            old(self).wf(),
        ensures
            final(self).follows(old(self)),
            match p_generics(old(self).ts(), old(self).pos as int) {
                Ok((ids, p)) => r is Ok && views(r->Ok_0@) == ids && final(self).pos == p,
                Err(e) => r is Err && r->Err_0@ == e,
            },
    {
        if self.at(&Token::LAngle) {
            self.consume();
            let params = match self.parse_idents() {
                Err(e) => {
                    return Err(e);
                },
                Ok(ids) => ids,
            };
            match self.expect(Token::RAngle) {
                Err(e) => Err(e),
                Ok(_) => Ok(params),
            }
        } else {
            let none: Vec<String> = Vec::new();
            assert(views(none@) =~= Seq::empty());
            Ok(none)
        }
    }

    fn parse_field(&mut self, names: &Names) -> (r: Result<(String, SourceType), ParseError>)
        requires
            old(self).wf(),
        ensures
            final(self).follows(old(self)),
            match p_field(old(self).ts(), old(self).pos as int, names.model()) {
                Ok((name, ty, p)) => r is Ok && r->Ok_0.0@ == name && r->Ok_0.1@ == ty
                    && final(self).pos == p && p > old(self).pos,
                Err(e) => r is Err && r->Err_0@ == e,
            },
    {
        let name = match self.expect_ident() {
            Err(e) => {
                return Err(e);
            },
            Ok(s) => s,
        };
        match self.expect(Token::Colon) {
            Err(e) => {
                return Err(e);
            },
            Ok(_) => {},
        }
        match self.parse_type(names) {
            Err(e) => Err(e),
            Ok(ty) => Ok((name, ty)),
        }
    }

    fn parse_fields(&mut self, names: &Names) -> (r: Result<Vec<ToyField>, ParseError>)
        requires
            old(self).wf(),
        ensures
            final(self).follows(old(self)),
            match p_fields(old(self).ts(), old(self).pos as int, names.model()) {
                Ok((fields, p)) => r is Ok && views(r->Ok_0@) == fields && final(self).pos == p,
                Err(e) => r is Err && r->Err_0@ == e,
            },
    {
        let ghost ts = self.ts();
        let ghost whole = p_fields(ts, self.pos as int, names.model());
        let mut out: Vec<ToyField> = Vec::new();
        assert(whole is Ok ==> views(out@) + whole->Ok_0.0 =~= whole->Ok_0.0);
        while !self.at(&Token::RBrace) && !self.at(&Token::Eof)
            invariant
                self.follows(old(self)),
                ts == self.ts(),
                whole == p_fields(ts, old(self).pos as int, names.model()),
                whole == (match p_fields(ts, self.pos as int, names.model()) {
                    Ok((rest, p)) => Ok((views(out@) + rest, p)),
                    Err(e) => Err(e),
                }),
            decreases self.tokens@.len() - self.pos,
        {
            let ghost done = views(out@);
            let (name, rust_type) = match self.parse_field(names) {
                Err(e) => {
                    return Err(e);
                },
                Ok(f) => f,
            };
            self.skip_comma();
            let one = ToyField { name, rust_type };
            let ghost first = one@;
            out.push(one);
            assert(views(out@) =~= done.push(first));
            assert(forall|rest: Seq<ToyFieldView>|
                #[trigger] (views(out@) + rest) =~= done + (seq![first] + rest));
        }
        assert(views(out@) + Seq::<ToyFieldView>::empty() =~= views(out@));
        Ok(out)
    }

    fn parse_params(&mut self, names: &Names) -> (r: Result<Vec<ToyParam>, ParseError>)
        requires
            old(self).wf(),
        ensures
            final(self).follows(old(self)),
            match p_params(old(self).ts(), old(self).pos as int, names.model()) {
                Ok((params, p)) => r is Ok && views(r->Ok_0@) == params && final(self).pos == p,
                Err(e) => r is Err && r->Err_0@ == e,
            },
    {
        let ghost ts = self.ts();
        let ghost whole = p_params(ts, self.pos as int, names.model());
        let mut out: Vec<ToyParam> = Vec::new();
        assert(whole is Ok ==> views(out@) + whole->Ok_0.0 =~= whole->Ok_0.0);
        while !self.at(&Token::RParen) && !self.at(&Token::Eof)
            invariant
                self.follows(old(self)),
                ts == self.ts(),
                whole == p_params(ts, old(self).pos as int, names.model()),
                whole == (match p_params(ts, self.pos as int, names.model()) {
                    Ok((rest, p)) => Ok((views(out@) + rest, p)),
                    Err(e) => Err(e),
                }),
            decreases self.tokens@.len() - self.pos,
        {
            let ghost done = views(out@);
            let (name, ty) = match self.parse_field(names) {
                Err(e) => {
                    return Err(e);
                },
                Ok(f) => f,
            };
            self.skip_comma();
            let one = ToyParam { name, ty };
            let ghost first = one@;
            out.push(one);
            assert(views(out@) =~= done.push(first));
            assert(forall|rest: Seq<ToyParamView>|
                #[trigger] (views(out@) + rest) =~= done + (seq![first] + rest));
        }
        assert(views(out@) + Seq::<ToyParamView>::empty() =~= views(out@));
        Ok(out)
    }

    fn parse_struct(&mut self, struct_names: &Vec<String>) -> (r: Result<
        (String, ToyStruct),
        ParseError,
    >)
        requires
            old(self).wf(),
        ensures
            final(self).follows(old(self)),
            match p_struct(old(self).ts(), old(self).pos as int, views(struct_names@)) {
                Ok((name, def, p)) => r is Ok && r->Ok_0.0@ == name && r->Ok_0.1@ == def
                    && final(self).pos == p && p > old(self).pos,
                Err(e) => r is Err && r->Err_0@ == e,
            },
    {
        self.consume();
        let name = match self.expect_ident() {
            Err(e) => {
                return Err(e);
            },
            Ok(s) => s,
        };
        let type_params = match self.parse_generics() {
            Err(e) => {
                return Err(e);
            },
            Ok(ids) => ids,
        };
        let mut all_names = crate::text::duplicate_all(struct_names);
        let ghost before = views(all_names@);
        all_names.push(name.clone());
        assert(views(all_names@) =~= before.push(name@));
        match self.expect(Token::LBrace) {
            Err(e) => {
                return Err(e);
            },
            Ok(_) => {},
        }
        let names = Names { type_params, struct_names: all_names };
        let fields = match self.parse_fields(&names) {
            Err(e) => {
                return Err(e);
            },
            Ok(fields) => fields,
        };
        match self.expect(Token::RBrace) {
            Err(e) => Err(e),
            Ok(_) => Ok((name, ToyStruct { type_params: names.type_params, fields })),
        }
    }

    fn parse_fn(&mut self, struct_names: &Vec<String>) -> (r: Result<
        (String, ToyFunction),
        ParseError,
    >)
        requires
            old(self).wf(),
        ensures
            final(self).follows(old(self)),
            match p_fn(old(self).ts(), old(self).pos as int, views(struct_names@)) {
                Ok((name, def, p)) => r is Ok && r->Ok_0.0@ == name && r->Ok_0.1@ == def
                    && final(self).pos == p && p > old(self).pos,
                Err(e) => r is Err && r->Err_0@ == e,
            },
    {
        self.consume();
        let name = match self.expect_ident() {
            Err(e) => {
                return Err(e);
            },
            Ok(s) => s,
        };
        let type_params = match self.parse_generics() {
            Err(e) => {
                return Err(e);
            },
            Ok(ids) => ids,
        };
        match self.expect(Token::LParen) {
            Err(e) => {
                return Err(e);
            },
            Ok(_) => {},
        }
        let names = Names { type_params, struct_names: crate::text::duplicate_all(struct_names) };
        let params = match self.parse_params(&names) {
            Err(e) => {
                return Err(e);
            },
            Ok(params) => params,
        };
        match self.expect(Token::RParen) {
            Err(e) => {
                return Err(e);
            },
            Ok(_) => {},
        }
        let return_ty = if self.at(&Token::Arrow) {
            self.consume();
            match self.parse_type(&names) {
                Err(e) => {
                    return Err(e);
                },
                Ok(t) => Some(t),
            }
        } else {
            None
        };
        let body = if self.at(&Token::LBrace) {
            match self.parse_braced(&names) {
                Err(e) => {
                    return Err(e);
                },
                Ok(b) => Some(b),
            }
        } else {
            None
        };
        let is_export = same_text(&name, "main");
        Ok((name, ToyFunction { type_params: names.type_params, params, return_ty, body, is_export }))
    }

    fn parse_path(&mut self) -> (r: Result<String, ParseError>)
        requires
            old(self).wf(),
        ensures
            final(self).follows(old(self)),
            match p_path(old(self).ts(), old(self).pos as int) {
                Ok((path, p)) => r is Ok && r->Ok_0@ == path && final(self).pos == p && p > old(
                    self,
                ).pos,
                Err(e) => r is Err && r->Err_0@ == e,
            },
    {
        let mut path = match self.expect_ident() {
            Err(e) => {
                return Err(e);
            },
            Ok(s) => s,
        };
        let ghost ts = self.ts();
        let ghost whole = p_path(ts, old(self).pos as int);
        while self.at(&Token::DoubleColon)
            invariant
                self.follows(old(self)),
                self.pos > old(self).pos,
                ts == self.ts(),
                whole == p_path(ts, old(self).pos as int),
                whole == p_path_rest(ts, self.pos as int, path@),
            decreases self.tokens@.len() - self.pos,
        {
            self.consume();
            let segment = match self.expect_ident() {
                Err(e) => {
                    return Err(e);
                },
                Ok(s) => s,
            };
            path.append("::");
            path.append(&segment);
        }
        Ok(path)
    }

    fn parse_program(&mut self) -> (r: Result<ToylangRegistry, ParseError>)
        requires
            old(self).wf(),
            old(self).pos == 0,
        ensures
            (match r {
                Ok(registry) => Ok(registry@),
                Err(e) => Err(e@),
            }) == program_of(old(self).ts()),
    {
        let ghost ts = self.ts();
        let ghost whole = p_program(ts, 0, empty_program());
        let mut structs: NameMap<ToyStruct> = NameMap::new();
        let mut functions: NameMap<ToyFunction> = NameMap::new();
        let mut imports: Vec<String> = Vec::new();
        let mut struct_names: Vec<String> = Vec::new();
        let ghost mut done = empty_program();
        assert(structs@ =~= done.structs);
        assert(functions@ =~= done.functions);
        assert(views(imports@) =~= done.imports);
        assert(views(struct_names@) =~= done.struct_names);
        while !self.at(&Token::Eof)
            invariant
                self.follows(old(self)),
                ts == self.ts(),
                whole == p_program(ts, 0, empty_program()),
                whole == p_program(ts, self.pos as int, done),
                done.structs == structs@,
                done.functions == functions@,
                done.imports == views(imports@),
                done.struct_names == views(struct_names@),
            decreases self.tokens@.len() - self.pos,
        {
            if self.at_word("use") {
                self.consume();
                let path = match self.parse_path() {
                    Err(e) => {
                        return Err(e);
                    },
                    Ok(path) => path,
                };
                let ghost before = views(imports@);
                imports.push(path);
                proof {
                    assert(views(imports@) =~= before.push(path@));
                    done = ProgramView { imports: before.push(path@), ..done };
                }
            } else if self.at_word("struct") {
                let (name, def) = match self.parse_struct(&struct_names) {
                    Err(e) => {
                        return Err(e);
                    },
                    Ok(d) => d,
                };
                if starts_with(&name, "__toylang_") {
                    return Err(ParseError::ReservedName { name });
                }
                if structs.contains_key(&name) {
                    return Err(ParseError::DuplicateStruct { name });
                }
                let ghost before = views(struct_names@);
                let ghost name_view = name@;
                let ghost def_view = def@;
                struct_names.push(name.clone());
                structs.insert(name, def);
                proof {
                    assert(views(struct_names@) =~= before.push(name_view));
                    done = ProgramView {
                        structs: put(done.structs, name_view, def_view),
                        struct_names: before.push(name_view),
                        ..done
                    };
                }
            } else if self.at_word("fn") {
                let (name, def) = match self.parse_fn(&struct_names) {
                    Err(e) => {
                        return Err(e);
                    },
                    Ok(d) => d,
                };
                if starts_with(&name, "__toylang_") {
                    return Err(ParseError::ReservedName { name });
                }
                if functions.contains_key(&name) {
                    return Err(ParseError::DuplicateFunction { name });
                }
                let ghost name_view = name@;
                let ghost def_view = def@;
                functions.insert(name, def);
                proof {
                    done = ProgramView {
                        functions: put(done.functions, name_view, def_view),
                        ..done
                    };
                }
            } else {
                return Err(
                    ParseError::UnexpectedTopLevelToken { got: self.peek().to_text() },
                );
            }
        }
        let accessor_pairs = synthesize_accessor_pairs(&structs);
        let r = ToylangRegistry {
            structs,
            functions,
            imports,
            typeid_table: TypeIdTable::new(),
            trait_impls: Vec::new(),
            accessor_pairs,
            discovered_trait_impl_instances: Vec::new(),
        };
        proof {
            assert(r@.typeid_table =~= Seq::empty());
            assert(r@.trait_impls =~= Seq::empty());
            assert(r@.discovered_trait_impl_instances =~= Seq::empty());
        }
        Ok(r)
    }
}

/// Whether every integer literal of a text, up to the first error, fits in 64
/// bits.
pub open spec fn literals_fit(src: Seq<char>) -> bool {
    !(lex(classed(src), 0) matches Err(LexStopView::LiteralTooLarge))
}

/// The registry of the program that a text writes, or why it is none.
pub open spec fn parsed(src: Seq<char>) -> Result<RegistryView, ParseErrorView> {
    match lex(classed(src), 0) {
        Err(LexStopView::Error(e)) => Err(e),
        Err(LexStopView::LiteralTooLarge) => arbitrary(),
        Ok(ts) => program_of(ts),
    }
}

/// The view of the outcome of parsing.
pub open spec fn parse_outcome(r: Result<ToylangRegistry, ParseError>) -> Result<
    RegistryView,
    ParseErrorView,
> {
    match r {
        Ok(registry) => Ok(registry@),
        Err(e) => Err(e@),
    }
}

/// The registry of the program that some tokens write.
pub fn parse_tokens(tokens: Vec<Token>) -> (r: Result<ToylangRegistry, ParseError>)
    requires
        well_ended(views(tokens@)),
    ensures
        parse_outcome(r) == program_of(views(tokens@)),
{
    let mut parser = Parser::new(tokens);
    parser.parse_program()
}

/// The tokens of a text.
fn tokenize(src: &str) -> (r: Result<Vec<Token>, ParseError>)
    requires
        literals_fit(src@),
    ensures
        match lex(classed(src@), 0) {
            Err(LexStopView::Error(e)) => r is Err && r->Err_0@ == e,
            Err(LexStopView::LiteralTooLarge) => false,
            Ok(ts) => r is Ok && views(r->Ok_0@) == ts && well_ended(ts),
        },
{
    let cs = classify(src);
    match lex_classed(&cs) {
        Ok(ts) => Ok(ts),
        Err(LexStop::Error(e)) => Err(e),
        Err(LexStop::LiteralTooLarge) => Ok(Vec::new()),
    }
}

/// The registry of the program that a text writes, or why it is none.
pub fn parse(src: &str) -> (r: Result<ToylangRegistry, ParseError>)
    requires
        literals_fit(src@),
    ensures
        parse_outcome(r) == parsed(src@),
{
    match tokenize(src) {
        Err(e) => Err(e),
        Ok(tokens) => parse_tokens(tokens),
    }
}

/// The registry of the program that a text writes, or why it is none; `None`
/// where an integer literal does not fit in 64 bits.
pub fn try_parse(src: &str) -> (r: Option<Result<ToylangRegistry, ParseError>>)
    ensures
        r is Some <==> literals_fit(src@),
        r is Some ==> parse_outcome(r->0) == parsed(src@),
{
    let cs = classify(src);
    match lex_classed(&cs) {
        Err(LexStop::LiteralTooLarge) => None,
        _ => Some(parse(src)),
    }
}

} // verus!
