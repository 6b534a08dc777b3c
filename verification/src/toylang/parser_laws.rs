//! What holds of parsing: whatever is written out as tokens is read back.
//! Operators group to the left, and those that bind more tightly first.
use crate::toylang::ast::{BinOp, BlockView, ExprView, StmtView};
use crate::toylang::lexer::TokenView;
use crate::toylang::parser::{
    is_expr_word, op_on, p_args, p_binary, p_binary_rest, p_block, p_braced, p_call_args, p_closed_args, p_else, p_expr, p_if, p_item,
    p_lit_field_list, p_lit_fields, p_named, p_optional_type_args, p_postfix, p_postfix_rest, p_primary, p_type, p_type_args, p_types,
    take_ident, ItemView, NamesView, ParseErrorView,
};
use crate::toylang::typed_ast::SourceTypeView;
use vstd::prelude::*;

verus! {

broadcast use vstd::seq::group_seq_axioms;

/// The token of a binary operator.
pub open spec fn op_token(op: BinOp) -> TokenView {
    match op {
        BinOp::Add => TokenView::Plus,
        BinOp::Sub => TokenView::Minus,
        BinOp::Mul => TokenView::Star,
        BinOp::Div => TokenView::Slash,
        BinOp::Eq => TokenView::EqEq,
        BinOp::Ne => TokenView::BangEq,
        BinOp::Lt => TokenView::Lt,
        BinOp::Le => TokenView::LAngleEq,
        BinOp::Gt => TokenView::Gt,
        BinOp::Ge => TokenView::RAngleEq,
        BinOp::And => TokenView::AmpAmp,
        BinOp::Or => TokenView::PipePipe,
    }
}

/// How loosely a binary operator binds: products first, then sums, then
/// comparisons, then `&&`, then `||`.
pub open spec fn looseness(op: BinOp) -> nat {
    match op {
        BinOp::Mul | BinOp::Div => 1,
        BinOp::Add | BinOp::Sub => 2,
        BinOp::Eq | BinOp::Ne | BinOp::Lt | BinOp::Le | BinOp::Gt | BinOp::Ge => 3,
        BinOp::And => 4,
        BinOp::Or => 5,
    }
}

/// How loosely the operator at the top of an expression binds, if there is one.
pub open spec fn top(e: ExprView) -> nat {
    match e {
        ExprView::BinaryOp { op, left, right } => looseness(op),
        _ => 0,
    }
}

/// Whether an expression is an access to a field or a call of a method.
pub open spec fn is_access(e: ExprView) -> bool {
    e is FieldAccess || e is MethodCall
}

/// Whether a word is one of the grammar.
pub open spec fn is_keyword(s: Seq<char>) -> bool {
    s == "if"@ || s == "else"@ || s == "let"@ || s == "while"@ || s == "true"@ || s == "false"@
}

/// Whether a word names a type that is built in.
pub open spec fn is_built_in(s: Seq<char>) -> bool {
    s == "i32"@ || s == "i64"@ || s == "f64"@ || s == "bool"@ || s == "usize"@
}

/// Whether a type can be written. A name stands for what it is known as.
pub open spec fn type_fits(t: SourceTypeView, names: NamesView) -> bool
    decreases t,
{
    match t {
        SourceTypeView::I32 | SourceTypeView::I64 | SourceTypeView::F64 | SourceTypeView::Bool
        | SourceTypeView::Usize => true,
        SourceTypeView::TypeParam(name) => names.type_params.contains(name) && !is_built_in(name)
            && name != "mut"@,
        SourceTypeView::StructRef { name, type_args } => {
            &&& names.struct_names.contains(name)
            &&& name != "mut"@
            &&& type_args.len() == 0 ==> !is_built_in(name) && !names.type_params.contains(name)
            &&& types_fit(type_args, names)
        },
        SourceTypeView::RustType { name, type_args } => {
            &&& !names.struct_names.contains(name)
            &&& name != "mut"@
            &&& type_args.len() == 0 ==> !is_built_in(name) && !names.type_params.contains(name)
            &&& types_fit(type_args, names)
        },
        SourceTypeView::Ref { inner } => type_fits(*inner, names),
        _ => false,
    }
}

/// Whether some types can be written.
pub open spec fn types_fit(ts: Seq<SourceTypeView>, names: NamesView) -> bool
    decreases ts,
{
    ts.len() == 0 || type_fits(ts[0], names) && types_fit(ts.drop_first(), names)
}

/// A type as tokens.
pub open spec fn type_tokens(t: SourceTypeView) -> Seq<TokenView>
    decreases t, 0int,
{
    match t {
        SourceTypeView::I32 => seq![TokenView::Ident("i32"@)],
        SourceTypeView::I64 => seq![TokenView::Ident("i64"@)],
        SourceTypeView::F64 => seq![TokenView::Ident("f64"@)],
        SourceTypeView::Bool => seq![TokenView::Ident("bool"@)],
        SourceTypeView::Usize => seq![TokenView::Ident("usize"@)],
        SourceTypeView::TypeParam(name) => seq![TokenView::Ident(name)],
        SourceTypeView::StructRef { name, type_args } => seq![TokenView::Ident(name)]
            + args_tokens(type_args),
        SourceTypeView::RustType { name, type_args } => seq![TokenView::Ident(name)]
            + args_tokens(type_args),
        SourceTypeView::Ref { inner } => seq![TokenView::Ampersand] + type_tokens(*inner),
        _ => Seq::empty(),
    }
}

/// Types, each with a comma behind it.
pub open spec fn types_tokens(ts: Seq<SourceTypeView>) -> Seq<TokenView>
    decreases ts, 0int,
{
    if ts.len() == 0 {
        Seq::empty()
    } else {
        type_tokens(ts[0]) + seq![TokenView::Comma] + types_tokens(ts.drop_first())
    }
}

/// Type arguments between angle brackets, or nothing where there are none.
pub open spec fn args_tokens(ts: Seq<SourceTypeView>) -> Seq<TokenView>
    decreases ts, 1int,
{
    if ts.len() == 0 {
        Seq::empty()
    } else {
        seq![TokenView::LAngle] + types_tokens(ts) + seq![TokenView::RAngle]
    }
}

/// Whether an expression can be written without brackets: operands of an
/// operator bind more tightly than it, or, on its left, as tightly.
pub open spec fn fits(e: ExprView, names: NamesView) -> bool
    decreases e,
{
    match e {
        ExprView::IntLit(n, ty) => true,
        ExprView::BoolLit(b) => true,
        ExprView::StringLit(s) => true,
        ExprView::ByteStringLit(b) => false,
        ExprView::Var(name) => !is_keyword(name) && !names.struct_names.contains(name),
        ExprView::UnaryNeg(inner) => fits(*inner, names) && top(*inner) == 0 && !is_access(*inner),
        ExprView::Ref(inner) => fits(*inner, names) && top(*inner) == 0 && !is_access(*inner),
        ExprView::BinaryOp { op, left, right } => {
            &&& fits(*left, names)
            &&& fits(*right, names)
            &&& top(*left) <= looseness(op)
            &&& top(*right) < looseness(op)
        },
        ExprView::FieldAccess { receiver, field } => fits(*receiver, names) && top(*receiver) == 0,
        ExprView::MethodCall { receiver, method, args } => fits(*receiver, names) && top(*receiver)
            == 0 && all_fit(args, names),
        ExprView::FnCall { name, type_args, args } => !is_keyword(name) && types_fit(
            type_args,
            names,
        ) && all_fit(args, names),
        ExprView::StaticCall { ty, method, type_args, args } => !is_keyword(ty) && types_fit(
            type_args,
            names,
        ) && all_fit(args, names),
        ExprView::StructLit { name, type_args, fields } => !is_keyword(name)
            && names.struct_names.contains(name) && types_fit(type_args, names) && fields_fit(
            fields,
            names,
        ),
        ExprView::If { cond, then_body, else_body } => {
            &&& fits(*cond, names)
            &&& block_fits(*then_body, names)
            &&& else_body matches Some(b) ==> block_fits(*b, names)
        },
    }
}

/// Whether some expressions can be written.
pub open spec fn all_fit(es: Seq<ExprView>, names: NamesView) -> bool
    decreases es,
{
    es.len() == 0 || fits(es[0], names) && all_fit(es.drop_first(), names)
}

/// Whether the fields of a literal can be written.
pub open spec fn fields_fit(fs: Seq<(Seq<char>, ExprView)>, names: NamesView) -> bool
    decreases fs,
{
    fs.len() == 0 || fits(fs[0].1, names) && fields_fit(fs.drop_first(), names)
}

/// Whether a statement can be written.
pub open spec fn stmt_fits(s: StmtView, names: NamesView) -> bool
    decreases s,
{
    match s {
        StmtView::Let { name, expr } => fits(expr, names),
        StmtView::ExprStmt(expr) => fits(expr, names),
        StmtView::While { cond, body } => fits(cond, names) && block_fits(*body, names),
        StmtView::Assign { name, expr } => !is_keyword(name) && fits(expr, names),
    }
}

/// Whether some statements can be written.
pub open spec fn stmts_fit(ss: Seq<StmtView>, names: NamesView) -> bool
    decreases ss,
{
    ss.len() == 0 || stmt_fits(ss[0], names) && stmts_fit(ss.drop_first(), names)
}

/// Whether a block can be written.
pub open spec fn block_fits(b: BlockView, names: NamesView) -> bool
    decreases b,
{
    stmts_fit(b.stmts, names) && (b.ret matches Some(e) ==> fits(e, names))
}

/// An expression as tokens.
pub open spec fn tokens(e: ExprView) -> Seq<TokenView>
    decreases e, 0int,
{
    match e {
        ExprView::IntLit(n, ty) => seq![TokenView::IntLit(n, ty)],
        ExprView::BoolLit(b) => seq![
            TokenView::Ident(
                if b {
                    "true"@
                } else {
                    "false"@
                },
            ),
        ],
        ExprView::StringLit(s) => seq![TokenView::StringLit(s)],
        ExprView::ByteStringLit(b) => Seq::empty(),
        ExprView::Var(name) => seq![TokenView::Ident(name)],
        ExprView::UnaryNeg(inner) => seq![TokenView::Minus] + tokens(*inner),
        ExprView::Ref(inner) => seq![TokenView::Ampersand] + tokens(*inner),
        ExprView::BinaryOp { op, left, right } => tokens(*left) + (seq![op_token(op)] + tokens(
            *right,
        )),
        ExprView::FieldAccess { receiver, field } => tokens(*receiver) + seq![
            TokenView::Dot,
            TokenView::Ident(field),
        ],
        ExprView::MethodCall { receiver, method, args } => tokens(*receiver) + (seq![
            TokenView::Dot,
            TokenView::Ident(method),
        ] + call_tokens(args)),
        ExprView::FnCall { name, type_args, args } => seq![TokenView::Ident(name)] + (args_tokens(
            type_args,
        ) + call_tokens(args)),
        ExprView::StaticCall { ty, method, type_args, args } => seq![
            TokenView::Ident(ty),
            TokenView::DoubleColon,
            TokenView::Ident(method),
        ] + (args_tokens(type_args) + call_tokens(args)),
        ExprView::StructLit { name, type_args, fields } => seq![TokenView::Ident(name)] + (
        args_tokens(type_args) + (seq![TokenView::LBrace] + (fields_tokens(fields) + seq![
            TokenView::RBrace,
        ]))),
        ExprView::If { cond, then_body, else_body } => seq![TokenView::Ident("if"@)] + (tokens(
            *cond,
        ) + (braced_tokens(*then_body) + (match else_body {
            None => Seq::empty(),
            Some(b) => seq![TokenView::Ident("else"@)] + braced_tokens(*b),
        }))),
    }
}

/// Arguments between parentheses.
pub open spec fn call_tokens(es: Seq<ExprView>) -> Seq<TokenView>
    decreases es, 1int,
{
    seq![TokenView::LParen] + (all_tokens(es) + seq![TokenView::RParen])
}

/// Expressions, each with a comma behind it.
pub open spec fn all_tokens(es: Seq<ExprView>) -> Seq<TokenView>
    decreases es, 0int,
{
    if es.len() == 0 {
        Seq::empty()
    } else {
        tokens(es[0]) + (seq![TokenView::Comma] + all_tokens(es.drop_first()))
    }
}

/// The fields of a literal, each with a comma behind it.
pub open spec fn fields_tokens(fs: Seq<(Seq<char>, ExprView)>) -> Seq<TokenView>
    decreases fs, 0int,
{
    if fs.len() == 0 {
        Seq::empty()
    } else {
        seq![TokenView::Ident(fs[0].0), TokenView::Colon] + (tokens(fs[0].1) + (seq![
            TokenView::Comma,
        ] + fields_tokens(fs.drop_first())))
    }
}

/// A block between braces.
pub open spec fn braced_tokens(b: BlockView) -> Seq<TokenView>
    decreases b, 1int,
{
    seq![TokenView::LBrace] + block_tokens(b)
}

/// A block with its closing brace: its statements, then its value.
pub open spec fn block_tokens(b: BlockView) -> Seq<TokenView>
    decreases b, 0int,
{
    stmts_tokens(b.stmts) + (match b.ret {
        None => seq![TokenView::RBrace],
        Some(e) => tokens(e) + seq![TokenView::RBrace],
    })
}

/// Statements, one behind the other.
pub open spec fn stmts_tokens(ss: Seq<StmtView>) -> Seq<TokenView>
    decreases ss, 0int,
{
    if ss.len() == 0 {
        Seq::empty()
    } else {
        stmt_tokens(ss[0]) + stmts_tokens(ss.drop_first())
    }
}

/// A statement as tokens.
pub open spec fn stmt_tokens(s: StmtView) -> Seq<TokenView>
    decreases s, 0int,
{
    match s {
        StmtView::Let { name, expr } => seq![
            TokenView::Ident("let"@),
            TokenView::Ident(name),
            TokenView::Equals,
        ] + (tokens(expr) + seq![TokenView::Semicolon]),
        StmtView::ExprStmt(expr) => tokens(expr) + seq![TokenView::Semicolon],
        StmtView::While { cond, body } => seq![TokenView::Ident("while"@)] + (tokens(cond)
            + braced_tokens(*body)),
        StmtView::Assign { name, expr } => seq![TokenView::Ident(name), TokenView::Equals] + (
        tokens(expr) + seq![TokenView::Semicolon]),
    }
}

/// Whether some tokens stand at `pos`, with one more behind them.
pub open spec fn stand(ts: Seq<TokenView>, pos: int, w: Seq<TokenView>) -> bool {
    &&& 0 <= pos
    &&& pos + w.len() < ts.len()
    &&& forall|i: int| 0 <= i < w.len() ==> ts[pos + i] == #[trigger] w[i]
}

/// Whether a token does not go on with a word before it.
spec fn ends_word(t: TokenView) -> bool {
    !(t is DoubleColon) && !(t is LAngle) && !(t is LParen) && t != TokenView::Ident("else"@)
}

/// Whether a token does not go on with an expression whose operators bind no
/// more loosely than `level`.
spec fn ends(t: TokenView, level: nat) -> bool {
    ends_word(t) && !(t is Dot) && forall|l: nat| l <= level ==> #[trigger] op_on(l, t) is None
}

/// Whether a token can be the first of an expression.
spec fn begins(t: TokenView) -> bool {
    t is IntLit || t is StringLit || t is Ident || t is Minus || t is Ampersand
}

pub proof fn lemma_split(ts: Seq<TokenView>, pos: int, a: Seq<TokenView>, b: Seq<TokenView>)
    requires
        stand(ts, pos, a + b),
    ensures
        stand(ts, pos, a),
        stand(ts, pos + a.len(), b),
{
    assert forall|i: int| 0 <= i < a.len() implies ts[pos + i] == #[trigger] a[i] by {
        assert((a + b)[i] == a[i]);
    }
    assert forall|i: int| 0 <= i < b.len() implies ts[pos + a.len() + i] == #[trigger] b[i] by {
        assert((a + b)[a.len() + i] == b[i]);
        assert(ts[pos + (a.len() + i)] == b[i]);
    }
}

proof fn lemma_first(e: ExprView, names: NamesView)
    requires
        fits(e, names),
    ensures
        tokens(e).len() > 0,
        begins(tokens(e)[0]),
        tokens(e)[0] != TokenView::Ident("let"@),
        tokens(e)[0] != TokenView::Ident("while"@),
    decreases e,
{
    reveal_strlit("let");
    reveal_strlit("while");
    reveal_strlit("true");
    reveal_strlit("false");
    reveal_strlit("if");
    match e {
        ExprView::BinaryOp { op, left, right } => {
            lemma_first(*left, names);
        },
        ExprView::FieldAccess { receiver, field } => {
            lemma_first(*receiver, names);
        },
        ExprView::MethodCall { receiver, method, args } => {
            lemma_first(*receiver, names);
        },
        ExprView::BoolLit(b) => {
            assert("true"@.len() == 4 && "false"@.len() == 5 && "let"@.len() == 3);
            assert("false"@[0] == 'f' && "while"@[0] == 'w');
        },
        ExprView::If { cond, then_body, else_body } => {
            assert("if"@.len() == 2);
        },
        _ => {},
    }
}

pub proof fn lemma_type_first(t: SourceTypeView, names: NamesView)
    requires
        type_fits(t, names),
    ensures
        type_tokens(t).len() > 0,
        type_tokens(t)[0] is Ident || type_tokens(t)[0] is Ampersand,
        type_tokens(t)[0] != TokenView::Ident("mut"@),
{
    reveal_strlit("mut");
    reveal_strlit("i32");
    reveal_strlit("i64");
    reveal_strlit("f64");
    reveal_strlit("bool");
    reveal_strlit("usize");
    assert("i32"@[0] == 'i' && "i64"@[0] == 'i' && "f64"@[0] == 'f' && "mut"@[0] == 'm' && "bool"@[0]
        == 'b' && "usize"@[0] == 'u');
}

/// A type is read back.
pub proof fn lemma_type_read(ts: Seq<TokenView>, pos: int, t: SourceTypeView, names: NamesView)
    requires
        type_fits(t, names),
        stand(ts, pos, type_tokens(t)),
        !(ts[pos + type_tokens(t).len()] is LAngle),
    ensures
        p_type(ts, pos, names) == Ok::<_, ParseErrorView>(
            (t, pos + type_tokens(t).len()),
        ),
    decreases t, 1int,
{
    let w = type_tokens(t);
    lemma_type_first(t, names);
    assert(ts[pos + 0] == w[0]);
    match t {
        SourceTypeView::Ref { inner } => {
            let i = type_tokens(*inner);
            lemma_split(ts, pos, seq![TokenView::Ampersand], i);
            lemma_type_first(*inner, names);
            assert(ts[pos + 1 + 0] == i[0]);
            lemma_type_read(ts, pos + 1, *inner, names);
        },
        SourceTypeView::StructRef { name, type_args } => {
            lemma_split(ts, pos, seq![TokenView::Ident(name)], args_tokens(type_args));
            if type_args.len() > 0 {
                lemma_type_args_read(ts, pos + 1, type_args, names);
                assert(ts[pos + 1 + 0] == args_tokens(type_args)[0]);
            } else {
                assert(type_args =~= Seq::empty());
                assert(w.len() == 1);
            }
        },
        SourceTypeView::RustType { name, type_args } => {
            lemma_split(ts, pos, seq![TokenView::Ident(name)], args_tokens(type_args));
            if type_args.len() > 0 {
                lemma_type_args_read(ts, pos + 1, type_args, names);
                assert(ts[pos + 1 + 0] == args_tokens(type_args)[0]);
            } else {
                assert(type_args =~= Seq::empty());
                assert(w.len() == 1);
            }
        },
        _ => {
            assert(w.len() == 1);
            lemma_built_in();
        },
    }
}

proof fn lemma_built_in()
    ensures
        "i32"@ != "i64"@,
        "i32"@ != "f64"@,
        "i32"@ != "bool"@,
        "i32"@ != "usize"@,
        "i64"@ != "f64"@,
        "i64"@ != "bool"@,
        "i64"@ != "usize"@,
        "f64"@ != "bool"@,
        "f64"@ != "usize"@,
        "bool"@ != "usize"@,
{
    reveal_strlit("i32");
    reveal_strlit("i64");
    reveal_strlit("f64");
    reveal_strlit("bool");
    reveal_strlit("usize");
    assert("i32"@[1] == '3' && "i64"@[1] == '6');
    assert("i32"@[0] == 'i' && "i64"@[0] == 'i' && "f64"@[0] == 'f');
    assert("bool"@.len() == 4 && "usize"@.len() == 5);
}

proof fn lemma_type_args_read(
    ts: Seq<TokenView>,
    pos: int,
    args: Seq<SourceTypeView>,
    names: NamesView,
)
    requires
        args.len() > 0,
        types_fit(args, names),
        stand(ts, pos, args_tokens(args)),
    ensures
        p_type_args(ts, pos, names) == Ok::<_, ParseErrorView>(
            (args, pos + args_tokens(args).len()),
        ),
    decreases args, 2int,
{
    let w = args_tokens(args);
    let inner = types_tokens(args);
    lemma_split(ts, pos, seq![TokenView::LAngle] + inner, seq![TokenView::RAngle]);
    lemma_split(ts, pos, seq![TokenView::LAngle], inner);
    assert(ts[pos + 0] == seq![TokenView::LAngle][0]);
    let end = pos + 1 + inner.len();
    assert(ts[end + 0] == seq![TokenView::RAngle][0]);
    lemma_types_read(ts, pos + 1, args, names);
}

proof fn lemma_types_read(
    ts: Seq<TokenView>,
    pos: int,
    args: Seq<SourceTypeView>,
    names: NamesView,
)
    requires
        types_fit(args, names),
        stand(ts, pos, types_tokens(args)),
        ts[pos + types_tokens(args).len()] is RAngle,
    ensures
        p_types(ts, pos, names) == Ok::<_, ParseErrorView>(
            (args, pos + types_tokens(args).len()),
        ),
    decreases args, 0int,
{
    if args.len() == 0 {
        assert(args =~= Seq::empty());
    } else {
        let first = type_tokens(args[0]);
        let rest = types_tokens(args.drop_first());
        lemma_split(ts, pos, first + seq![TokenView::Comma], rest);
        lemma_split(ts, pos, first, seq![TokenView::Comma]);
        lemma_type_first(args[0], names);
        assert(ts[pos + 0] == first[0]);
        assert(ts[pos + first.len() + 0] == seq![TokenView::Comma][0]);
        lemma_type_read(ts, pos, args[0], names);
        lemma_types_read(ts, pos + first.len() + 1, args.drop_first(), names);
        assert(args =~= seq![args[0]] + args.drop_first());
    }
}

#[verifier::spinoff_prover]
proof fn lemma_primary_fn_call(ts: Seq<TokenView>, pos: int, e: ExprView, names: NamesView)
    requires
        e is FnCall,
        fits(e, names),
        top(e) == 0,
        !is_access(e),
        stand(ts, pos, tokens(e)),
        ends_word(ts[pos + tokens(e).len()]),
    ensures
        p_primary(ts, pos, names) == Ok::<_, ParseErrorView>((e, pos + tokens(e).len())),
    decreases e, 0int,
{
    let w = tokens(e);
    lemma_first(e, names);
    lemma_keywords();
    assert(ts[pos + 0] == w[0]);
    let end = pos + w.len();
    if let ExprView::FnCall { name, type_args, args } = e {
        let a = args_tokens(type_args);
        let c = call_tokens(args);
        lemma_split(ts, pos, seq![TokenView::Ident(name)], a + c);
        lemma_split(ts, pos + 1, a, c);
        assert(ts[pos + 1 + a.len() + 0] == c[0]);
        lemma_call_args(ts, pos + 1 + a.len(), args, names);
        if type_args.len() > 0 {
            lemma_type_args_read(ts, pos + 1, type_args, names);
            assert(ts[pos + 1 + 0] == a[0]);
        } else {
            assert(type_args =~= Seq::empty());
            assert(a.len() == 0);
            assert(ts[pos + 1] is LParen);
        }
        assert(c.len() > 0);
        assert(end == pos + 1 + a.len() + c.len());
        assert(p_named(ts, pos + 1, name, names) == Ok::<_, ParseErrorView>((e, end)));
    }
}

#[verifier::spinoff_prover]
proof fn lemma_primary_static_call(ts: Seq<TokenView>, pos: int, e: ExprView, names: NamesView)
    requires
        e is StaticCall,
        fits(e, names),
        top(e) == 0,
        !is_access(e),
        stand(ts, pos, tokens(e)),
        ends_word(ts[pos + tokens(e).len()]),
    ensures
        p_primary(ts, pos, names) == Ok::<_, ParseErrorView>((e, pos + tokens(e).len())),
    decreases e, 0int,
{
    let w = tokens(e);
    lemma_first(e, names);
    lemma_keywords();
    assert(ts[pos + 0] == w[0]);
    let end = pos + w.len();
    if let ExprView::StaticCall { ty, method, type_args, args } = e {
        let head = seq![TokenView::Ident(ty), TokenView::DoubleColon, TokenView::Ident(method)];
        let a = args_tokens(type_args);
        let c = call_tokens(args);
        lemma_split(ts, pos, head, a + c);
        lemma_split(ts, pos + 3, a, c);
        assert(ts[pos + 1] == head[1]);
        assert(ts[pos + 2] == head[2]);
        assert(ts[pos + 3 + a.len() + 0] == c[0]);
        lemma_call_args(ts, pos + 3 + a.len(), args, names);
        if type_args.len() > 0 {
            lemma_type_args_read(ts, pos + 3, type_args, names);
            assert(ts[pos + 3 + 0] == a[0]);
        } else {
            assert(type_args =~= Seq::empty());
            assert(a.len() == 0);
            assert(ts[pos + 3] is LParen);
        }
        assert(c.len() > 0);
        assert(end == pos + 3 + a.len() + c.len());
        assert(ts[pos + 1] is DoubleColon);
        assert(take_ident(ts, pos + 2) == Ok::<_, ParseErrorView>((method, pos + 3)));
        assert(p_optional_type_args(ts, pos + 3, names) == Ok::<_, ParseErrorView>(
            (type_args, pos + 3 + a.len()),
        ));
        assert(p_named(ts, pos + 1, ty, names) == Ok::<_, ParseErrorView>((e, end)));
    }
}

#[verifier::spinoff_prover]
proof fn lemma_primary_struct_lit(ts: Seq<TokenView>, pos: int, e: ExprView, names: NamesView)
    requires
        e is StructLit,
        fits(e, names),
        top(e) == 0,
        !is_access(e),
        stand(ts, pos, tokens(e)),
        ends_word(ts[pos + tokens(e).len()]),
    ensures
        p_primary(ts, pos, names) == Ok::<_, ParseErrorView>((e, pos + tokens(e).len())),
    decreases e, 0int,
{
    let w = tokens(e);
    lemma_first(e, names);
    lemma_keywords();
    assert(ts[pos + 0] == w[0]);
    let end = pos + w.len();
    if let ExprView::StructLit { name, type_args, fields } = e {
        let a = args_tokens(type_args);
        let f = fields_tokens(fields);
        let inner = f + seq![TokenView::RBrace];
        let c = seq![TokenView::LBrace] + inner;
        lemma_split(ts, pos, seq![TokenView::Ident(name)], a + c);
        lemma_split(ts, pos + 1, a, c);
        let at = pos + 1 + a.len();
        lemma_split(ts, at, seq![TokenView::LBrace], inner);
        lemma_split(ts, at + 1, f, seq![TokenView::RBrace]);
        assert(ts[at + 0] == c[0]);
        assert(ts[at + 1 + f.len() + 0] == seq![TokenView::RBrace][0]);
        lemma_fields(ts, at + 1, fields, names);
        assert(p_lit_fields(ts, at, names) == Ok::<_, ParseErrorView>((fields, end)));
        if type_args.len() > 0 {
            lemma_type_args_read(ts, pos + 1, type_args, names);
            assert(ts[pos + 1 + 0] == a[0]);
        } else {
            assert(type_args =~= Seq::empty());
            assert(a.len() == 0);
            assert(ts[pos + 1] is LBrace);
        }
        assert(ts[at] is LBrace);
        assert(at < end);
        assert(p_named(ts, pos + 1, name, names) == Ok::<_, ParseErrorView>((e, end)));
    }
}

#[verifier::spinoff_prover]
proof fn lemma_primary_if(ts: Seq<TokenView>, pos: int, e: ExprView, names: NamesView)
    requires
        e is If,
        fits(e, names),
        top(e) == 0,
        !is_access(e),
        stand(ts, pos, tokens(e)),
        ends_word(ts[pos + tokens(e).len()]),
    ensures
        p_primary(ts, pos, names) == Ok::<_, ParseErrorView>((e, pos + tokens(e).len())),
    decreases e, 0int,
{
    let w = tokens(e);
    lemma_first(e, names);
    lemma_keywords();
    assert(ts[pos + 0] == w[0]);
    let end = pos + w.len();
    if let ExprView::If { cond, then_body, else_body } = e {
        let c = tokens(*cond);
        let t = braced_tokens(*then_body);
        let l = match else_body {
            None => Seq::empty(),
            Some(b) => seq![TokenView::Ident("else"@)] + braced_tokens(*b),
        };
        lemma_split(ts, pos, seq![TokenView::Ident("if"@)], c + (t + l));
        lemma_split(ts, pos + 1, c, t + l);
        lemma_split(ts, pos + 1 + c.len(), t, l);
        lemma_first(*cond, names);
        let at = pos + 1 + c.len();
        assert(ts[at + 0] == t[0]);
        lemma_terminators();
        lemma_expr(ts, pos + 1, *cond, names);
        lemma_braced(ts, at, *then_body, names);
        let q = at + t.len();
        match else_body {
            None => {
                assert(ts[q] != TokenView::Ident("else"@));
                assert(q == end);
            },
            Some(b) => {
                lemma_split(ts, q, seq![TokenView::Ident("else"@)], braced_tokens(*b));
                assert(ts[q + 0] == seq![TokenView::Ident("else"@)][0]);
                assert(ts[q + 1 + 0] == braced_tokens(*b)[0]);
                lemma_braced(ts, q + 1, *b, names);
            },
        }
        assert(p_else(ts, q, names) == Ok::<_, ParseErrorView>((else_body, end)));
        assert(p_if(ts, pos + 1, names) == Ok::<_, ParseErrorView>((e, end)));
    }
}

proof fn lemma_primary(ts: Seq<TokenView>, pos: int, e: ExprView, names: NamesView)
    requires
        fits(e, names),
        top(e) == 0,
        !is_access(e),
        stand(ts, pos, tokens(e)),
        ends_word(ts[pos + tokens(e).len()]),
    ensures
        p_primary(ts, pos, names) == Ok::<_, ParseErrorView>((e, pos + tokens(e).len())),
    decreases e, 1int,
{
    let w = tokens(e);
    lemma_first(e, names);
    lemma_keywords();
    assert(ts[pos + 0] == w[0]);
    match e {
        ExprView::UnaryNeg(inner) => {
            lemma_split(ts, pos, seq![TokenView::Minus], tokens(*inner));
            lemma_primary(ts, pos + 1, *inner, names);
        },
        ExprView::Ref(inner) => {
            lemma_split(ts, pos, seq![TokenView::Ampersand], tokens(*inner));
            lemma_primary(ts, pos + 1, *inner, names);
        },
        ExprView::Var(name) => {
            assert((pos + w.len()) == pos + 1);
            assert(p_named(ts, pos + 1, name, names) == Ok::<_, ParseErrorView>((e, (pos + w.len()))));
        },
        ExprView::FnCall { .. } => {
            lemma_primary_fn_call(ts, pos, e, names);
        },
        ExprView::StaticCall { .. } => {
            lemma_primary_static_call(ts, pos, e, names);
        },
        ExprView::StructLit { .. } => {
            lemma_primary_struct_lit(ts, pos, e, names);
        },
        ExprView::If { .. } => {
            lemma_primary_if(ts, pos, e, names);
        },
        _ => {
            assert(w.len() == 1);
        },
    }
}

proof fn lemma_keywords()
    ensures
        "true"@ != "false"@,
        "true"@ != "if"@,
        "false"@ != "if"@,
        "else"@ != "if"@,
        "let"@ != "while"@,
{
    reveal_strlit("true");
    reveal_strlit("false");
    reveal_strlit("if");
    reveal_strlit("else");
    reveal_strlit("let");
    reveal_strlit("while");
    assert("true"@.len() == 4 && "false"@.len() == 5 && "if"@.len() == 2 && "else"@.len() == 4
        && "let"@.len() == 3 && "while"@.len() == 5);
}

/// What stands behind an expression in the places where one may stand.
proof fn lemma_terminators()
    ensures
        ends(TokenView::Comma, 5),
        ends(TokenView::Semicolon, 5),
        ends(TokenView::RBrace, 5),
        ends(TokenView::LBrace, 5),
{
}

proof fn lemma_call_args(ts: Seq<TokenView>, pos: int, args: Seq<ExprView>, names: NamesView)
    requires
        all_fit(args, names),
        stand(ts, pos, call_tokens(args)),
    ensures
        p_call_args(ts, pos, names) == Ok::<_, ParseErrorView>((args, pos + call_tokens(args).len())),
        p_closed_args(ts, pos + 1, names) == Ok::<_, ParseErrorView>(
            (args, pos + call_tokens(args).len()),
        ),
    decreases args, 2int,
{
    let w = all_tokens(args);
    lemma_split(ts, pos, seq![TokenView::LParen], w + seq![TokenView::RParen]);
    lemma_split(ts, pos + 1, w, seq![TokenView::RParen]);
    assert(ts[pos + 0] == seq![TokenView::LParen][0]);
    assert(ts[pos + 1 + w.len() + 0] == seq![TokenView::RParen][0]);
    lemma_all(ts, pos + 1, args, names);
}

proof fn lemma_all(ts: Seq<TokenView>, pos: int, args: Seq<ExprView>, names: NamesView)
    requires
        all_fit(args, names),
        stand(ts, pos, all_tokens(args)),
        ts[pos + all_tokens(args).len()] is RParen,
    ensures
        p_args(ts, pos, names) == Ok::<_, ParseErrorView>((args, pos + all_tokens(args).len())),
    decreases args, 0int,
{
    if args.len() == 0 {
        assert(args =~= Seq::empty());
    } else {
        let first = tokens(args[0]);
        let rest = all_tokens(args.drop_first());
        lemma_split(ts, pos, first, seq![TokenView::Comma] + rest);
        lemma_split(ts, pos + first.len(), seq![TokenView::Comma], rest);
        lemma_first(args[0], names);
        lemma_terminators();
        assert(ts[pos + 0] == first[0]);
        assert(ts[pos + first.len() + 0] == seq![TokenView::Comma][0]);
        lemma_expr(ts, pos, args[0], names);
        lemma_all(ts, pos + first.len() + 1, args.drop_first(), names);
        assert(args =~= seq![args[0]] + args.drop_first());
    }
}

proof fn lemma_fields(
    ts: Seq<TokenView>,
    pos: int,
    fs: Seq<(Seq<char>, ExprView)>,
    names: NamesView,
)
    requires
        fields_fit(fs, names),
        stand(ts, pos, fields_tokens(fs)),
        ts[pos + fields_tokens(fs).len()] is RBrace,
    ensures
        p_lit_field_list(ts, pos, names) == Ok::<_, ParseErrorView>(
            (fs, pos + fields_tokens(fs).len()),
        ),
    decreases fs, 0int,
{
    if fs.len() == 0 {
        assert(fs =~= Seq::empty());
    } else {
        let head = seq![TokenView::Ident(fs[0].0), TokenView::Colon];
        let first = tokens(fs[0].1);
        let rest = fields_tokens(fs.drop_first());
        lemma_split(ts, pos, head, first + (seq![TokenView::Comma] + rest));
        lemma_split(ts, pos + 2, first, seq![TokenView::Comma] + rest);
        lemma_split(ts, pos + 2 + first.len(), seq![TokenView::Comma], rest);
        lemma_terminators();
        assert(ts[pos + 0] == head[0]);
        assert(ts[pos + 1] == head[1]);
        assert(ts[pos + 2 + first.len() + 0] == seq![TokenView::Comma][0]);
        lemma_expr(ts, pos + 2, fs[0].1, names);
        lemma_fields(ts, pos + 2 + first.len() + 1, fs.drop_first(), names);
        assert(fs =~= seq![fs[0]] + fs.drop_first());
    }
}

#[verifier::spinoff_prover]
proof fn lemma_postfix_field(ts: Seq<TokenView>, pos: int, e: ExprView, names: NamesView)
    requires
        e is FieldAccess,
        fits(e, names),
        top(e) == 0,
        stand(ts, pos, tokens(e)),
        ends_word(ts[pos + tokens(e).len()]),
    ensures
        p_postfix(ts, pos, names) == p_postfix_rest(ts, pos + tokens(e).len(), e, names),
    decreases e, 1int,
{
    let end = pos + tokens(e).len();
    lemma_first(e, names);
    if let ExprView::FieldAccess { receiver, field } = e {
        let r = tokens(*receiver);
        let d = seq![TokenView::Dot, TokenView::Ident(field)];
        lemma_split(ts, pos, r, d);
        let at = pos + r.len();
        assert(ts[at + 0] == d[0]);
        assert(ts[at + 1] == d[1]);
        lemma_postfix(ts, pos, *receiver, names);
        assert(take_ident(ts, at + 1) == Ok::<_, ParseErrorView>((field, at + 2)));
        assert(p_postfix_rest(ts, at, *receiver, names) == p_postfix_rest(ts, end, e, names));
    }
}

#[verifier::spinoff_prover]
proof fn lemma_postfix_method(ts: Seq<TokenView>, pos: int, e: ExprView, names: NamesView)
    requires
        e is MethodCall,
        fits(e, names),
        top(e) == 0,
        stand(ts, pos, tokens(e)),
        ends_word(ts[pos + tokens(e).len()]),
    ensures
        p_postfix(ts, pos, names) == p_postfix_rest(ts, pos + tokens(e).len(), e, names),
    decreases e, 1int,
{
    let end = pos + tokens(e).len();
    lemma_first(e, names);
    if let ExprView::MethodCall { receiver, method, args } = e {
        let r = tokens(*receiver);
        let d = seq![TokenView::Dot, TokenView::Ident(method)];
        let c = call_tokens(args);
        lemma_split(ts, pos, r, d + c);
        let at = pos + r.len();
        lemma_split(ts, at, d, c);
        assert(ts[at + 0] == d[0]);
        assert(ts[at + 1] == d[1]);
        assert(ts[at + 2 + 0] == c[0]);
        lemma_postfix(ts, pos, *receiver, names);
        lemma_call_args(ts, at + 2, args, names);
        assert(take_ident(ts, at + 1) == Ok::<_, ParseErrorView>((method, at + 2)));
        assert(p_postfix_rest(ts, at, *receiver, names) == p_postfix_rest(ts, end, e, names));
    }
}

/// What is read after the receivers of all accesses has been read.
proof fn lemma_postfix(ts: Seq<TokenView>, pos: int, e: ExprView, names: NamesView)
    requires
        fits(e, names),
        top(e) == 0,
        stand(ts, pos, tokens(e)),
        ends_word(ts[pos + tokens(e).len()]),
    ensures
        p_postfix(ts, pos, names) == p_postfix_rest(ts, pos + tokens(e).len(), e, names),
    decreases e, 2int,
{
    lemma_first(e, names);
    match e {
        ExprView::FieldAccess { .. } => {
            lemma_postfix_field(ts, pos, e, names);
        },
        ExprView::MethodCall { .. } => {
            lemma_postfix_method(ts, pos, e, names);
        },
        _ => {
            lemma_primary(ts, pos, e, names);
        },
    }
}

/// What is read after the left operands of all operators of a level has been
/// read.
proof fn lemma_binary(ts: Seq<TokenView>, pos: int, level: nat, e: ExprView, names: NamesView)
    requires
        fits(e, names),
        top(e) <= level <= 5,
        stand(ts, pos, tokens(e)),
        ends_word(ts[pos + tokens(e).len()]),
        !(ts[pos + tokens(e).len()] is Dot),
        forall|l: nat| l < level ==> #[trigger] op_on(l, ts[pos + tokens(e).len()]) is None,
    ensures
        level > 0 ==> p_binary(ts, pos, level, names) == p_binary_rest(
            ts,
            pos + tokens(e).len(),
            level,
            e,
            names,
        ),
        op_on(level, ts[pos + tokens(e).len()]) is None ==> p_binary(ts, pos, level, names) == Ok::<
            _,
            ParseErrorView,
        >((e, pos + tokens(e).len())),
    decreases e, 3 + level,
{
    let end = pos + tokens(e).len();
    lemma_first(e, names);
    if level == 0 {
        lemma_postfix(ts, pos, e, names);
    } else if top(e) < level {
        lemma_binary(ts, pos, (level - 1) as nat, e, names);
    } else {
        match e {
            ExprView::BinaryOp { op, left, right } => {
                let l = tokens(*left);
                let o = seq![op_token(op)];
                let r = tokens(*right);
                lemma_split(ts, pos, l, o + r);
                let at = pos + l.len();
                lemma_split(ts, at, o, r);
                assert(ts[at + 0] == o[0]);
                lemma_first(*left, names);
                lemma_first(*right, names);
                assert(op_on(level, ts[at]) == Some(op));
                lemma_binary(ts, pos, level, *left, names);
                lemma_binary(ts, at + 1, (level - 1) as nat, *right, names);
                assert(p_binary(ts, at + 1, (level - 1) as nat, names) == Ok::<_, ParseErrorView>(
                    (*right, end),
                ));
            },
            _ => {},
        }
    }
}

/// An expression is read back from its tokens. In particular the operand on
/// the right of an operator takes no operator of the same level with it.
pub proof fn lemma_expr(ts: Seq<TokenView>, pos: int, e: ExprView, names: NamesView)
    requires
        fits(e, names),
        stand(ts, pos, tokens(e)),
        ts[pos + tokens(e).len()] is Comma || ts[pos + tokens(e).len()] is Semicolon || ts[pos
            + tokens(e).len()] is RBrace || ts[pos + tokens(e).len()] is LBrace,
    ensures
        p_expr(ts, pos, names) == Ok::<_, ParseErrorView>((e, pos + tokens(e).len())),
    decreases e, 12int,
{
    lemma_terminators();
    lemma_binary(ts, pos, 5, e, names);
}

/// A block between braces is read back from its tokens.
pub proof fn lemma_braced(ts: Seq<TokenView>, pos: int, b: BlockView, names: NamesView)
    requires
        block_fits(b, names),
        stand(ts, pos, braced_tokens(b)),
    ensures
        p_braced(ts, pos, names) == Ok::<_, ParseErrorView>((b, pos + braced_tokens(b).len())),
    decreases b, b.stmts.len() + 1,
{
    lemma_split(ts, pos, seq![TokenView::LBrace], block_tokens(b));
    assert(ts[pos + 0] == seq![TokenView::LBrace][0]);
    assert(block_tokens(b).len() > 0);
    assert(b.stmts.skip(0) =~= b.stmts);
    lemma_items(ts, pos + 1, b, 0, names);
}

/// What a block holds as tokens, from some of its statements on.
spec fn rest_tokens(ss: Seq<StmtView>, ret: Option<ExprView>) -> Seq<TokenView> {
    stmts_tokens(ss) + (match ret {
        None => seq![TokenView::RBrace],
        Some(e) => tokens(e) + seq![TokenView::RBrace],
    })
}

proof fn lemma_items(
    ts: Seq<TokenView>,
    pos: int,
    b: BlockView,
    at: nat,
    names: NamesView,
)
    requires
        at <= b.stmts.len(),
        stmts_fit(b.stmts.skip(at as int), names),
        b.ret matches Some(e) ==> fits(e, names),
        stand(ts, pos, rest_tokens(b.stmts.skip(at as int), b.ret)),
    ensures
        p_block(ts, pos, names) == Ok::<_, ParseErrorView>(
            (
                BlockView { stmts: b.stmts.skip(at as int), ret: b.ret },
                pos + rest_tokens(b.stmts.skip(at as int), b.ret).len(),
            ),
        ),
    decreases b, b.stmts.len() - at,
{
    let ss = b.stmts.skip(at as int);
    let ret = b.ret;
    let w = rest_tokens(ss, ret);
    lemma_terminators();
    lemma_keywords();
    if ss.len() == 0 {
        assert(ss =~= Seq::empty());
        match ret {
            None => {
                assert(ts[pos + 0] == w[0]);
            },
            Some(e) => {
                assert(w =~= tokens(e) + seq![TokenView::RBrace]);
                lemma_split(ts, pos, tokens(e), seq![TokenView::RBrace]);
                assert(ts[pos + tokens(e).len() + 0] == seq![TokenView::RBrace][0]);
                lemma_first(e, names);
                assert(ts[pos + 0] == tokens(e)[0]);
                lemma_expr(ts, pos, e, names);
                lemma_no_equals(ts, pos, e, names);
            },
        }
    } else {
        let first = stmt_tokens(ss[0]);
        let rest = rest_tokens(ss.drop_first(), ret);
        assert(ss.drop_first() =~= b.stmts.skip(at as int + 1));
        assert(ss[0] == b.stmts[at as int]);
        assert(w =~= first + rest);
        lemma_split(ts, pos, first, rest);
        lemma_stmt(ts, pos, b.stmts[at as int], names);
        lemma_items(ts, pos + first.len(), b, at + 1, names);
        assert(ss =~= seq![ss[0]] + ss.drop_first());
    }
}

/// The second token of an expression is no `=`.
proof fn lemma_no_equals(ts: Seq<TokenView>, pos: int, e: ExprView, names: NamesView)
    requires
        fits(e, names),
        stand(ts, pos, tokens(e)),
        !(ts[pos + tokens(e).len()] is Equals),
    ensures
        ts[pos] is Ident && !is_expr_word(ts[pos]->Ident_0) ==> !(ts[pos + 1] is Equals),
    decreases e,
{
    let w = tokens(e);
    lemma_first(e, names);
    assert(ts[pos + 0] == w[0]);
    match e {
        ExprView::BinaryOp { op, left, right } => {
            lemma_split(ts, pos, tokens(*left), seq![op_token(op)] + tokens(*right));
            lemma_first(*left, names);
            assert(ts[pos + tokens(*left).len() + 0] == (seq![op_token(op)] + tokens(*right))[0]);
            lemma_no_equals(ts, pos, *left, names);
        },
        ExprView::FieldAccess { receiver, field } => {
            let d = seq![TokenView::Dot, TokenView::Ident(field)];
            lemma_split(ts, pos, tokens(*receiver), d);
            lemma_first(*receiver, names);
            assert(ts[pos + tokens(*receiver).len() + 0] == d[0]);
            lemma_no_equals(ts, pos, *receiver, names);
        },
        ExprView::MethodCall { receiver, method, args } => {
            let d = seq![TokenView::Dot, TokenView::Ident(method)] + call_tokens(args);
            lemma_split(ts, pos, tokens(*receiver), d);
            lemma_first(*receiver, names);
            assert(ts[pos + tokens(*receiver).len() + 0] == d[0]);
            lemma_no_equals(ts, pos, *receiver, names);
        },
        ExprView::FnCall { name, type_args, args } => {
            let c = args_tokens(type_args) + call_tokens(args);
            assert(ts[pos + 1] == w[1]);
            assert(w[1] == c[0]);
            if type_args.len() > 0 {
                assert(c[0] == args_tokens(type_args)[0]);
            } else {
                assert(c[0] == call_tokens(args)[0]);
            }
        },
        ExprView::StructLit { name, type_args, fields } => {
            let c = seq![TokenView::LBrace] + (fields_tokens(fields) + seq![TokenView::RBrace]);
            assert(ts[pos + 1] == w[1]);
            assert(w[1] == (args_tokens(type_args) + c)[0]);
            if type_args.len() > 0 {
                assert((args_tokens(type_args) + c)[0] == args_tokens(type_args)[0]);
            } else {
                assert((args_tokens(type_args) + c)[0] == c[0]);
            }
        },
        ExprView::StaticCall { ty, method, type_args, args } => {
            assert(ts[pos + 1] == w[1]);
        },
        _ => {},
    }
}

#[verifier::spinoff_prover]
proof fn lemma_let(ts: Seq<TokenView>, pos: int, s: StmtView, names: NamesView)
    requires
        s is Let,
        stmt_fits(s, names),
        stand(ts, pos, stmt_tokens(s)),
    ensures
        p_item(ts, pos, names) == Ok::<_, ParseErrorView>(
            (ItemView::Stmt(s), pos + stmt_tokens(s).len()),
        ),
        stmt_tokens(s).len() > 0,
    decreases s, 0int,
{
    let w = stmt_tokens(s);
    lemma_terminators();
    lemma_keywords();
    if let StmtView::Let { name, expr } = s {
        let head = seq![TokenView::Ident("let"@), TokenView::Ident(name), TokenView::Equals];
        let x = tokens(expr);
        lemma_split(ts, pos, head, x + seq![TokenView::Semicolon]);
        lemma_split(ts, pos + 3, x, seq![TokenView::Semicolon]);
        assert(ts[pos + 0] == head[0] && ts[pos + 1] == head[1] && ts[pos + 2] == head[2]);
        assert(ts[pos + 3 + x.len() + 0] == seq![TokenView::Semicolon][0]);
        lemma_expr(ts, pos + 3, expr, names);
    }
}

#[verifier::spinoff_prover]
proof fn lemma_expr_stmt(ts: Seq<TokenView>, pos: int, s: StmtView, names: NamesView)
    requires
        s is ExprStmt,
        stmt_fits(s, names),
        stand(ts, pos, stmt_tokens(s)),
    ensures
        p_item(ts, pos, names) == Ok::<_, ParseErrorView>(
            (ItemView::Stmt(s), pos + stmt_tokens(s).len()),
        ),
        stmt_tokens(s).len() > 0,
    decreases s, 0int,
{
    let w = stmt_tokens(s);
    lemma_terminators();
    lemma_keywords();
    if let StmtView::ExprStmt(expr) = s {
        let x = tokens(expr);
        lemma_split(ts, pos, x, seq![TokenView::Semicolon]);
        assert(ts[pos + x.len() + 0] == seq![TokenView::Semicolon][0]);
        lemma_first(expr, names);
        assert(ts[pos + 0] == x[0]);
        lemma_expr(ts, pos, expr, names);
        lemma_no_equals(ts, pos, expr, names);
    }
}

#[verifier::spinoff_prover]
proof fn lemma_while(ts: Seq<TokenView>, pos: int, s: StmtView, names: NamesView)
    requires
        s is While,
        stmt_fits(s, names),
        stand(ts, pos, stmt_tokens(s)),
    ensures
        p_item(ts, pos, names) == Ok::<_, ParseErrorView>(
            (ItemView::Stmt(s), pos + stmt_tokens(s).len()),
        ),
        stmt_tokens(s).len() > 0,
    decreases s, 0int,
{
    let w = stmt_tokens(s);
    lemma_terminators();
    lemma_keywords();
    if let StmtView::While { cond, body } = s {
        let x = tokens(cond);
        let b = braced_tokens(*body);
        lemma_split(ts, pos, seq![TokenView::Ident("while"@)], x + b);
        lemma_split(ts, pos + 1, x, b);
        assert(ts[pos + 0] == seq![TokenView::Ident("while"@)][0]);
        assert(ts[pos + 1 + x.len() + 0] == b[0]);
        lemma_first(cond, names);
        lemma_expr(ts, pos + 1, cond, names);
        lemma_braced(ts, pos + 1 + x.len(), *body, names);
    }
}

#[verifier::spinoff_prover]
proof fn lemma_assign(ts: Seq<TokenView>, pos: int, s: StmtView, names: NamesView)
    requires
        s is Assign,
        stmt_fits(s, names),
        stand(ts, pos, stmt_tokens(s)),
    ensures
        p_item(ts, pos, names) == Ok::<_, ParseErrorView>(
            (ItemView::Stmt(s), pos + stmt_tokens(s).len()),
        ),
        stmt_tokens(s).len() > 0,
    decreases s, 0int,
{
    let w = stmt_tokens(s);
    lemma_terminators();
    lemma_keywords();
    if let StmtView::Assign { name, expr } = s {
        let head = seq![TokenView::Ident(name), TokenView::Equals];
        let x = tokens(expr);
        lemma_split(ts, pos, head, x + seq![TokenView::Semicolon]);
        lemma_split(ts, pos + 2, x, seq![TokenView::Semicolon]);
        assert(ts[pos + 0] == head[0] && ts[pos + 1] == head[1]);
        assert(ts[pos + 2 + x.len() + 0] == seq![TokenView::Semicolon][0]);
        lemma_expr(ts, pos + 2, expr, names);
    }
}

proof fn lemma_stmt(ts: Seq<TokenView>, pos: int, s: StmtView, names: NamesView)
    requires
        stmt_fits(s, names),
        stand(ts, pos, stmt_tokens(s)),
    ensures
        p_item(ts, pos, names) == Ok::<_, ParseErrorView>(
            (ItemView::Stmt(s), pos + stmt_tokens(s).len()),
        ),
        stmt_tokens(s).len() > 0,
    decreases s, 1int,
{
    match s {
        StmtView::Let { .. } => {
            lemma_let(ts, pos, s, names);
        },
        StmtView::ExprStmt(_) => {
            lemma_expr_stmt(ts, pos, s, names);
        },
        StmtView::While { .. } => {
            lemma_while(ts, pos, s, names);
        },
        StmtView::Assign { .. } => {
            lemma_assign(ts, pos, s, names);
        },
    }
}

} // verus!
