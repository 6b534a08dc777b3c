//! What holds of the lexer: tokens that are written out are read back.
use crate::text::{digit, digits_of};
use crate::toylang::lexer::{
    classed, digits_end, digits_value, is_digit, is_letter, is_letter_or_digit, is_space, lex, lex_number, lex_step, line_end, string_end,
    text_between, word_end, LexStep, LexStopView, TokenView,
};
use crate::toylang::typed_ast::SourceTypeView;
use vstd::prelude::*;
use vstd::string::*;

verus! {

broadcast use vstd::seq::group_seq_axioms;

/// Whether a character may stand in a word.
pub open spec fn in_word(c: char) -> bool {
    is_letter_or_digit(c) || c == '_'
}

/// Whether a token can be written out: a name is a word that does not start
/// with a digit, a number is not negative and of a type that has a suffix, and
/// a string holds no double quote.
pub open spec fn writable(t: TokenView) -> bool {
    match t {
        TokenView::Ident(s) => {
            &&& s.len() > 0
            &&& is_letter(s[0]) || s[0] == '_'
            &&& !is_space(s[0])
            &&& forall|i: int| 0 <= i < s.len() ==> in_word(#[trigger] s[i])
        },
        TokenView::IntLit(n, ty) => n >= 0 && (ty is I32 || ty is I64 || ty is Usize),
        TokenView::StringLit(s) => forall|i: int| 0 <= i < s.len() ==> #[trigger] s[i] != '"',
        TokenView::Eof => false,
        _ => true,
    }
}

/// The suffix that gives a number its type.
pub open spec fn suffix(ty: SourceTypeView) -> Seq<char> {
    match ty {
        SourceTypeView::I64 => "i64"@,
        SourceTypeView::Usize => "usize"@,
        _ => "i32"@,
    }
}

/// A token written out.
pub open spec fn spelling(t: TokenView) -> Seq<char> {
    match t {
        TokenView::Ident(s) => s,
        TokenView::LBrace => seq!['{'],
        TokenView::RBrace => seq!['}'],
        TokenView::LParen => seq!['('],
        TokenView::RParen => seq![')'],
        TokenView::LAngle => seq!['<'],
        TokenView::RAngle => seq!['>'],
        TokenView::Lt => seq!['<'],
        TokenView::Gt => seq!['>'],
        TokenView::LAngleEq => seq!['<', '='],
        TokenView::RAngleEq => seq!['>', '='],
        TokenView::EqEq => seq!['=', '='],
        TokenView::BangEq => seq!['!', '='],
        TokenView::Colon => seq![':'],
        TokenView::DoubleColon => seq![':', ':'],
        TokenView::Comma => seq![','],
        TokenView::Ampersand => seq!['&'],
        TokenView::Star => seq!['*'],
        TokenView::Plus => seq!['+'],
        TokenView::Minus => seq!['-'],
        TokenView::Slash => seq!['/'],
        TokenView::Arrow => seq!['-', '>'],
        TokenView::Dot => seq!['.'],
        TokenView::Semicolon => seq![';'],
        TokenView::Equals => seq!['='],
        TokenView::AmpAmp => seq!['&', '&'],
        TokenView::PipePipe => seq!['|', '|'],
        TokenView::IntLit(n, ty) => digits_of(n as nat) + suffix(ty),
        TokenView::StringLit(s) => seq!['"'] + s + seq!['"'],
        TokenView::Eof => Seq::empty(),
    }
}

/// What stands behind a token: a blank, or an empty comment behind an angle
/// bracket, which between blanks would compare.
pub open spec fn gap(t: TokenView) -> Seq<char> {
    if t is LAngle || t is RAngle {
        seq!['/', '/', '\n']
    } else {
        seq![' ']
    }
}

/// Tokens written out one after the other.
pub open spec fn written(ts: Seq<TokenView>) -> Seq<char>
    decreases ts.len(),
{
    if ts.len() == 0 {
        Seq::empty()
    } else {
        spelling(ts[0]) + gap(ts[0]) + written(ts.drop_first())
    }
}

/// Tokens that are written out are read back, every one of them and no others,
/// whichever they are and in whatever order they come.
pub proof fn lemma_tokens_read_back(ts: Seq<TokenView>)
    requires
        forall|i: int| 0 <= i < ts.len() ==> writable(#[trigger] ts[i]),
    ensures
        lex(classed(seq![' '] + written(ts)), 0) == Ok::<Seq<TokenView>, LexStopView>(
            ts.push(TokenView::Eof),
        ),
{
    let s = seq![' '] + written(ts);
    assert forall|k: int| 0 <= k < written(ts).len() implies s[1 + k] == #[trigger] written(
        ts,
    )[k] by {}
    lemma_from(s, 1, ts);
    assert(lex_step(classed(s), 0) == LexStep::Skip(1));
}

/// A number without a suffix is read back as an `i32` where it is one, and
/// else as an `i64`.
pub proof fn lemma_bare_number(n: i64)
    requires
        n >= 0,
    ensures
        lex(classed(digits_of(n as nat) + seq![' ']), 0) == Ok::<Seq<TokenView>, LexStopView>(
            seq![
                TokenView::IntLit(
                    n,
                    if n <= 2147483647 {
                        SourceTypeView::I32
                    } else {
                        SourceTypeView::I64
                    },
                ),
                TokenView::Eof,
            ],
        ),
{
    let d = digits_of(n as nat);
    let s = d + seq![' '];
    let cs = classed(s);
    lemma_digits(n as nat);
    assert(stands(s, 0, d));
    lemma_digits_end(s, 0, d);
    lemma_digits_value(s, 0, n as nat);
    let end = d.len() as int;
    assert(s[end] == ' ');
    assert(cs[0].ch == d[0]);
    assert(lex_step(cs, 0) == lex_number(cs, 0));
    assert(lex_step(cs, end) == LexStep::Skip(end + 1));
    assert(lex(cs, end + 1) == Ok::<Seq<TokenView>, LexStopView>(seq![TokenView::Eof]));
    assert(lex(cs, end) == Ok::<Seq<TokenView>, LexStopView>(seq![TokenView::Eof]));
    let t = lex_step(cs, 0)->Yield_0;
    assert(seq![t] + seq![TokenView::Eof] =~= seq![t, TokenView::Eof]);
}

/// Whether a text stands in another at a position.
spec fn stands(s: Seq<char>, i: int, w: Seq<char>) -> bool {
    &&& 0 <= i
    &&& i + w.len() <= s.len()
    &&& forall|k: int| 0 <= k < w.len() ==> s[i + k] == #[trigger] w[k]
}

proof fn lemma_from(s: Seq<char>, i: int, ts: Seq<TokenView>)
    requires
        i > 0,
        stands(s, i, written(ts)),
        s.len() == i + written(ts).len(),
        is_space(s[i - 1]),
        forall|k: int| 0 <= k < ts.len() ==> writable(#[trigger] ts[k]),
    ensures
        lex(classed(s), i) == Ok::<Seq<TokenView>, LexStopView>(ts.push(TokenView::Eof)),
    decreases ts.len(),
{
    let cs = classed(s);
    if ts.len() == 0 {
        assert(ts.push(TokenView::Eof) =~= seq![TokenView::Eof]);
    } else {
        let t = ts[0];
        let w = spelling(t);
        let g = gap(t);
        let rest = ts.drop_first();
        let n = w.len() as int;
        let all = written(ts);
        assert(all == w + g + written(rest));
        assert(writable(t));
        assert forall|k: int| 0 <= k < w.len() implies s[i + k] == #[trigger] w[k] by {
            assert(all[k] == w[k]);
        }
        assert forall|k: int| 0 <= k < g.len() implies s[i + n + k] == #[trigger] g[k] by {
            assert(all[n + k] == g[k]);
        }
        let j = i + n + g.len();
        assert forall|k: int| 0 <= k < written(rest).len() implies s[j + k] == #[trigger] written(
            rest,
        )[k] by {
            assert(all[n + g.len() + k] == written(rest)[k]);
        }
        assert(s[j - 1] == g[g.len() - 1]);
        assert forall|k: int| 0 <= k < rest.len() implies writable(#[trigger] rest[k]) by {
            assert(rest[k] == ts[k + 1]);
        }
        lemma_from(s, j, rest);
        lemma_one(s, i, t);
        lemma_gap(s, i + n, t);
        assert(lex(cs, i + n) == lex(cs, j));
        assert(lex(cs, i) == Ok::<Seq<TokenView>, LexStopView>(
            seq![t] + rest.push(TokenView::Eof),
        ));
        assert(seq![t] + rest.push(TokenView::Eof) =~= ts.push(TokenView::Eof));
    }
}

/// What stands behind a token is passed over.
proof fn lemma_gap(s: Seq<char>, i: int, t: TokenView)
    requires
        stands(s, i, gap(t)),
    ensures
        lex(classed(s), i) == lex(classed(s), i + gap(t).len()),
{
    let cs = classed(s);
    let g = gap(t);
    assert(s[i] == g[0]);
    assert(cs[i].ch == g[0]);
    if t is LAngle || t is RAngle {
        assert(s[i + 1] == g[1]);
        assert(s[i + 2] == g[2]);
        assert(cs[i + 1].ch == '/');
        assert(cs[i + 2].ch == '\n');
        assert(line_end(cs, i + 2) == i + 2);
        assert(line_end(cs, i + 1) == i + 2);
        assert(line_end(cs, i) == i + 2);
        assert(lex_step(cs, i) == LexStep::Skip(i + 2));
        assert(lex_step(cs, i + 2) == LexStep::Skip(i + 3));
        assert(lex(cs, i) == lex(cs, i + 2));
        assert(lex(cs, i + 2) == lex(cs, i + 3));
    } else {
        assert(lex_step(cs, i) == LexStep::Skip(i + 1));
    }
}

/// One token is read back.
proof fn lemma_one(s: Seq<char>, i: int, t: TokenView)
    requires
        i > 0,
        is_space(s[i - 1]),
        writable(t),
        stands(s, i, spelling(t)),
        stands(s, i + spelling(t).len(), gap(t)),
    ensures
        spelling(t).len() > 0,
        lex_step(classed(s), i) == LexStep::Yield(t, i + spelling(t).len()),
{
    let cs = classed(s);
    let w = spelling(t);
    let n = w.len() as int;
    let g = gap(t);
    assert(s[i + n] == g[0]);
    match t {
        TokenView::Ident(name) => {
            assert(s[i] == w[0]);
            lemma_word_end(s, i, w);
            assert(text_between(cs, i, i + n) =~= w) by {
                assert forall|k: int| 0 <= k < n implies text_between(cs, i, i + n)[k] == w[k] by {
                    assert(s[i + k] == w[k]);
                }
            }
        },
        TokenView::IntLit(v, ty) => {
            lemma_number(s, i, v, ty);
        },
        TokenView::StringLit(text) => {
            assert(s[i] == w[0]);
            assert forall|k: int| 0 <= k < text.len() implies s[i + 1 + k] == #[trigger] text[k] by {
                assert(w[1 + k] == text[k]);
                assert(s[i + (1 + k)] == w[1 + k]);
            }
            assert(w[n - 1] == '"');
            assert(s[i + (n - 1)] == '"');
            lemma_string_end(s, i + 1, text);
            assert(text_between(cs, i + 1, i + 1 + text.len()) =~= text) by {
                assert forall|k: int| 0 <= k < text.len() implies text_between(
                    cs,
                    i + 1,
                    i + 1 + text.len(),
                )[k] == text[k] by {
                    assert(s[i + 1 + k] == text[k]);
                }
            }
        },
        _ => {
            assert(s[i] == w[0]);
            if n > 1 {
                assert(s[i + 1] == w[1]);
            }
        },
    }
}

proof fn lemma_word_end(s: Seq<char>, i: int, w: Seq<char>)
    requires
        stands(s, i, w),
        forall|k: int| 0 <= k < w.len() ==> in_word(#[trigger] w[k]),
        i + w.len() < s.len(),
        s[i + w.len()] == ' ',
    ensures
        word_end(classed(s), i) == i + w.len(),
    decreases w.len(),
{
    let cs = classed(s);
    if w.len() > 0 {
        assert(s[i + 0] == w[0]);
        let rest = w.drop_first();
        assert forall|k: int| 0 <= k < rest.len() implies s[i + 1 + k] == #[trigger] rest[k] by {
            assert(rest[k] == w[k + 1]);
            assert(s[i + (k + 1)] == w[k + 1]);
        }
        assert forall|k: int| 0 <= k < rest.len() implies in_word(#[trigger] rest[k]) by {
            assert(rest[k] == w[k + 1]);
        }
        lemma_word_end(s, i + 1, rest);
    }
}

proof fn lemma_string_end(s: Seq<char>, i: int, w: Seq<char>)
    requires
        stands(s, i, w),
        forall|k: int| 0 <= k < w.len() ==> #[trigger] w[k] != '"',
        i + w.len() < s.len(),
        s[i + w.len()] == '"',
    ensures
        string_end(classed(s), i) == i + w.len(),
    decreases w.len(),
{
    if w.len() > 0 {
        assert(s[i + 0] == w[0]);
        let rest = w.drop_first();
        assert forall|k: int| 0 <= k < rest.len() implies s[i + 1 + k] == #[trigger] rest[k] by {
            assert(rest[k] == w[k + 1]);
            assert(s[i + (k + 1)] == w[k + 1]);
        }
        assert forall|k: int| 0 <= k < rest.len() implies #[trigger] rest[k] != '"' by {
            assert(rest[k] == w[k + 1]);
        }
        lemma_string_end(s, i + 1, rest);
    }
}

proof fn lemma_digits(n: nat)
    ensures
        digits_of(n).len() > 0,
        forall|k: int| 0 <= k < digits_of(n).len() ==> is_digit(#[trigger] digits_of(n)[k]),
    decreases n,
{
    if n >= 10 {
        lemma_digits(n / 10);
        let d = digits_of(n / 10);
        assert forall|k: int| 0 <= k < digits_of(n).len() implies is_digit(
            #[trigger] digits_of(n)[k],
        ) by {
            if k < d.len() {
                assert(digits_of(n)[k] == d[k]);
            }
        }
    }
}

proof fn lemma_digits_end(s: Seq<char>, i: int, w: Seq<char>)
    requires
        stands(s, i, w),
        forall|k: int| 0 <= k < w.len() ==> is_digit(#[trigger] w[k]),
        i + w.len() < s.len(),
        !is_digit(s[i + w.len()]),
    ensures
        digits_end(classed(s), i) == i + w.len(),
    decreases w.len(),
{
    if w.len() > 0 {
        assert(s[i + 0] == w[0]);
        let rest = w.drop_first();
        assert forall|k: int| 0 <= k < rest.len() implies s[i + 1 + k] == #[trigger] rest[k] by {
            assert(rest[k] == w[k + 1]);
            assert(s[i + (k + 1)] == w[k + 1]);
        }
        assert forall|k: int| 0 <= k < rest.len() implies is_digit(#[trigger] rest[k]) by {
            assert(rest[k] == w[k + 1]);
        }
        lemma_digits_end(s, i + 1, rest);
    }
}

proof fn lemma_digits_value(s: Seq<char>, i: int, n: nat)
    requires
        stands(s, i, digits_of(n)),
    ensures
        digits_value(classed(s), i, i + digits_of(n).len()) == n,
    decreases n,
{
    let d = digits_of(n);
    let cs = classed(s);
    let last = d.len() - 1;
    lemma_digits(n);
    assert(s[i + last] == d[last]);
    assert(d[last] == digit(n % 10));
    if n >= 10 {
        let front = digits_of(n / 10);
        assert forall|k: int| 0 <= k < front.len() implies s[i + k] == #[trigger] front[k] by {
            assert(d[k] == front[k]);
        }
        lemma_digits_value(s, i, n / 10);
    } else {
        assert(digits_value(cs, i, i) == 0);
    }
}

proof fn lemma_number(s: Seq<char>, i: int, v: i64, ty: SourceTypeView)
    requires
        v >= 0,
        ty is I32 || ty is I64 || ty is Usize,
        stands(s, i, digits_of(v as nat) + suffix(ty)),
        i + digits_of(v as nat).len() + suffix(ty).len() < s.len(),
        s[i + digits_of(v as nat).len() + suffix(ty).len()] == ' ',
    ensures
        lex_step(classed(s), i) == LexStep::Yield(
            TokenView::IntLit(v, ty),
            i + (digits_of(v as nat) + suffix(ty)).len(),
        ),
{
    let cs = classed(s);
    let d = digits_of(v as nat);
    let x = suffix(ty);
    let w = d + x;
    reveal_strlit("i32");
    reveal_strlit("i64");
    reveal_strlit("usize");
    lemma_digits(v as nat);
    let end = i + d.len();
    assert forall|k: int| 0 <= k < d.len() implies s[i + k] == #[trigger] d[k] by {
        assert(w[k] == d[k]);
    }
    assert forall|k: int| 0 <= k < x.len() implies s[end + k] == #[trigger] x[k] by {
        assert(w[d.len() + k] == x[k]);
        assert(s[i + (d.len() + k)] == w[d.len() + k]);
    }
    assert(s[end + 0] == x[0]);
    assert(s[i + 0] == d[0]);
    lemma_digits_end(s, i, d);
    lemma_digits_value(s, i, v as nat);
    assert forall|k: int| 0 <= k < x.len() implies in_word(#[trigger] x[k]) by {}
    lemma_word_end(s, end, x);
    let t = text_between(cs, end, end + x.len());
    assert(t =~= x) by {
        assert forall|k: int| 0 <= k < x.len() implies t[k] == x[k] by {
            assert(s[end + k] == x[k]);
        }
    }
    assert("i32"@[1] != "i64"@[1]);
    assert("i32"@.len() != "usize"@.len());
    assert(lex_step(cs, i) == lex_number(cs, i));
}

} // verus!
