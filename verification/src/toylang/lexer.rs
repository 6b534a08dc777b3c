//! From source text to tokens.
use crate::text::{chars_of, decimal, decimal_text, owned};
use crate::toylang::parser::{ParseError, ParseErrorView};
use crate::toylang::typed_ast::{clone_source_type, same_source_type, SourceType, SourceTypeView};
use vstd::prelude::*;
use vstd::string::*;

verus! {

broadcast use {vstd::seq::group_seq_axioms, vstd::std_specs::vec::group_vec_axioms};

/// Whether a character is white space, as `char::is_whitespace` has it.
pub uninterp spec fn whitespace(c: char) -> bool;

/// Whether a character is alphabetic, as `char::is_alphabetic` has it.
pub uninterp spec fn alphabetic(c: char) -> bool;

/// Whether a character is alphabetic or numeric, as `char::is_alphanumeric`
/// has it.
pub uninterp spec fn alphanumeric(c: char) -> bool;

/// How a string reads when it is written out for debugging: between double
/// quotes, with what is special escaped.
pub uninterp spec fn debug_text(s: Seq<char>) -> Seq<char>;

/// Whether a character is a letter of ASCII.
pub open spec fn ascii_letter(c: char) -> bool {
    'a' <= c && c <= 'z' || 'A' <= c && c <= 'Z'
}

/// Whether a character is a digit of ASCII.
pub open spec fn ascii_digit(c: char) -> bool {
    '0' <= c && c <= '9'
}

/// Whether a character is white space of ASCII: the blank, and the characters
/// from the tab to the carriage return.
pub open spec fn ascii_space(c: char) -> bool {
    c == ' ' || 0x09 <= c as u32 <= 0x0d
}

/// Whether a character is white space.
pub open spec fn is_space(c: char) -> bool {
    if (c as u32) < 0x80 {
        ascii_space(c)
    } else {
        whitespace(c)
    }
}

/// Whether a character is alphabetic.
pub open spec fn is_letter(c: char) -> bool {
    if (c as u32) < 0x80 {
        ascii_letter(c)
    } else {
        alphabetic(c)
    }
}

/// Whether a character is alphabetic or numeric.
pub open spec fn is_letter_or_digit(c: char) -> bool {
    if (c as u32) < 0x80 {
        ascii_letter(c) || ascii_digit(c)
    } else {
        alphanumeric(c)
    }
}

/// `char::is_whitespace` tells by the Unicode tables, and by nothing else but
/// the character, whether a character is white space. Of the characters of
/// ASCII, the blank and those from the tab to the carriage return are.
pub assume_specification[ char::is_whitespace ](c: char) -> (r: bool)
    ensures
        r == whitespace(c),
        (c as u32) < 0x80 ==> r == ascii_space(c),
;

/// `char::is_alphabetic` tells by the Unicode tables, and by nothing else but
/// the character, whether a character is alphabetic. Of the characters of
/// ASCII, the letters are.
pub assume_specification[ char::is_alphabetic ](c: char) -> (r: bool)
    ensures
        r == alphabetic(c),
        (c as u32) < 0x80 ==> r == ascii_letter(c),
;

/// `char::is_alphanumeric` tells by the Unicode tables, and by nothing else
/// but the character, whether a character is alphabetic or numeric. In
/// particular it holds of the alphabetic ones. Of the characters of ASCII, the
/// letters and the digits are.
pub assume_specification[ char::is_alphanumeric ](c: char) -> (r: bool)
    ensures
        r == alphanumeric(c),
        alphabetic(c) ==> r,
        (c as u32) < 0x80 ==> r == (ascii_letter(c) || ascii_digit(c)),
;

/// The `Debug` form of `str`, which depends on the text alone.
#[verifier::external_body]
pub(crate) fn debug_str(s: &str) -> (r: String)
    ensures
        r@ == debug_text(s@),
{
    format!("{:?}", s)
}

/// A token of toylang.
#[derive(Debug, PartialEq)]
pub enum Token {
    Ident(String),
    LBrace,
    RBrace,
    LParen,
    RParen,
    /// `<` of a type argument list.
    LAngle,
    /// `>` of a type argument list.
    RAngle,
    /// `<` with white space around it, a comparison.
    Lt,
    /// `>` with white space around it, a comparison.
    Gt,
    LAngleEq,
    RAngleEq,
    EqEq,
    BangEq,
    Colon,
    DoubleColon,
    Comma,
    Ampersand,
    Star,
    Plus,
    Minus,
    Slash,
    Arrow,
    Dot,
    Semicolon,
    Equals,
    AmpAmp,
    PipePipe,
    IntLit(i64, SourceType),
    StringLit(String),
    Eof,
}

/// What a [`Token`] says.
pub enum TokenView {
    Ident(Seq<char>),
    LBrace,
    RBrace,
    LParen,
    RParen,
    LAngle,
    RAngle,
    Lt,
    Gt,
    LAngleEq,
    RAngleEq,
    EqEq,
    BangEq,
    Colon,
    DoubleColon,
    Comma,
    Ampersand,
    Star,
    Plus,
    Minus,
    Slash,
    Arrow,
    Dot,
    Semicolon,
    Equals,
    AmpAmp,
    PipePipe,
    IntLit(i64, SourceTypeView),
    StringLit(Seq<char>),
    Eof,
}

impl View for Token {
    type V = TokenView;

    open spec fn view(&self) -> TokenView {
        match self {
            Token::Ident(s) => TokenView::Ident(s@),
            Token::LBrace => TokenView::LBrace,
            Token::RBrace => TokenView::RBrace,
            Token::LParen => TokenView::LParen,
            Token::RParen => TokenView::RParen,
            Token::LAngle => TokenView::LAngle,
            Token::RAngle => TokenView::RAngle,
            Token::Lt => TokenView::Lt,
            Token::Gt => TokenView::Gt,
            Token::LAngleEq => TokenView::LAngleEq,
            Token::RAngleEq => TokenView::RAngleEq,
            Token::EqEq => TokenView::EqEq,
            Token::BangEq => TokenView::BangEq,
            Token::Colon => TokenView::Colon,
            Token::DoubleColon => TokenView::DoubleColon,
            Token::Comma => TokenView::Comma,
            Token::Ampersand => TokenView::Ampersand,
            Token::Star => TokenView::Star,
            Token::Plus => TokenView::Plus,
            Token::Minus => TokenView::Minus,
            Token::Slash => TokenView::Slash,
            Token::Arrow => TokenView::Arrow,
            Token::Dot => TokenView::Dot,
            Token::Semicolon => TokenView::Semicolon,
            Token::Equals => TokenView::Equals,
            Token::AmpAmp => TokenView::AmpAmp,
            Token::PipePipe => TokenView::PipePipe,
            Token::IntLit(n, ty) => TokenView::IntLit(*n, ty@),
            Token::StringLit(s) => TokenView::StringLit(s@),
            Token::Eof => TokenView::Eof,
        }
    }
}

/// How the type of an integer literal reads in a message.
pub open spec fn literal_type_text(ty: SourceTypeView) -> Seq<char> {
    match ty {
        SourceTypeView::I64 => "I64"@,
        SourceTypeView::Usize => "Usize"@,
        _ => "I32"@,
    }
}

/// How a token reads in a message.
pub open spec fn token_text(t: TokenView) -> Seq<char> {
    match t {
        TokenView::Ident(s) => "Ident("@ + debug_text(s) + ")"@,
        TokenView::LBrace => "LBrace"@,
        TokenView::RBrace => "RBrace"@,
        TokenView::LParen => "LParen"@,
        TokenView::RParen => "RParen"@,
        TokenView::LAngle => "LAngle"@,
        TokenView::RAngle => "RAngle"@,
        TokenView::Lt => "Lt"@,
        TokenView::Gt => "Gt"@,
        TokenView::LAngleEq => "LAngleEq"@,
        TokenView::RAngleEq => "RAngleEq"@,
        TokenView::EqEq => "EqEq"@,
        TokenView::BangEq => "BangEq"@,
        TokenView::Colon => "Colon"@,
        TokenView::DoubleColon => "DoubleColon"@,
        TokenView::Comma => "Comma"@,
        TokenView::Ampersand => "Ampersand"@,
        TokenView::Star => "Star"@,
        TokenView::Plus => "Plus"@,
        TokenView::Minus => "Minus"@,
        TokenView::Slash => "Slash"@,
        TokenView::Arrow => "Arrow"@,
        TokenView::Dot => "Dot"@,
        TokenView::Semicolon => "Semicolon"@,
        TokenView::Equals => "Equals"@,
        TokenView::AmpAmp => "AmpAmp"@,
        TokenView::PipePipe => "PipePipe"@,
        TokenView::IntLit(n, ty) => "IntLit("@ + decimal_text(n as int) + ", "@ + literal_type_text(
            ty,
        ) + ")"@,
        TokenView::StringLit(s) => "StringLit("@ + debug_text(s) + ")"@,
        TokenView::Eof => "Eof"@,
    }
}

impl Token {
    /// How the token reads in a message.
    pub fn to_text(&self) -> (r: String)
        ensures
            r@ == token_text(self@),
    {
        match self {
            Token::Ident(s) => {
                let mut r = owned("Ident(");
                r.append(&debug_str(s));
                r.append(")");
                r
            },
            Token::LBrace => owned("LBrace"),
            Token::RBrace => owned("RBrace"),
            Token::LParen => owned("LParen"),
            Token::RParen => owned("RParen"),
            Token::LAngle => owned("LAngle"),
            Token::RAngle => owned("RAngle"),
            Token::Lt => owned("Lt"),
            Token::Gt => owned("Gt"),
            Token::LAngleEq => owned("LAngleEq"),
            Token::RAngleEq => owned("RAngleEq"),
            Token::EqEq => owned("EqEq"),
            Token::BangEq => owned("BangEq"),
            Token::Colon => owned("Colon"),
            Token::DoubleColon => owned("DoubleColon"),
            Token::Comma => owned("Comma"),
            Token::Ampersand => owned("Ampersand"),
            Token::Star => owned("Star"),
            Token::Plus => owned("Plus"),
            Token::Minus => owned("Minus"),
            Token::Slash => owned("Slash"),
            Token::Arrow => owned("Arrow"),
            Token::Dot => owned("Dot"),
            Token::Semicolon => owned("Semicolon"),
            Token::Equals => owned("Equals"),
            Token::AmpAmp => owned("AmpAmp"),
            Token::PipePipe => owned("PipePipe"),
            Token::IntLit(n, ty) => {
                let mut r = owned("IntLit(");
                r.append(&decimal(*n));
                r.append(", ");
                match ty {
                    SourceType::I64 => {
                        r.append("I64");
                    },
                    SourceType::Usize => {
                        r.append("Usize");
                    },
                    _ => {
                        r.append("I32");
                    },
                }
                r.append(")");
                r
            },
            Token::StringLit(s) => {
                let mut r = owned("StringLit(");
                r.append(&debug_str(s));
                r.append(")");
                r
            },
            Token::Eof => owned("Eof"),
        }
    }

    /// A copy of the token.
    pub fn copy(&self) -> (r: Token)
        ensures
            r@ == self@,
    {
        match self {
            Token::Ident(s) => Token::Ident(s.clone()),
            Token::LBrace => Token::LBrace,
            Token::RBrace => Token::RBrace,
            Token::LParen => Token::LParen,
            Token::RParen => Token::RParen,
            Token::LAngle => Token::LAngle,
            Token::RAngle => Token::RAngle,
            Token::Lt => Token::Lt,
            Token::Gt => Token::Gt,
            Token::LAngleEq => Token::LAngleEq,
            Token::RAngleEq => Token::RAngleEq,
            Token::EqEq => Token::EqEq,
            Token::BangEq => Token::BangEq,
            Token::Colon => Token::Colon,
            Token::DoubleColon => Token::DoubleColon,
            Token::Comma => Token::Comma,
            Token::Ampersand => Token::Ampersand,
            Token::Star => Token::Star,
            Token::Plus => Token::Plus,
            Token::Minus => Token::Minus,
            Token::Slash => Token::Slash,
            Token::Arrow => Token::Arrow,
            Token::Dot => Token::Dot,
            Token::Semicolon => Token::Semicolon,
            Token::Equals => Token::Equals,
            Token::AmpAmp => Token::AmpAmp,
            Token::PipePipe => Token::PipePipe,
            Token::IntLit(n, ty) => Token::IntLit(*n, clone_source_type(ty)),
            Token::StringLit(s) => Token::StringLit(s.clone()),
            Token::Eof => Token::Eof,
        }
    }

    /// Whether two tokens are the same.
    pub fn same(&self, other: &Token) -> (r: bool)
        ensures
            r == (self@ == other@),
    {
        match (self, other) {
            (Token::Ident(s), Token::Ident(t)) => *s == *t,
            (Token::LBrace, Token::LBrace) => true,
            (Token::RBrace, Token::RBrace) => true,
            (Token::LParen, Token::LParen) => true,
            (Token::RParen, Token::RParen) => true,
            (Token::LAngle, Token::LAngle) => true,
            (Token::RAngle, Token::RAngle) => true,
            (Token::Lt, Token::Lt) => true,
            (Token::Gt, Token::Gt) => true,
            (Token::LAngleEq, Token::LAngleEq) => true,
            (Token::RAngleEq, Token::RAngleEq) => true,
            (Token::EqEq, Token::EqEq) => true,
            (Token::BangEq, Token::BangEq) => true,
            (Token::Colon, Token::Colon) => true,
            (Token::DoubleColon, Token::DoubleColon) => true,
            (Token::Comma, Token::Comma) => true,
            (Token::Ampersand, Token::Ampersand) => true,
            (Token::Star, Token::Star) => true,
            (Token::Plus, Token::Plus) => true,
            (Token::Minus, Token::Minus) => true,
            (Token::Slash, Token::Slash) => true,
            (Token::Arrow, Token::Arrow) => true,
            (Token::Dot, Token::Dot) => true,
            (Token::Semicolon, Token::Semicolon) => true,
            (Token::Equals, Token::Equals) => true,
            (Token::AmpAmp, Token::AmpAmp) => true,
            (Token::PipePipe, Token::PipePipe) => true,
            (Token::IntLit(n, t), Token::IntLit(m, u)) => *n == *m && same_source_type(t, u),
            (Token::StringLit(s), Token::StringLit(t)) => *s == *t,
            (Token::Eof, Token::Eof) => true,
            _ => false,
        }
    }
}

/// A character with what the lexer asks of it.
#[derive(Clone, Copy, Debug, PartialEq, Eq)]
pub struct ClassedChar {
    pub ch: char,
    pub is_space: bool,
    pub is_alphabetic: bool,
    pub is_alphanumeric: bool,
}

/// Why there are no tokens.
#[derive(Debug, PartialEq)]
pub enum LexStop {
    Error(ParseError),
    /// An integer literal does not fit in 64 bits.
    LiteralTooLarge,
}

/// What a [`LexStop`] says.
pub enum LexStopView {
    Error(ParseErrorView),
    LiteralTooLarge,
}

impl View for LexStop {
    type V = LexStopView;

    open spec fn view(&self) -> LexStopView {
        match self {
            LexStop::Error(e) => LexStopView::Error(e@),
            LexStop::LiteralTooLarge => LexStopView::LiteralTooLarge,
        }
    }
}

/// A character with what the lexer asks of it.
pub open spec fn class_of(c: char) -> ClassedChar {
    ClassedChar {
        ch: c,
        is_space: is_space(c),
        is_alphabetic: is_letter(c),
        is_alphanumeric: is_letter_or_digit(c),
    }
}

/// The characters of a text with what the lexer asks of them.
pub open spec fn classed(s: Seq<char>) -> Seq<ClassedChar> {
    Seq::new(s.len(), |i: int| class_of(s[i]))
}

/// The text of the characters from `a` to `b`.
pub open spec fn text_between(cs: Seq<ClassedChar>, a: int, b: int) -> Seq<char> {
    Seq::new((b - a) as nat, |k: int| cs[a + k].ch)
}

pub open spec fn is_digit(c: char) -> bool {
    '0' <= c <= '9'
}

/// Whether a character belongs to a word.
pub open spec fn is_word(c: ClassedChar) -> bool {
    c.is_alphanumeric || c.ch == '_'
}

/// Where the line that holds position `i` ends.
pub open spec fn line_end(cs: Seq<ClassedChar>, i: int) -> int
    decreases cs.len() - i,
{
    if 0 <= i < cs.len() && cs[i].ch != '\n' {
        line_end(cs, i + 1)
    } else {
        i
    }
}

/// Where the string that holds position `i` ends: at a double quote, or at
/// the end of the text.
pub open spec fn string_end(cs: Seq<ClassedChar>, i: int) -> int
    decreases cs.len() - i,
{
    if 0 <= i < cs.len() && cs[i].ch != '"' {
        string_end(cs, i + 1)
    } else {
        i
    }
}

/// Where the digits from position `i` on end.
pub open spec fn digits_end(cs: Seq<ClassedChar>, i: int) -> int
    decreases cs.len() - i,
{
    if 0 <= i < cs.len() && is_digit(cs[i].ch) {
        digits_end(cs, i + 1)
    } else {
        i
    }
}

/// Where the word from position `i` on ends.
pub open spec fn word_end(cs: Seq<ClassedChar>, i: int) -> int
    decreases cs.len() - i,
{
    if 0 <= i < cs.len() && is_word(cs[i]) {
        word_end(cs, i + 1)
    } else {
        i
    }
}

/// The number that the digits from `a` to `b` write in base ten.
pub open spec fn digits_value(cs: Seq<ClassedChar>, a: int, b: int) -> nat
    decreases b - a,
{
    if b <= a {
        0
    } else {
        digits_value(cs, a, b - 1) * 10 + (cs[b - 1].ch as nat - '0' as nat) as nat
    }
}

/// What the lexer does at one position.
pub enum LexStep {
    /// Goes on at another position, without a token.
    Skip(int),
    /// Yields a token, and goes on at another position.
    Yield(TokenView, int),
    Stop(LexStopView),
}

/// Whether `c` stands at position `i`.
pub open spec fn is_at(cs: Seq<ClassedChar>, i: int, c: char) -> bool {
    i < cs.len() && cs[i].ch == c
}

/// Whether white space stands at position `i`.
pub open spec fn space_at(cs: Seq<ClassedChar>, i: int) -> bool {
    0 <= i < cs.len() && cs[i].is_space
}

/// The token of an integer literal at position `i`. Its type is that of its
/// suffix, and without one the smaller of `i32` and `i64` that holds it.
pub open spec fn lex_number(cs: Seq<ClassedChar>, i: int) -> LexStep {
    let end = digits_end(cs, i);
    let value = digits_value(cs, i, end);
    if value > i64::MAX {
        LexStep::Stop(LexStopView::LiteralTooLarge)
    } else if is_at(cs, end, 'i') || is_at(cs, end, 'u') {
        let suffix_end = word_end(cs, end);
        let suffix = text_between(cs, end, suffix_end);
        if suffix == "i32"@ {
            LexStep::Yield(TokenView::IntLit(value as i64, SourceTypeView::I32), suffix_end)
        } else if suffix == "i64"@ {
            LexStep::Yield(TokenView::IntLit(value as i64, SourceTypeView::I64), suffix_end)
        } else if suffix == "usize"@ {
            LexStep::Yield(TokenView::IntLit(value as i64, SourceTypeView::Usize), suffix_end)
        } else {
            LexStep::Stop(LexStopView::Error(ParseErrorView::UnknownIntSuffix { suffix }))
        }
    } else if value > i32::MAX {
        LexStep::Yield(TokenView::IntLit(value as i64, SourceTypeView::I64), end)
    } else {
        LexStep::Yield(TokenView::IntLit(value as i64, SourceTypeView::I32), end)
    }
}

/// What the lexer does at position `i`.
pub open spec fn lex_step(cs: Seq<ClassedChar>, i: int) -> LexStep {
    let c = cs[i].ch;
    if cs[i].is_space {
        LexStep::Skip(i + 1)
    } else if c == '/' && is_at(cs, i + 1, '/') {
        LexStep::Skip(line_end(cs, i))
    } else if c == '-' {
        if is_at(cs, i + 1, '>') {
            LexStep::Yield(TokenView::Arrow, i + 2)
        } else {
            LexStep::Yield(TokenView::Minus, i + 1)
        }
    } else if c == ':' && is_at(cs, i + 1, ':') {
        LexStep::Yield(TokenView::DoubleColon, i + 2)
    } else if c == '=' && is_at(cs, i + 1, '=') {
        LexStep::Yield(TokenView::EqEq, i + 2)
    } else if c == '!' && is_at(cs, i + 1, '=') {
        LexStep::Yield(TokenView::BangEq, i + 2)
    } else if c == '<' && is_at(cs, i + 1, '=') {
        LexStep::Yield(TokenView::LAngleEq, i + 2)
    } else if c == '>' && is_at(cs, i + 1, '=') {
        LexStep::Yield(TokenView::RAngleEq, i + 2)
    } else if c == '<' {
        if space_at(cs, i - 1) && space_at(cs, i + 1) {
            LexStep::Yield(TokenView::Lt, i + 1)
        } else {
            LexStep::Yield(TokenView::LAngle, i + 1)
        }
    } else if c == '>' {
        if space_at(cs, i - 1) && (i + 1 >= cs.len() || space_at(cs, i + 1)) {
            LexStep::Yield(TokenView::Gt, i + 1)
        } else {
            LexStep::Yield(TokenView::RAngle, i + 1)
        }
    } else if c == '"' {
        let end = string_end(cs, i + 1);
        let token = TokenView::StringLit(text_between(cs, i + 1, end));
        if end < cs.len() {
            LexStep::Yield(token, end + 1)
        } else {
            LexStep::Yield(token, end)
        }
    } else if is_digit(c) {
        lex_number(cs, i)
    } else if c == '&' && is_at(cs, i + 1, '&') {
        LexStep::Yield(TokenView::AmpAmp, i + 2)
    } else if c == '|' && is_at(cs, i + 1, '|') {
        LexStep::Yield(TokenView::PipePipe, i + 2)
    } else if c == '{' {
        LexStep::Yield(TokenView::LBrace, i + 1)
    } else if c == '}' {
        LexStep::Yield(TokenView::RBrace, i + 1)
    } else if c == '(' {
        LexStep::Yield(TokenView::LParen, i + 1)
    } else if c == ')' {
        LexStep::Yield(TokenView::RParen, i + 1)
    } else if c == ':' {
        LexStep::Yield(TokenView::Colon, i + 1)
    } else if c == ',' {
        LexStep::Yield(TokenView::Comma, i + 1)
    } else if c == '&' {
        LexStep::Yield(TokenView::Ampersand, i + 1)
    } else if c == '*' {
        LexStep::Yield(TokenView::Star, i + 1)
    } else if c == '+' {
        LexStep::Yield(TokenView::Plus, i + 1)
    } else if c == '/' {
        LexStep::Yield(TokenView::Slash, i + 1)
    } else if c == '.' {
        LexStep::Yield(TokenView::Dot, i + 1)
    } else if c == ';' {
        LexStep::Yield(TokenView::Semicolon, i + 1)
    } else if c == '=' {
        LexStep::Yield(TokenView::Equals, i + 1)
    } else if cs[i].is_alphabetic || c == '_' {
        let end = word_end(cs, i);
        LexStep::Yield(TokenView::Ident(text_between(cs, i, end)), end)
    } else {
        LexStep::Stop(LexStopView::Error(ParseErrorView::UnexpectedCharacter { ch: c }))
    }
}

/// The tokens of the text from position `i` on, the last of which is the end
/// of the text; or why there are none.
///
/// An alphabetic character is taken to belong to a word: every step then goes
/// forward.
pub open spec fn lex(cs: Seq<ClassedChar>, i: int) -> Result<Seq<TokenView>, LexStopView>
    decreases cs.len() - i,
{
    if i < 0 || i >= cs.len() {
        Ok(seq![TokenView::Eof])
    } else {
        match lex_step(cs, i) {
            LexStep::Skip(j) => if i < j <= cs.len() {
                lex(cs, j)
            } else {
                arbitrary()
            },
            LexStep::Yield(t, j) => if i < j <= cs.len() {
                match lex(cs, j) {
                    Ok(rest) => Ok(seq![t] + rest),
                    Err(e) => Err(e),
                }
            } else {
                arbitrary()
            },
            LexStep::Stop(e) => Err(e),
        }
    }
}

/// Whether every character that is alphabetic is also alphanumeric.
pub open spec fn classes_agree(cs: Seq<ClassedChar>) -> bool {
    forall|i: int| 0 <= i < cs.len() && (#[trigger] cs[i]).is_alphabetic ==> cs[i].is_alphanumeric
}

/// What the lexer does at one position.
enum Step {
    Skip(usize),
    Yield(Token, usize),
    Stop(LexStop),
}

impl Step {
    spec fn model(&self) -> LexStep {
        match self {
            Step::Skip(j) => LexStep::Skip(*j as int),
            Step::Yield(t, j) => LexStep::Yield(t@, *j as int),
            Step::Stop(e) => LexStep::Stop(e@),
        }
    }

    /// Whether the step goes forward from `i`, and not past `len`.
    spec fn goes_forward(&self, i: int, len: int) -> bool {
        match self {
            Step::Skip(j) => i < *j <= len,
            Step::Yield(_, j) => i < *j <= len,
            Step::Stop(_) => true,
        }
    }
}

fn find_line_end(cs: &Vec<ClassedChar>, start: usize) -> (r: usize)
    requires
        start <= cs@.len(),
    ensures
        r == line_end(cs@, start as int),
        start <= r <= cs@.len(),
{
    let mut i: usize = start;
    while i < cs.len() && cs[i].ch != '\n'
        invariant
            start <= i <= cs@.len(),
            line_end(cs@, start as int) == line_end(cs@, i as int),
        decreases cs@.len() - i,
    {
        i += 1;
    }
    i
}

fn find_string_end(cs: &Vec<ClassedChar>, start: usize) -> (r: usize)
    requires
        start <= cs@.len(),
    ensures
        r == string_end(cs@, start as int),
        start <= r <= cs@.len(),
{
    let mut i: usize = start;
    while i < cs.len() && cs[i].ch != '"'
        invariant
            start <= i <= cs@.len(),
            string_end(cs@, start as int) == string_end(cs@, i as int),
        decreases cs@.len() - i,
    {
        i += 1;
    }
    i
}

fn find_digits_end(cs: &Vec<ClassedChar>, start: usize) -> (r: usize)
    requires
        start <= cs@.len(),
    ensures
        r == digits_end(cs@, start as int),
        start <= r <= cs@.len(),
        forall|k: int| start <= k < r ==> is_digit((#[trigger] cs@[k]).ch),
        start < cs@.len() && is_digit(cs@[start as int].ch) ==> start < r,
{
    let mut i: usize = start;
    while i < cs.len() && cs[i].ch >= '0' && cs[i].ch <= '9'
        invariant
            start <= i <= cs@.len(),
            digits_end(cs@, start as int) == digits_end(cs@, i as int),
            forall|k: int| start <= k < i ==> is_digit((#[trigger] cs@[k]).ch),
        decreases cs@.len() - i,
    {
        i += 1;
    }
    i
}

fn find_word_end(cs: &Vec<ClassedChar>, start: usize) -> (r: usize)
    requires
        start <= cs@.len(),
    ensures
        r == word_end(cs@, start as int),
        start <= r <= cs@.len(),
        start < cs@.len() && is_word(cs@[start as int]) ==> start < r,
{
    let mut i: usize = start;
    while i < cs.len() && (cs[i].is_alphanumeric || cs[i].ch == '_')
        invariant
            start <= i <= cs@.len(),
            word_end(cs@, start as int) == word_end(cs@, i as int),
        decreases cs@.len() - i,
    {
        i += 1;
    }
    i
}

fn copy_text(cs: &Vec<ClassedChar>, a: usize, b: usize) -> (r: String)
    requires
        a <= b <= cs@.len(),
    ensures
        r@ == text_between(cs@, a as int, b as int),
{
    let mut s = String::new();
    let mut i: usize = a;
    assert(s@ =~= text_between(cs@, a as int, a as int));
    while i < b
        invariant
            a <= i <= b <= cs@.len(),
            s@ == text_between(cs@, a as int, i as int),
        decreases b - i,
    {
        assert(text_between(cs@, a as int, i + 1) =~= text_between(cs@, a as int, i as int).push(
            cs@[i as int].ch,
        ));
        s.push(cs[i].ch);
        i += 1;
    }
    s
}

/// The number that some digits write grows with each digit.
proof fn lemma_digits_value_grows(cs: Seq<ClassedChar>, a: int, i: int, b: int)
    requires
        a <= i <= b,
    ensures
        digits_value(cs, a, i) <= digits_value(cs, a, b),
    decreases b - i,
{
    if i < b {
        lemma_digits_value_grows(cs, a, i, b - 1);
        assert(digits_value(cs, a, b) >= digits_value(cs, a, b - 1) * 10);
    }
}

/// The number that the digits from `a` to `b` write, where it fits.
fn read_number(cs: &Vec<ClassedChar>, a: usize, b: usize) -> (r: Option<i64>)
    requires
        a <= b <= cs@.len(),
        forall|k: int| a <= k < b ==> is_digit((#[trigger] cs@[k]).ch),
    ensures
        r == (if digits_value(cs@, a as int, b as int) > i64::MAX {
            None::<i64>
        } else {
            Some(digits_value(cs@, a as int, b as int) as i64)
        }),
{
    let mut value: i64 = 0;
    let mut i: usize = a;
    while i < b
        invariant
            a <= i <= b <= cs@.len(),
            value >= 0,
            value == digits_value(cs@, a as int, i as int),
            forall|k: int| a <= k < b ==> is_digit((#[trigger] cs@[k]).ch),
        decreases b - i,
    {
        assert(is_digit(cs@[i as int].ch));
        let d: i64 = cs[i].ch as i64 - 48;
        assert(digits_value(cs@, a as int, i + 1) == value * 10 + d);
        proof {
            lemma_digits_value_grows(cs@, a as int, i + 1, b as int);
        }
        if value > (i64::MAX - d) / 10 {
            return None;
        }
        value = value * 10 + d;
        i += 1;
    }
    Some(value)
}

fn number_step(cs: &Vec<ClassedChar>, i: usize) -> (r: Step)
    requires
        i < cs@.len(),
        is_digit(cs@[i as int].ch),
    ensures
        r.model() == lex_number(cs@, i as int),
        r.goes_forward(i as int, cs@.len() as int),
{
    let end = find_digits_end(cs, i);
    let value = match read_number(cs, i, end) {
        Some(v) => v,
        None => {
            return Step::Stop(LexStop::LiteralTooLarge);
        },
    };
    if end < cs.len() && (cs[end].ch == 'i' || cs[end].ch == 'u') {
        let suffix_end = find_word_end(cs, end);
        let suffix = copy_text(cs, end, suffix_end);
        if crate::text::same_text(&suffix, "i32") {
            Step::Yield(Token::IntLit(value, SourceType::I32), suffix_end)
        } else if crate::text::same_text(&suffix, "i64") {
            Step::Yield(Token::IntLit(value, SourceType::I64), suffix_end)
        } else if crate::text::same_text(&suffix, "usize") {
            Step::Yield(Token::IntLit(value, SourceType::Usize), suffix_end)
        } else {
            Step::Stop(LexStop::Error(ParseError::UnknownIntSuffix { suffix }))
        }
    } else if value > i32::MAX as i64 {
        Step::Yield(Token::IntLit(value, SourceType::I64), end)
    } else {
        Step::Yield(Token::IntLit(value, SourceType::I32), end)
    }
}

fn lex_at(cs: &Vec<ClassedChar>, i: usize) -> (r: Step)
    requires
        i < cs@.len(),
        classes_agree(cs@),
    ensures
        r.model() == lex_step(cs@, i as int),
        r.goes_forward(i as int, cs@.len() as int),
{
    let c = cs[i].ch;
    let has_next = cs.len() - i > 1;
    let space_before = i > 0 && cs[i - 1].is_space;
    let space_after = has_next && cs[i + 1].is_space;
    if cs[i].is_space {
        Step::Skip(i + 1)
    } else if c == '/' && has_next && cs[i + 1].ch == '/' {
        assert(line_end(cs@, i as int) == line_end(cs@, i + 1));
        let end = find_line_end(cs, i + 1);
        Step::Skip(end)
    } else if c == '-' {
        if has_next && cs[i + 1].ch == '>' {
            Step::Yield(Token::Arrow, i + 2)
        } else {
            Step::Yield(Token::Minus, i + 1)
        }
    } else if c == ':' && has_next && cs[i + 1].ch == ':' {
        Step::Yield(Token::DoubleColon, i + 2)
    } else if c == '=' && has_next && cs[i + 1].ch == '=' {
        Step::Yield(Token::EqEq, i + 2)
    } else if c == '!' && has_next && cs[i + 1].ch == '=' {
        Step::Yield(Token::BangEq, i + 2)
    } else if c == '<' && has_next && cs[i + 1].ch == '=' {
        Step::Yield(Token::LAngleEq, i + 2)
    } else if c == '>' && has_next && cs[i + 1].ch == '=' {
        Step::Yield(Token::RAngleEq, i + 2)
    } else if c == '<' {
        if space_before && space_after {
            Step::Yield(Token::Lt, i + 1)
        } else {
            Step::Yield(Token::LAngle, i + 1)
        }
    } else if c == '>' {
        if space_before && (!has_next || space_after) {
            Step::Yield(Token::Gt, i + 1)
        } else {
            Step::Yield(Token::RAngle, i + 1)
        }
    } else if c == '"' {
        let end = find_string_end(cs, i + 1);
        let token = Token::StringLit(copy_text(cs, i + 1, end));
        if end < cs.len() {
            Step::Yield(token, end + 1)
        } else {
            Step::Yield(token, end)
        }
    } else if c >= '0' && c <= '9' {
        number_step(cs, i)
    } else if c == '&' && has_next && cs[i + 1].ch == '&' {
        Step::Yield(Token::AmpAmp, i + 2)
    } else if c == '|' && has_next && cs[i + 1].ch == '|' {
        Step::Yield(Token::PipePipe, i + 2)
    } else if c == '{' {
        Step::Yield(Token::LBrace, i + 1)
    } else if c == '}' {
        Step::Yield(Token::RBrace, i + 1)
    } else if c == '(' {
        Step::Yield(Token::LParen, i + 1)
    } else if c == ')' {
        Step::Yield(Token::RParen, i + 1)
    } else if c == ':' {
        Step::Yield(Token::Colon, i + 1)
    } else if c == ',' {
        Step::Yield(Token::Comma, i + 1)
    } else if c == '&' {
        Step::Yield(Token::Ampersand, i + 1)
    } else if c == '*' {
        Step::Yield(Token::Star, i + 1)
    } else if c == '+' {
        Step::Yield(Token::Plus, i + 1)
    } else if c == '/' {
        Step::Yield(Token::Slash, i + 1)
    } else if c == '.' {
        Step::Yield(Token::Dot, i + 1)
    } else if c == ';' {
        Step::Yield(Token::Semicolon, i + 1)
    } else if c == '=' {
        Step::Yield(Token::Equals, i + 1)
    } else if cs[i].is_alphabetic || c == '_' {
        let end = find_word_end(cs, i);
        Step::Yield(Token::Ident(copy_text(cs, i, end)), end)
    } else {
        Step::Stop(LexStop::Error(ParseError::UnexpectedCharacter { ch: c }))
    }
}

/// The view of the outcome of lexing.
pub open spec fn lex_outcome(r: Result<Vec<Token>, LexStop>) -> Result<Seq<TokenView>, LexStopView> {
    match r {
        Ok(ts) => Ok(crate::text::views(ts@)),
        Err(e) => Err(e@),
    }
}

/// The tokens of a text whose characters are classed.
pub fn lex_classed(cs: &Vec<ClassedChar>) -> (r: Result<Vec<Token>, LexStop>)
    requires
        classes_agree(cs@),
    ensures
        lex_outcome(r) == lex(cs@, 0),
        r is Ok ==> well_ended(crate::text::views(r->Ok_0@)),
{
    let ghost whole = lex(cs@, 0);
    let mut out: Vec<Token> = Vec::new();
    let mut i: usize = 0;
    assert(whole is Ok ==> crate::text::views(out@) + whole->Ok_0 =~= whole->Ok_0);
    while i < cs.len()
        invariant
            i <= cs@.len(),
            classes_agree(cs@),
            whole == lex(cs@, 0),
            whole == (match lex(cs@, i as int) {
                Ok(rest) => Ok(crate::text::views(out@) + rest),
                Err(e) => Err(e),
            }),
            forall|k: int| 0 <= k < out@.len() ==> !((#[trigger] out@[k])@ is Eof),
        decreases cs@.len() - i,
    {
        let ghost done = crate::text::views(out@);
        match lex_at(cs, i) {
            Step::Skip(j) => {
                i = j;
            },
            Step::Yield(token, j) => {
                let ghost t = token@;
                out.push(token);
                assert(crate::text::views(out@) =~= done.push(t));
                assert(forall|rest: Seq<TokenView>|
                    #[trigger] (crate::text::views(out@) + rest) =~= done + (seq![t] + rest));
                i = j;
            },
            Step::Stop(e) => {
                return Err(e);
            },
        }
    }
    let ghost done = crate::text::views(out@);
    out.push(Token::Eof);
    assert(crate::text::views(out@) =~= done + seq![TokenView::Eof]);
    Ok(out)
}

/// Whether a sequence of tokens ends with the end of the text, and has it
/// nowhere else.
pub open spec fn well_ended(ts: Seq<TokenView>) -> bool {
    &&& ts.len() > 0
    &&& ts.last() is Eof
    &&& forall|i: int| 0 <= i < ts.len() - 1 ==> !((#[trigger] ts[i]) is Eof)
}

/// The characters of a text with what the lexer asks of them.
pub fn classify(src: &str) -> (cs: Vec<ClassedChar>)
    ensures
        cs@ == classed(src@),
        classes_agree(cs@),
{
    let chars = chars_of(src);
    let mut cs: Vec<ClassedChar> = Vec::new();
    let mut i: usize = 0;
    while i < chars.len()
        invariant
            i == cs@.len(),
            i <= chars@.len(),
            chars@ == src@,
            forall|k: int| 0 <= k < i ==> (#[trigger] cs@[k]) == classed(src@)[k],
            classes_agree(cs@),
        decreases chars@.len() - i,
    {
        let c = chars[i];
        let one = ClassedChar {
            ch: c,
            is_space: c.is_whitespace(),
            is_alphabetic: c.is_alphabetic(),
            is_alphanumeric: c.is_alphanumeric(),
        };
        assert(one == class_of(c));
        assert(one == classed(src@)[i as int]);
        cs.push(one);
        i += 1;
    }
    assert(cs@ =~= classed(src@));
    cs
}

} // verus!
