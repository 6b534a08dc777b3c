//! The types of LLVM that generated code has, how they read, and how large
//! their values are.
use crate::text::{chars_of, Duplicate};
use crate::toylang::lexer::is_space;
use vstd::prelude::*;
use vstd::slice::slice_subrange;

verus! {

broadcast use {vstd::seq::group_seq_axioms, vstd::std_specs::vec::group_vec_axioms};

/// The widest integer that LLVM has.
pub const MAX_INT_BITS: u32 = 8388608;

/// A type of LLVM.
#[derive(Debug, PartialEq)]
pub enum LlvmType {
    Int { bits: u32 },
    Half,
    Float,
    Double,
    Fp128,
    Ptr,
    Array { elem: Box<LlvmType>, len: u32 },
    Vector { elem: Box<LlvmType>, len: u32 },
    Struct { fields: Vec<LlvmType> },
}

/// What an [`LlvmType`] says.
pub enum LlvmTypeView {
    Int { bits: u32 },
    Half,
    Float,
    Double,
    Fp128,
    Ptr,
    Array { elem: Box<LlvmTypeView>, len: u32 },
    Vector { elem: Box<LlvmTypeView>, len: u32 },
    Struct { fields: Seq<LlvmTypeView> },
}

impl LlvmType {
    /// The type without its representation.
    pub open spec fn model(&self) -> LlvmTypeView
        decreases self,
    {
        match self {
            LlvmType::Int { bits } => LlvmTypeView::Int { bits: *bits },
            LlvmType::Half => LlvmTypeView::Half,
            LlvmType::Float => LlvmTypeView::Float,
            LlvmType::Double => LlvmTypeView::Double,
            LlvmType::Fp128 => LlvmTypeView::Fp128,
            LlvmType::Ptr => LlvmTypeView::Ptr,
            LlvmType::Array { elem, len } => LlvmTypeView::Array {
                elem: Box::new(elem.model()),
                len: *len,
            },
            LlvmType::Vector { elem, len } => LlvmTypeView::Vector {
                elem: Box::new(elem.model()),
                len: *len,
            },
            LlvmType::Struct { fields } => LlvmTypeView::Struct { fields: type_views(fields@) },
        }
    }
}

/// The models of the types.
pub open spec fn type_views(s: Seq<LlvmType>) -> Seq<LlvmTypeView>
    decreases s,
{
    Seq::new(
        s.len(),
        |i: int|
            if 0 <= i < s.len() {
                s[i].model()
            } else {
                arbitrary()
            },
    )
}

impl View for LlvmType {
    type V = LlvmTypeView;

    open spec fn view(&self) -> LlvmTypeView {
        self.model()
    }
}

/// A copy of a type.
pub fn clone_type(t: &LlvmType) -> (r: LlvmType)
    ensures
        r@ == t@,
    decreases t,
{
    match t {
        LlvmType::Int { bits } => LlvmType::Int { bits: *bits },
        LlvmType::Half => LlvmType::Half,
        LlvmType::Float => LlvmType::Float,
        LlvmType::Double => LlvmType::Double,
        LlvmType::Fp128 => LlvmType::Fp128,
        LlvmType::Ptr => LlvmType::Ptr,
        LlvmType::Array { elem, len } => LlvmType::Array {
            elem: Box::new(clone_type(elem)),
            len: *len,
        },
        LlvmType::Vector { elem, len } => LlvmType::Vector {
            elem: Box::new(clone_type(elem)),
            len: *len,
        },
        LlvmType::Struct { fields } => LlvmType::Struct { fields: clone_types(fields) },
    }
}

/// Copies of some types.
pub fn clone_types(v: &Vec<LlvmType>) -> (r: Vec<LlvmType>)
    ensures
        type_views(r@) == type_views(v@),
    decreases v,
{
    let mut r: Vec<LlvmType> = Vec::new();
    let mut i: usize = 0;
    while i < v.len()
        invariant
            i == r@.len(),
            i <= v@.len(),
            forall|j: int| 0 <= j < i ==> (#[trigger] r@[j]).model() == v@[j].model(),
        decreases v@.len() - i,
    {
        r.push(clone_type(&v[i]));
        i += 1;
    }
    assert(type_views(r@) =~= type_views(v@));
    r
}

impl Clone for LlvmType {
    fn clone(&self) -> (r: Self)
        ensures
            r@ == self@,
    {
        clone_type(self)
    }
}

impl Duplicate for LlvmType {
    fn duplicate(&self) -> (r: Self) {
        clone_type(self)
    }
}

/// Whether two types are the same.
pub fn same_type(a: &LlvmType, b: &LlvmType) -> (r: bool)
    ensures
        r == (a@ == b@),
    decreases a,
{
    match (a, b) {
        (LlvmType::Int { bits: x }, LlvmType::Int { bits: y }) => *x == *y,
        (LlvmType::Half, LlvmType::Half) => true,
        (LlvmType::Float, LlvmType::Float) => true,
        (LlvmType::Double, LlvmType::Double) => true,
        (LlvmType::Fp128, LlvmType::Fp128) => true,
        (LlvmType::Ptr, LlvmType::Ptr) => true,
        (LlvmType::Array { elem: x, len: n }, LlvmType::Array { elem: y, len: m }) => *n == *m
            && same_type(x, y),
        (LlvmType::Vector { elem: x, len: n }, LlvmType::Vector { elem: y, len: m }) => *n == *m
            && same_type(x, y),
        (LlvmType::Struct { fields: x }, LlvmType::Struct { fields: y }) => same_types(x, y),
        _ => false,
    }
}

/// Whether two lists of types are the same.
pub fn same_types(a: &Vec<LlvmType>, b: &Vec<LlvmType>) -> (r: bool)
    ensures
        r == (type_views(a@) == type_views(b@)),
    decreases a,
{
    if a.len() != b.len() {
        assert(type_views(a@).len() != type_views(b@).len());
        return false;
    }
    let mut i: usize = 0;
    while i < a.len()
        invariant
            i <= a@.len(),
            a@.len() == b@.len(),
            forall|j: int| 0 <= j < i ==> (#[trigger] a@[j]).model() == b@[j].model(),
        decreases a@.len() - i,
    {
        if !same_type(&a[i], &b[i]) {
            assert(type_views(a@)[i as int] != type_views(b@)[i as int]);
            return false;
        }
        i += 1;
    }
    assert(type_views(a@) =~= type_views(b@));
    true
}

/// Text without the white space at its start.
pub open spec fn trim_start(s: Seq<char>) -> Seq<char>
    decreases s.len(),
{
    if s.len() > 0 && is_space(s[0]) {
        trim_start(s.drop_first())
    } else {
        s
    }
}

/// Text without the white space at its end.
pub open spec fn trim_end(s: Seq<char>) -> Seq<char>
    decreases s.len(),
{
    if s.len() > 0 && is_space(s.last()) {
        trim_end(s.drop_last())
    } else {
        s
    }
}

/// Text without the white space around it.
pub open spec fn trim(s: Seq<char>) -> Seq<char> {
    trim_end(trim_start(s))
}

/// Text without the `c`s at its start.
pub open spec fn strip_start(s: Seq<char>, c: char) -> Seq<char>
    decreases s.len(),
{
    if s.len() > 0 && s[0] == c {
        strip_start(s.drop_first(), c)
    } else {
        s
    }
}

/// Text without the `c`s at its end.
pub open spec fn strip_end(s: Seq<char>, c: char) -> Seq<char>
    decreases s.len(),
{
    if s.len() > 0 && s.last() == c {
        strip_end(s.drop_last(), c)
    } else {
        s
    }
}

proof fn lemma_trim_shorter(s: Seq<char>)
    ensures
        trim_start(s).len() <= s.len(),
        trim_end(s).len() <= s.len(),
    decreases s.len(),
{
    if s.len() > 0 {
        lemma_trim_shorter(s.drop_first());
        lemma_trim_shorter(s.drop_last());
    }
}

proof fn lemma_strip_shorter(s: Seq<char>, c: char)
    ensures
        strip_start(s, c).len() <= s.len(),
        strip_end(s, c).len() <= s.len(),
        s.len() > 0 && s[0] == c ==> strip_start(s, c).len() < s.len(),
    decreases s.len(),
{
    if s.len() > 0 {
        lemma_strip_shorter(s.drop_first(), c);
        lemma_strip_shorter(s.drop_last(), c);
    }
}

/// Text without the white space around it.
pub fn trimmed(s: &[char]) -> (r: &[char])
    ensures
        r@ == trim(s@),
        r@.len() <= s@.len(),
{
    let n: usize = s.len();
    let mut from: usize = 0;
    assert(s@.skip(0) =~= s@);
    while from < n && s[from].is_whitespace()
        invariant
            from <= n,
            n == s@.len(),
            trim_start(s@) == trim_start(s@.skip(from as int)),
        decreases n - from,
    {
        assert(s@.skip(from as int).drop_first() =~= s@.skip(from + 1));
        from += 1;
    }
    let ghost cut = s@.skip(from as int);
    let mut to: usize = n;
    assert(s@.subrange(from as int, to as int) =~= cut);
    while to > from && s[to - 1].is_whitespace()
        invariant
            from <= to <= n,
            n == s@.len(),
            trim_end(cut) == trim_end(s@.subrange(from as int, to as int)),
        decreases to,
    {
        assert(s@.subrange(from as int, to as int).drop_last() =~= s@.subrange(
            from as int,
            to - 1,
        ));
        to -= 1;
    }
    slice_subrange(s, from, to)
}

fn stripped_start(s: &[char], c: char) -> (r: &[char])
    ensures
        r@ == strip_start(s@, c),
{
    let n: usize = s.len();
    let mut from: usize = 0;
    assert(s@.skip(0) =~= s@);
    while from < n && s[from] == c
        invariant
            from <= n,
            n == s@.len(),
            strip_start(s@, c) == strip_start(s@.skip(from as int), c),
        decreases n - from,
    {
        assert(s@.skip(from as int).drop_first() =~= s@.skip(from + 1));
        from += 1;
    }
    assert(s@.subrange(from as int, n as int) =~= s@.skip(from as int));
    slice_subrange(s, from, n)
}

fn stripped_end(s: &[char], c: char) -> (r: &[char])
    ensures
        r@ == strip_end(s@, c),
{
    let n: usize = s.len();
    let mut to: usize = n;
    assert(s@.subrange(0, n as int) =~= s@);
    while to > 0 && s[to - 1] == c
        invariant
            to <= n,
            n == s@.len(),
            strip_end(s@, c) == strip_end(s@.subrange(0, to as int), c),
        decreases to,
    {
        assert(s@.subrange(0, to as int).drop_last() =~= s@.subrange(0, to - 1));
        to -= 1;
    }
    slice_subrange(s, 0, to)
}

/// The number that digits stand for, if there is at least one, nothing else
/// among them, and the number fits.
pub open spec fn digits_value(s: Seq<char>) -> Option<nat>
    decreases s.len(),
{
    if s.len() == 0 {
        None
    } else {
        let last = s.last() as u32;
        let before = if s.len() == 1 {
            Some(0nat)
        } else {
            digits_value(s.drop_last())
        };
        match before {
            None => None,
            Some(v) => if 48 <= last <= 57 && v * 10 + (last - 48) <= u32::MAX {
                Some((v * 10 + (last - 48)) as nat)
            } else {
                None
            },
        }
    }
}

/// The number that text stands for: digits, behind at most one plus sign.
pub open spec fn number(s: Seq<char>) -> Option<nat> {
    if s.len() > 0 && s[0] == '+' {
        digits_value(s.drop_first())
    } else {
        digits_value(s)
    }
}

proof fn lemma_bad_prefix(s: Seq<char>, n: int)
    requires
        1 <= n <= s.len(),
        digits_value(s.take(n)) is None,
    ensures
        digits_value(s) is None,
    decreases s.len() - n,
{
    if n < s.len() {
        assert(s.take(n + 1).drop_last() =~= s.take(n));
        lemma_bad_prefix(s, n + 1);
    } else {
        assert(s.take(n) =~= s);
    }
}

fn parse_digits(s: &[char]) -> (r: Option<u32>)
    ensures
        (match r {
            Some(v) => Some(v as nat),
            None => None,
        }) == digits_value(s@),
{
    let n: usize = s.len();
    if n == 0 {
        return None;
    }
    let mut v: u64 = 0;
    let mut i: usize = 0;
    while i < n
        invariant
            i <= n,
            n == s@.len(),
            v <= u32::MAX,
            i == 0 ==> v == 0,
            i > 0 ==> digits_value(s@.take(i as int)) == Some(v as nat),
        decreases n - i,
    {
        let c: u32 = s[i] as u32;
        proof {
            assert(s@.take(i + 1).drop_last() =~= s@.take(i as int));
            assert(s@.take(i + 1).last() == s@[i as int]);
        }
        if c < 48 || c > 57 {
            proof {
                lemma_bad_prefix(s@, i + 1);
            }
            return None;
        }
        let d: u64 = (c - 48) as u64;
        let next: u64 = v * 10 + d;
        if next > 4294967295 {
            proof {
                lemma_bad_prefix(s@, i + 1);
            }
            return None;
        }
        v = next;
        i += 1;
    }
    assert(s@.take(n as int) =~= s@);
    Some(v as u32)
}

fn parse_number(s: &[char]) -> (r: Option<u32>)
    ensures
        (match r {
            Some(v) => Some(v as nat),
            None => None,
        }) == number(s@),
{
    let n: usize = s.len();
    if n > 0 && s[0] == '+' {
        assert(s@.subrange(1, n as int) =~= s@.drop_first());
        parse_digits(slice_subrange(s, 1, n))
    } else {
        parse_digits(s)
    }
}

/// Where the first ` x ` stands.
pub open spec fn cross_at(s: Seq<char>) -> Option<nat>
    decreases s.len(),
{
    if s.len() < 3 {
        None
    } else if s[0] == ' ' && s[1] == 'x' && s[2] == ' ' {
        Some(0)
    } else {
        match cross_at(s.drop_first()) {
            Some(i) => Some(i + 1),
            None => None,
        }
    }
}

fn find_cross(s: &[char]) -> (r: Option<usize>)
    ensures
        (match r {
            Some(i) => Some(i as nat),
            None => None,
        }) == cross_at(s@),
        r matches Some(i) ==> i + 3 <= s@.len(),
{
    let n: usize = s.len();
    let mut i: usize = 0;
    assert(s@.skip(0) =~= s@);
    while i < n && n - i >= 3
        invariant
            i <= n,
            n == s@.len(),
            cross_at(s@) == (match cross_at(s@.skip(i as int)) {
                Some(k) => Some((k + i) as nat),
                None => None,
            }),
        decreases n - i,
    {
        assert(s@.skip(i as int).drop_first() =~= s@.skip(i + 1));
        if s[i] == ' ' && s[i + 1] == 'x' && s[i + 2] == ' ' {
            return Some(i);
        }
        i += 1;
    }
    None
}

/// The text up to the first ` x `, or all of it.
pub open spec fn before_cross(s: Seq<char>) -> Seq<char> {
    match cross_at(s) {
        Some(i) => s.take(i as int),
        None => s,
    }
}

/// What stands between the brackets of `[N x T]` or `<N x T>`: the number, and
/// the text of the type.
pub open spec fn sized(s: Seq<char>) -> Option<(nat, Seq<char>)> {
    if s.len() < 2 || s.last() as u32 >= 128 {
        None
    } else {
        let inner = s.subrange(1, s.len() - 1);
        match cross_at(inner) {
            None => None,
            Some(i) => match number(trim(inner.take(i as int))) {
                None => None,
                Some(n) => Some((n, trim(before_cross(inner.skip((i + 3) as int))))),
            },
        }
    }
}

proof fn lemma_cross_in(s: Seq<char>)
    ensures
        cross_at(s) matches Some(i) ==> i + 3 <= s.len(),
    decreases s.len(),
{
    if s.len() >= 3 {
        lemma_cross_in(s.drop_first());
    }
}

proof fn lemma_sized_shorter(s: Seq<char>)
    ensures
        sized(s) matches Some((n, t)) ==> t.len() < s.len() && n <= u32::MAX,
{
    if s.len() >= 2 {
        let inner = s.subrange(1, s.len() - 1);
        lemma_cross_in(inner);
        match cross_at(inner) {
            None => {},
            Some(i) => {
                let rest = inner.skip((i + 3) as int);
                lemma_cross_in(rest);
                lemma_trim_shorter(before_cross(rest));
                lemma_trim_shorter(trim_start(before_cross(rest)));
            },
        }
    }
}

fn parse_sized(s: &[char]) -> (r: Option<(u32, &[char])>)
    ensures
        (match r {
            Some((n, t)) => Some((n as nat, t@)),
            None => None,
        }) == sized(s@),
{
    let n: usize = s.len();
    if n < 2 || s[n - 1] as u32 >= 128 {
        return None;
    }
    let inner = slice_subrange(s, 1, n - 1);
    match find_cross(inner) {
        None => None,
        Some(i) => {
            assert(inner@.subrange(0, i as int) =~= inner@.take(i as int));
            match parse_number(trimmed(slice_subrange(inner, 0, i))) {
                None => None,
                Some(count) => {
                    let m: usize = inner.len();
                    let rest = slice_subrange(inner, i + 3, m);
                    assert(rest@ =~= inner@.skip(i + 3));
                    match find_cross(rest) {
                        Some(j) => {
                            assert(rest@.subrange(0, j as int) =~= rest@.take(j as int));
                            Some((count, trimmed(slice_subrange(rest, 0, j))))
                        },
                        None => Some((count, trimmed(rest))),
                    }
                },
            }
        },
    }
}

/// What a character adds to the depth of brackets.
pub open spec fn depth_change(c: char) -> int {
    if c == '{' || c == '[' {
        1
    } else if c == '}' || c == ']' {
        -1
    } else {
        0
    }
}

/// Where the first comma outside all brackets stands.
pub open spec fn outer_comma(s: Seq<char>, depth: int) -> Option<nat>
    decreases s.len(),
{
    if s.len() == 0 {
        None
    } else if s[0] == ',' && depth == 0 {
        Some(0)
    } else {
        match outer_comma(s.drop_first(), depth + depth_change(s[0])) {
            Some(i) => Some(i + 1),
            None => None,
        }
    }
}

proof fn lemma_outer_comma_in(s: Seq<char>, depth: int)
    ensures
        outer_comma(s, depth) matches Some(i) ==> i < s.len(),
    decreases s.len(),
{
    if s.len() > 0 {
        lemma_outer_comma_in(s.drop_first(), depth + depth_change(s[0]));
    }
}

/// The parts of text between the commas outside all brackets, without the
/// white space around them. A last part without text is none.
pub open spec fn outer_parts(s: Seq<char>) -> Seq<Seq<char>>
    decreases s.len(),
{
    match outer_comma(s, 0) {
        Some(i) if i < s.len() => seq![trim(s.take(i as int))] + outer_parts(s.skip((i + 1) as int)),
        _ => if trim(s).len() == 0 {
            Seq::empty()
        } else {
            seq![trim(s)]
        },
    }
}

proof fn lemma_parts_shorter(s: Seq<char>)
    ensures
        forall|i: int| 0 <= i < outer_parts(s).len() ==> (#[trigger] outer_parts(s)[i]).len() <= s.len(),
    decreases s.len(),
{
    lemma_trim_shorter(s);
    lemma_trim_shorter(trim_start(s));
    match outer_comma(s, 0) {
        Some(i) if i < s.len() => {
            let t = s.take(i as int);
            lemma_trim_shorter(t);
            lemma_trim_shorter(trim_start(t));
            let rest = s.skip((i + 1) as int);
            lemma_parts_shorter(rest);
            assert forall|j: int| 0 <= j < outer_parts(s).len() implies (
            #[trigger] outer_parts(s)[j]).len() <= s.len() by {
                if j > 0 {
                    assert(outer_parts(s)[j] == outer_parts(rest)[j - 1]);
                }
            }
        },
        _ => {},
    }
}

fn find_outer_comma(s: &[char]) -> (r: Option<usize>)
    ensures
        (match r {
            Some(i) => Some(i as nat),
            None => None,
        }) == outer_comma(s@, 0),
        r matches Some(i) ==> i < s@.len(),
{
    let n: usize = s.len();
    let mut i: usize = 0;
    let mut depth: i128 = 0;
    assert(s@.skip(0) =~= s@);
    while i < n
        invariant
            i <= n,
            n == s@.len(),
            -(i as int) <= depth <= i,
            outer_comma(s@, 0) == (match outer_comma(s@.skip(i as int), depth as int) {
                Some(k) => Some((k + i) as nat),
                None => None,
            }),
        decreases n - i,
    {
        assert(s@.skip(i as int).drop_first() =~= s@.skip(i + 1));
        let c = s[i];
        if c == ',' && depth == 0 {
            return Some(i);
        }
        if c == '{' || c == '[' {
            depth += 1;
        } else if c == '}' || c == ']' {
            depth -= 1;
        }
        i += 1;
    }
    None
}

/// What stands between the braces of a struct type.
pub open spec fn struct_inner(s: Seq<char>) -> Seq<char> {
    trim(strip_end(strip_start(trim(s), '{'), '}'))
}

proof fn lemma_inner_shorter(s: Seq<char>)
    requires
        s.len() > 0,
        s[0] == '{',
    ensures
        struct_inner(s).len() < s.len(),
{
    lemma_trim_shorter(s);
    lemma_trim_shorter(trim_start(s));
    let t = trim(s);
    if t.len() == s.len() {
        lemma_trim_same(s);
    }
    lemma_strip_shorter(t, '{');
    let u = strip_start(t, '{');
    lemma_strip_shorter(u, '}');
    let v = strip_end(u, '}');
    lemma_trim_shorter(v);
    lemma_trim_shorter(trim_start(v));
}

proof fn lemma_trim_same(s: Seq<char>)
    requires
        trim(s).len() == s.len(),
    ensures
        trim(s) == s,
{
    lemma_trim_shorter(s);
    lemma_trim_shorter(trim_start(s));
    if s.len() > 0 && is_space(s[0]) {
        lemma_trim_shorter(s.drop_first());
    }
    if s.len() > 0 && is_space(s.last()) {
        lemma_trim_shorter(s.drop_last());
    }
}

/// Whether a type can be the element of an array or a vector.
pub open spec fn is_scalar(t: LlvmTypeView) -> bool {
    t is Int || t is Half || t is Float || t is Double || t is Fp128
}

/// The type that text stands for.
pub open spec fn parse_type(s: Seq<char>) -> Option<LlvmTypeView>
    decreases s.len(), 1int, 0nat,
{
    if s == "ptr"@ {
        Some(LlvmTypeView::Ptr)
    } else if s == "half"@ {
        Some(LlvmTypeView::Half)
    } else if s == "float"@ {
        Some(LlvmTypeView::Float)
    } else if s == "double"@ {
        Some(LlvmTypeView::Double)
    } else if s == "fp128"@ {
        Some(LlvmTypeView::Fp128)
    } else if s.len() == 0 {
        None
    } else if s[0] == 'i' {
        match number(s.drop_first()) {
            Some(bits) => if 1 <= bits <= MAX_INT_BITS {
                Some(LlvmTypeView::Int { bits: bits as u32 })
            } else {
                None
            },
            None => None,
        }
    } else if s[0] == '[' {
        match sized(s) {
            Some((len, elem)) if elem.len() < s.len() => match parse_type(elem) {
                Some(t) => if is_scalar(t) {
                    Some(LlvmTypeView::Array { elem: Box::new(t), len: len as u32 })
                } else {
                    None
                },
                None => None,
            },
            _ => None,
        }
    } else if s[0] == '<' && s.last() == '>' {
        match sized(s) {
            Some((len, elem)) if elem.len() < s.len() => match parse_type(elem) {
                Some(t) => if is_scalar(t) && len > 0 {
                    Some(LlvmTypeView::Vector { elem: Box::new(t), len: len as u32 })
                } else {
                    None
                },
                None => None,
            },
            _ => None,
        }
    } else if s[0] == '{' {
        if struct_inner(s).len() < s.len() {
            match parse_fields(outer_parts(struct_inner(s)), (s.len() - 1) as nat) {
                Some(fields) => Some(LlvmTypeView::Struct { fields }),
                None => None,
            }
        } else {
            None
        }
    } else {
        None
    }
}

/// The types that some texts, none longer than `bound`, stand for.
pub open spec fn parse_fields(parts: Seq<Seq<char>>, bound: nat) -> Option<Seq<LlvmTypeView>>
    decreases bound, 2int, parts.len(),
{
    if parts.len() == 0 {
        Some(Seq::empty())
    } else if parts[0].len() > bound {
        None
    } else {
        match parse_type(parts[0]) {
            None => None,
            Some(first) => match parse_fields(parts.drop_first(), bound) {
                None => None,
                Some(rest) => Some(seq![first] + rest),
            },
        }
    }
}

fn is_word(s: &[char], word: &str) -> (r: bool)
    ensures
        r == (s@ == word@),
{
    let w = chars_of(word);
    if s.len() != w.len() {
        return false;
    }
    let mut i: usize = 0;
    while i < w.len()
        invariant
            i <= w@.len(),
            w@ == word@,
            w@.len() == s@.len(),
            forall|j: int| 0 <= j < i ==> s@[j] == w@[j],
        decreases w@.len() - i,
    {
        if s[i] != w[i] {
            return false;
        }
        i += 1;
    }
    assert(s@ =~= w@);
    true
}

fn scalar(t: &LlvmType) -> (r: bool)
    ensures
        r == is_scalar(t@),
{
    match t {
        LlvmType::Int { .. } | LlvmType::Half | LlvmType::Float | LlvmType::Double | LlvmType::Fp128 => true,
        _ => false,
    }
}

fn parse_chars(s: &[char]) -> (r: Option<LlvmType>)
    ensures
        (match r {
            Some(t) => Some(t@),
            None => None,
        }) == parse_type(s@),
    decreases s@.len(),
{
    let n: usize = s.len();
    if is_word(s, "ptr") {
        return Some(LlvmType::Ptr);
    }
    if is_word(s, "half") {
        return Some(LlvmType::Half);
    }
    if is_word(s, "float") {
        return Some(LlvmType::Float);
    }
    if is_word(s, "double") {
        return Some(LlvmType::Double);
    }
    if is_word(s, "fp128") {
        return Some(LlvmType::Fp128);
    }
    if n == 0 {
        return None;
    }
    if s[0] == 'i' {
        assert(s@.subrange(1, n as int) =~= s@.drop_first());
        match parse_number(slice_subrange(s, 1, n)) {
            Some(bits) => if 1 <= bits && bits <= MAX_INT_BITS {
                Some(LlvmType::Int { bits })
            } else {
                None
            },
            None => None,
        }
    } else if s[0] == '[' {
        proof {
            lemma_sized_shorter(s@);
        }
        match parse_sized(s) {
            Some((len, elem)) => match parse_chars(elem) {
                Some(t) => if scalar(&t) {
                    Some(LlvmType::Array { elem: Box::new(t), len })
                } else {
                    None
                },
                None => None,
            },
            None => None,
        }
    } else if s[0] == '<' && s[n - 1] == '>' {
        proof {
            lemma_sized_shorter(s@);
        }
        match parse_sized(s) {
            Some((len, elem)) => match parse_chars(elem) {
                Some(t) => if scalar(&t) && len > 0 {
                    Some(LlvmType::Vector { elem: Box::new(t), len })
                } else {
                    None
                },
                None => None,
            },
            None => None,
        }
    } else if s[0] == '{' {
        proof {
            lemma_inner_shorter(s@);
        }
        let whole = trimmed(stripped_end(stripped_start(trimmed(s), '{'), '}'));
        let ghost bound = (s@.len() - 1) as nat;
        let ghost all = outer_parts(whole@);
        proof {
            lemma_parts_shorter(whole@);
        }
        let ghost wanted = parse_fields(all, bound);
        let mut fields: Vec<LlvmType> = Vec::new();
        let mut inner = whole;
        assert(wanted is Some ==> type_views(fields@) + wanted->Some_0 =~= wanted->Some_0);
        loop
            invariant
                s@.len() > 0,
                bound == s@.len() - 1,
                inner@.len() <= bound,
                forall|i: int|
                    0 <= i < outer_parts(inner@).len() ==> (#[trigger] outer_parts(inner@)[i]).len()
                        <= bound,
                wanted == (match parse_fields(outer_parts(inner@), bound) {
                    Some(rest) => Some(type_views(fields@) + rest),
                    None => None,
                }),
                (match wanted {
                    Some(f) => Some(LlvmTypeView::Struct { fields: f }),
                    None => None,
                }) == parse_type(s@),
            decreases inner@.len(),
        {
            let ghost done = type_views(fields@);
            let ghost parts = outer_parts(inner@);
            match find_outer_comma(inner) {
                Some(i) => {
                    let m: usize = inner.len();
                    assert(inner@.subrange(0, i as int) =~= inner@.take(i as int));
                    assert(inner@.subrange(i + 1, m as int) =~= inner@.skip(i + 1));
                    let part = trimmed(slice_subrange(inner, 0, i));
                    let rest = slice_subrange(inner, i + 1, m);
                    assert(parts[0] == part@);
                    assert(parts.drop_first() =~= outer_parts(rest@));
                    proof {
                        lemma_parts_shorter(rest@);
                    }
                    match parse_chars(part) {
                        None => {
                            return None;
                        },
                        Some(t) => {
                            let ghost view = t@;
                            fields.push(t);
                            assert(type_views(fields@) =~= done.push(view));
                            assert(forall|more: Seq<LlvmTypeView>|
                                #[trigger] (type_views(fields@) + more) =~= done + (seq![view] + more));
                        },
                    }
                    inner = rest;
                },
                None => {
                    let part = trimmed(inner);
                    if part.len() > 0 {
                        assert(parts[0] == part@);
                        assert(parts.drop_first() =~= Seq::empty());
                        match parse_chars(part) {
                            None => {
                                return None;
                            },
                            Some(t) => {
                                let ghost view = t@;
                                fields.push(t);
                                assert(type_views(fields@) =~= done.push(view));
                                assert(parse_fields(parts.drop_first(), bound) == Some(
                                    Seq::<LlvmTypeView>::empty(),
                                ));
                                assert(done + (seq![view] + Seq::<LlvmTypeView>::empty())
                                    =~= type_views(fields@));
                            },
                        }
                    } else {
                        assert(parse_fields(parts, bound) == Some(Seq::<LlvmTypeView>::empty()));
                        assert(done + Seq::<LlvmTypeView>::empty() =~= done);
                    }
                    return Some(LlvmType::Struct { fields });
                },
            }
        }
    } else {
        None
    }
}

/// The type that text of the Rust compiler's ABI stands for: `ptr`, a float
/// type, an integer type by its width, an array, a vector or a struct.
pub fn parse_coerced_type(s: &str) -> (r: Option<LlvmType>)
    ensures
        (match r {
            Some(t) => Some(t@),
            None => None,
        }) == parse_type(s@),
{
    let chars = chars_of(s);
    parse_chars(chars.as_slice())
}

/// `n` rounded up by clearing the low bits that `align` asks for, which is
/// the next multiple of `align` where that is a power of two. Nothing, where
/// the number does not fit.
pub open spec fn align_up(n: nat, align: nat) -> Option<nat> {
    if align <= 1 {
        Some(n)
    } else if n + align - 1 > u64::MAX {
        None
    } else {
        Some((((n + align - 1) as u64) & !((align - 1) as u64)) as nat)
    }
}

/// How much a field aligns: its size, between one byte and a pointer.
pub open spec fn field_align(size: nat, pointer_bytes: nat) -> nat {
    let at_least = if size > 1 {
        size
    } else {
        1
    };
    if at_least < pointer_bytes {
        at_least
    } else {
        pointer_bytes
    }
}

/// The size of a value in bytes. Nothing for a vector, and where a size does
/// not fit.
pub open spec fn size_bytes(t: LlvmTypeView, pointer_bytes: u64) -> Option<nat>
    decreases t,
{
    match t {
        LlvmTypeView::Int { bits } => Some(((bits + 7) / 8) as nat),
        LlvmTypeView::Half => Some(2),
        LlvmTypeView::Float => Some(4),
        LlvmTypeView::Double => Some(8),
        LlvmTypeView::Fp128 => Some(16),
        LlvmTypeView::Ptr => Some(pointer_bytes as nat),
        LlvmTypeView::Array { elem, len } => match size_bytes(*elem, pointer_bytes) {
            None => None,
            Some(size) => if size * len <= u64::MAX {
                Some((size * len) as nat)
            } else {
                None
            },
        },
        LlvmTypeView::Vector { .. } => None,
        LlvmTypeView::Struct { fields } => match fields_end(fields, pointer_bytes) {
            None => None,
            Some((end, align)) => align_up(end, align),
        },
    }
}

/// Where the last of some fields ends, each at the next offset that it is
/// aligned to, and the largest alignment.
pub open spec fn fields_end(fields: Seq<LlvmTypeView>, pointer_bytes: u64) -> Option<(nat, nat)>
    decreases fields,
{
    if fields.len() == 0 {
        Some((0, 1))
    } else {
        match fields_end(fields.drop_last(), pointer_bytes) {
            None => None,
            Some((end, max)) => match size_bytes(fields.last(), pointer_bytes) {
                None => None,
                Some(size) => {
                    let align = field_align(size, pointer_bytes as nat);
                    match align_up(end, align) {
                        None => None,
                        Some(start) => if start + size <= u64::MAX {
                            Some(
                                (
                                    (start + size) as nat,
                                    if align > max {
                                        align
                                    } else {
                                        max
                                    },
                                ),
                            )
                        } else {
                            None
                        },
                    }
                },
            },
        }
    }
}

/// Rounding up to a power of two gives the next multiple of it.
pub proof fn lemma_align_up(n: nat, align: nat)
    requires
        align == 1 || align == 2 || align == 4 || align == 8 || align == 16,
        n + align - 1 <= u64::MAX,
    ensures
        align_up(n, align) matches Some(m) && m % align == 0 && n <= m < n + align,
{
    let k = (n + align - 1) as u64;
    assert(k & !1u64 == k - k % 2) by (bit_vector);
    assert(k & !3u64 == k - k % 4) by (bit_vector);
    assert(k & !7u64 == k - k % 8) by (bit_vector);
    assert(k & !15u64 == k - k % 16) by (bit_vector);
    if align > 1 {
        let a = align as u64;
        assert(k & !((a - 1) as u64) == k - k % a);
        assert((k - k % a) % (a as int) == 0) by (nonlinear_arith)
            requires
                a > 0,
        ;
    }
}

fn round_up(n: u64, align: u64) -> (r: Option<u64>)
    ensures
        (match r {
            Some(m) => Some(m as nat),
            None => None,
        }) == align_up(n as nat, align as nat),
{
    if align <= 1 {
        Some(n)
    } else if n > 18446744073709551615 - (align - 1) {
        None
    } else {
        Some((n + (align - 1)) & !(align - 1))
    }
}

/// The size of a value in bytes. A field aligns by its own size, up to that
/// of a pointer.
pub fn static_size_bytes(t: &LlvmType, pointer_bytes: u64) -> (r: Option<u64>)
    ensures
        (match r {
            Some(n) => Some(n as nat),
            None => None,
        }) == size_bytes(t@, pointer_bytes),
    decreases t,
{
    match t {
        LlvmType::Int { bits } => Some((*bits as u64 + 7) / 8),
        LlvmType::Half => Some(2),
        LlvmType::Float => Some(4),
        LlvmType::Double => Some(8),
        LlvmType::Fp128 => Some(16),
        LlvmType::Ptr => Some(pointer_bytes),
        LlvmType::Array { elem, len } => match static_size_bytes(elem, pointer_bytes) {
            None => None,
            Some(size) => {
                assert(size * *len <= u64::MAX * u32::MAX) by (nonlinear_arith)
                    requires
                        0 <= size <= u64::MAX,
                        0 <= *len <= u32::MAX,
                ;
                let wide: u128 = size as u128 * *len as u128;
                if wide <= 18446744073709551615 {
                    Some(wide as u64)
                } else {
                    None
                }
            },
        },
        LlvmType::Vector { .. } => None,
        LlvmType::Struct { fields } => match measure_fields(fields, pointer_bytes) {
            None => None,
            Some((end, align)) => round_up(end, align),
        },
    }
}

proof fn lemma_no_end(fields: Seq<LlvmTypeView>, n: int, pointer_bytes: u64)
    requires
        0 <= n <= fields.len(),
        fields_end(fields.take(n), pointer_bytes) is None,
    ensures
        fields_end(fields, pointer_bytes) is None,
    decreases fields.len() - n,
{
    if n < fields.len() {
        assert(fields.take(n + 1).drop_last() =~= fields.take(n));
        lemma_no_end(fields, n + 1, pointer_bytes);
    } else {
        assert(fields.take(n) =~= fields);
    }
}

fn measure_fields(fields: &Vec<LlvmType>, pointer_bytes: u64) -> (r: Option<(u64, u64)>)
    ensures
        (match r {
            Some((end, align)) => Some((end as nat, align as nat)),
            None => None,
        }) == fields_end(type_views(fields@), pointer_bytes),
    decreases fields,
{
    let ghost all = type_views(fields@);
    let mut end: u64 = 0;
    let mut max: u64 = 1;
    let mut i: usize = 0;
    assert(all.take(0) =~= Seq::empty());
    while i < fields.len()
        invariant
            i <= fields@.len(),
            all == type_views(fields@),
            fields_end(all.take(i as int), pointer_bytes) == Some((end as nat, max as nat)),
        decreases fields@.len() - i,
    {
        proof {
            assert(all.take(i + 1).drop_last() =~= all.take(i as int));
            assert(all.take(i + 1).last() == fields@[i as int].model());
            if fields_end(all.take(i + 1), pointer_bytes) is None {
                lemma_no_end(all, i + 1, pointer_bytes);
            }
        }
        let size: u64 = match static_size_bytes(&fields[i], pointer_bytes) {
            None => {
                return None;
            },
            Some(n) => n,
        };
        let at_least: u64 = if size > 1 {
            size
        } else {
            1
        };
        let align: u64 = if at_least < pointer_bytes {
            at_least
        } else {
            pointer_bytes
        };
        let start: u64 = match round_up(end, align) {
            None => {
                return None;
            },
            Some(n) => n,
        };
        if start > 18446744073709551615 - size {
            return None;
        }
        end = start + size;
        if align > max {
            max = align;
        }
        i += 1;
    }
    assert(all.take(fields@.len() as int) =~= all);
    Some((end, max))
}

} // verus!
