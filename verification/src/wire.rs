//! The binary form of values: little-endian integers of fixed width, text and
//! lists behind their length, a choice behind its number.
//!
//! The integers and the text are bincode's; what a value is made of, and in
//! which order, is said here.
use crate::text::{append_decimal, digits_of, owned, views};
use vstd::prelude::*;
use vstd::utf8::{decode_utf8, encode_utf8, valid_utf8};

verus! {

broadcast use {vstd::seq::group_seq_axioms, vstd::std_specs::vec::group_vec_axioms};

/// The `k` lowest bytes of `n`, the lowest first.
pub open spec fn le_bytes(n: nat, k: nat) -> Seq<u8>
    decreases k,
{
    if k == 0 {
        Seq::empty()
    } else {
        seq![(n % 256) as u8] + le_bytes(n / 256, (k - 1) as nat)
    }
}

/// The number that some bytes write, the lowest byte first.
pub open spec fn le_value(s: Seq<u8>) -> nat
    decreases s.len(),
{
    if s.len() == 0 {
        0
    } else {
        s[0] as nat + 256 * le_value(s.drop_first())
    }
}

/// The powers of 256.
pub open spec fn pow256(k: nat) -> nat
    decreases k,
{
    if k == 0 {
        1
    } else {
        256 * pow256((k - 1) as nat)
    }
}

/// `k` bytes write a number below 256 to the power of `k`.
pub proof fn lemma_le_value_bound(s: Seq<u8>)
    ensures
        le_value(s) < pow256(s.len()),
    decreases s.len(),
{
    if s.len() > 0 {
        lemma_le_value_bound(s.drop_first());
    }
}

/// The bytes of a number that fits write that number.
pub proof fn lemma_le_round_trip(n: nat, k: nat)
    requires
        n < pow256(k),
    ensures
        le_bytes(n, k).len() == k,
        le_value(le_bytes(n, k)) == n,
    decreases k,
{
    if k > 0 {
        lemma_le_round_trip(n / 256, (k - 1) as nat);
        assert(le_bytes(n, k).drop_first() =~= le_bytes(n / 256, (k - 1) as nat));
    }
}

/// There are as many bytes as were asked for.
pub proof fn lemma_le_len(n: nat, k: nat)
    ensures
        le_bytes(n, k).len() == k,
    decreases k,
{
    if k > 0 {
        lemma_le_len(n / 256, (k - 1) as nat);
    }
}

/// Some bytes are those of the number that they write.
pub proof fn lemma_le_bytes_of_value(s: Seq<u8>)
    ensures
        le_bytes(le_value(s), s.len()) == s,
    decreases s.len(),
{
    if s.len() > 0 {
        let rest = s.drop_first();
        lemma_le_bytes_of_value(rest);
        let v = le_value(s);
        assert(v % 256 == s[0] as nat && v / 256 == le_value(rest)) by (nonlinear_arith)
            requires
                v == s[0] as nat + 256 * le_value(rest),
                (s[0] as nat) < 256,
        ;
        assert(le_bytes(v, s.len()) =~= seq![s[0]] + rest);
        assert(s =~= seq![s[0]] + rest);
    } else {
        assert(le_bytes(0, 0) =~= s);
    }
}

/// The bounds of the integer widths.
pub proof fn lemma_pow256_values()
    ensures
        pow256(1) == 0x100,
        pow256(4) == 0x1_0000_0000,
        pow256(8) == 0x1_0000_0000_0000_0000,
{
    reveal_with_fuel(pow256, 9);
}

/// The number by which a signed integer is written: itself, or, if it is
/// negative, what it is short of 2 to the power of 64.
pub open spec fn twos_complement(n: i64) -> nat {
    if n < 0 {
        (0x1_0000_0000_0000_0000 + n) as nat
    } else {
        n as nat
    }
}

/// The signed integer that a number writes.
pub open spec fn signed_value(n: nat) -> i64 {
    if n < 0x8000_0000_0000_0000 {
        n as i64
    } else {
        (n - 0x1_0000_0000_0000_0000) as i64
    }
}

/// `bincode::serde::encode_to_vec` on a `u8`, with fixed-width integers in
/// little-endian order: the byte itself. Writing to a `Vec` does not fail.
#[verifier::external_body]
fn bincode_u8(n: u8) -> (r: Vec<u8>)
    ensures
        r@ == le_bytes(n as nat, 1),
{
    let config = bincode::config::standard().with_little_endian().with_fixed_int_encoding();
    bincode::serde::encode_to_vec(n, config).unwrap()
}

/// `bincode::serde::encode_to_vec` on a `u32`, with fixed-width integers in
/// little-endian order: its four bytes. Writing to a `Vec` does not fail.
#[verifier::external_body]
fn bincode_u32(n: u32) -> (r: Vec<u8>)
    ensures
        r@ == le_bytes(n as nat, 4),
{
    let config = bincode::config::standard().with_little_endian().with_fixed_int_encoding();
    bincode::serde::encode_to_vec(n, config).unwrap()
}

/// `bincode::serde::encode_to_vec` on a `u64`, with fixed-width integers in
/// little-endian order: its eight bytes. Writing to a `Vec` does not fail.
#[verifier::external_body]
fn bincode_u64(n: u64) -> (r: Vec<u8>)
    ensures
        r@ == le_bytes(n as nat, 8),
{
    let config = bincode::config::standard().with_little_endian().with_fixed_int_encoding();
    bincode::serde::encode_to_vec(n, config).unwrap()
}

/// `bincode::serde::encode_to_vec` on an `i64`, with fixed-width integers in
/// little-endian order: the eight bytes of its two's complement. Writing to a
/// `Vec` does not fail.
#[verifier::external_body]
fn bincode_i64(n: i64) -> (r: Vec<u8>)
    ensures
        r@ == le_bytes(twos_complement(n), 8),
{
    let config = bincode::config::standard().with_little_endian().with_fixed_int_encoding();
    bincode::serde::encode_to_vec(n, config).unwrap()
}

/// `bincode::serde::encode_to_vec` on a `str`, with fixed-width integers in
/// little-endian order: the number of its bytes as a `u64`, then its bytes.
/// Writing to a `Vec` does not fail.
#[verifier::external_body]
fn bincode_str(s: &str) -> (r: Vec<u8>)
    ensures
        r@ == le_bytes(encode_utf8(s@).len(), 8) + encode_utf8(s@),
{
    let config = bincode::config::standard().with_little_endian().with_fixed_int_encoding();
    bincode::serde::encode_to_vec(s, config).unwrap()
}

/// What is said where `additional` bytes are missing.
pub open spec fn end_text(additional: nat) -> Seq<char> {
    "UnexpectedEnd { additional: "@ + digits_of(additional) + " }"@
}

/// What is said of a byte that is no truth value.
pub open spec fn bool_text(found: u8) -> Seq<char> {
    "InvalidBooleanValue("@ + digits_of(found as nat) + ")"@
}

/// What is said of a byte that does not tell whether a value is there.
pub open spec fn option_text(found: u8) -> Seq<char> {
    "UnexpectedVariant { type_name: \"Option<T>\", allowed: Range { min: 0, max: 1 }, found: "@
        + digits_of(found as nat) + " }"@
}

/// What is said of a number that is not one of `count` choices.
pub open spec fn variant_text(found: nat, count: nat) -> Seq<char> {
    "OtherString(\"invalid value: integer `"@ + digits_of(found)
        + "`, expected variant index 0 <= i < "@ + digits_of(count) + "\")"@
}

fn end_error(additional: u64) -> (r: String)
    ensures
        r@ == end_text(additional as nat),
{
    let mut s = owned("UnexpectedEnd { additional: ");
    append_decimal(&mut s, additional);
    s.append(" }");
    s
}

fn bool_error(found: u8) -> (r: String)
    ensures
        r@ == bool_text(found),
{
    let mut s = owned("InvalidBooleanValue(");
    append_decimal(&mut s, found as u64);
    s.append(")");
    s
}

/// What is said of a byte that does not tell whether a value is there.
pub fn option_error(found: u8) -> (r: String)
    ensures
        r@ == option_text(found),
{
    let mut s = owned(
        "UnexpectedVariant { type_name: \"Option<T>\", allowed: Range { min: 0, max: 1 }, found: ",
    );
    append_decimal(&mut s, found as u64);
    s.append(" }");
    s
}

/// What is said of a number that is not one of `count` choices.
pub fn variant_error(found: u32, count: u32) -> (r: String)
    ensures
        r@ == variant_text(found as nat, count as nat),
{
    let mut s = owned("OtherString(\"invalid value: integer `");
    append_decimal(&mut s, found as u64);
    s.append("`, expected variant index 0 <= i < ");
    append_decimal(&mut s, count as u64);
    s.append("\")");
    s
}

/// What bincode says of some bytes that are no text.
pub uninterp spec fn no_text(b: Seq<u8>) -> Seq<char>;

/// `bincode::serde::decode_from_slice` for a `u8`, with fixed-width integers
/// in little-endian order: the first byte. Where there
/// are not as many, the text of its error says how many are missing.
#[verifier::external_body]
fn unbincode_u8(b: &[u8]) -> (r: Result<u8, String>)
    ensures
        match r {
            Ok(n) => b@.len() >= 1 && n == b@[0],
            Err(e) => b@.len() < 1 && e@ == end_text((1 - b@.len()) as nat),
        },
{
    let config = bincode::config::standard().with_little_endian().with_fixed_int_encoding();
    match bincode::serde::decode_from_slice::<u8, _>(b, config) {
        Ok((n, _)) => Ok(n),
        Err(e) => Err(e.to_string()),
    }
}

/// `bincode::serde::decode_from_slice` for a `u32`, with fixed-width integers
/// in little-endian order: the number that the first four bytes write. Where there
/// are not as many, the text of its error says how many are missing.
#[verifier::external_body]
fn unbincode_u32(b: &[u8]) -> (r: Result<u32, String>)
    ensures
        match r {
            Ok(n) => b@.len() >= 4 && n == le_value(b@.take(4)) as u32,
            Err(e) => b@.len() < 4 && e@ == end_text((4 - b@.len()) as nat),
        },
{
    let config = bincode::config::standard().with_little_endian().with_fixed_int_encoding();
    match bincode::serde::decode_from_slice::<u32, _>(b, config) {
        Ok((n, _)) => Ok(n),
        Err(e) => Err(e.to_string()),
    }
}

/// `bincode::serde::decode_from_slice` for a `u64`, with fixed-width integers
/// in little-endian order: the number that the first eight bytes write. Where there
/// are not as many, the text of its error says how many are missing.
#[verifier::external_body]
fn unbincode_u64(b: &[u8]) -> (r: Result<u64, String>)
    ensures
        match r {
            Ok(n) => b@.len() >= 8 && n == le_value(b@.take(8)) as u64,
            Err(e) => b@.len() < 8 && e@ == end_text((8 - b@.len()) as nat),
        },
{
    let config = bincode::config::standard().with_little_endian().with_fixed_int_encoding();
    match bincode::serde::decode_from_slice::<u64, _>(b, config) {
        Ok((n, _)) => Ok(n),
        Err(e) => Err(e.to_string()),
    }
}

/// `bincode::serde::decode_from_slice` for an `i64`, with fixed-width integers
/// in little-endian order: the signed integer that the first eight bytes
/// write. Where there
/// are not as many, the text of its error says how many are missing.
#[verifier::external_body]
fn unbincode_i64(b: &[u8]) -> (r: Result<i64, String>)
    ensures
        match r {
            Ok(n) => b@.len() >= 8 && n == signed_value(le_value(b@.take(8))),
            Err(e) => b@.len() < 8 && e@ == end_text((8 - b@.len()) as nat),
        },
{
    let config = bincode::config::standard().with_little_endian().with_fixed_int_encoding();
    match bincode::serde::decode_from_slice::<i64, _>(b, config) {
        Ok((n, _)) => Ok(n),
        Err(e) => Err(e.to_string()),
    }
}

/// `bincode::serde::decode_from_slice` for a `String`, with fixed-width
/// integers in little-endian order: the text whose bytes stand behind their
/// number, if they are UTF-8; else what the error says, which depends on these
/// bytes alone. A number of bytes that are not all there is left out: bincode
/// makes room for them before it looks.
#[verifier::external_body]
fn unbincode_str(b: &[u8]) -> (r: Result<String, String>)
    requires
        b@.len() >= 8,
        le_value(b@.take(8)) <= b@.len() - 8,
    ensures
        match r {
            Ok(s) => encode_utf8(s@) == b@.subrange(8, (8 + le_value(b@.take(8))) as int),
            Err(e) => !valid_utf8(b@.subrange(8, (8 + le_value(b@.take(8))) as int)) && e@
                == no_text(b@.subrange(8, (8 + le_value(b@.take(8))) as int)),
        },
{
    let config = bincode::config::standard().with_little_endian().with_fixed_int_encoding();
    match bincode::serde::decode_from_slice::<String, _>(b, config) {
        Ok((s, _)) => Ok(s),
        Err(e) => Err(e.to_string()),
    }
}

/// What is left of some bytes from a position on.
fn rest_of(b: &[u8], pos: usize) -> (r: &[u8])
    requires
        pos <= b@.len(),
    ensures
        r@ == b@.skip(pos as int),
{
    let r = vstd::slice::slice_subrange(b, pos, b.len());
    assert(r@ =~= b@.skip(pos as int));
    r
}

/// Appends some bytes.
pub fn append_bytes(out: &mut Vec<u8>, more: &[u8])
    ensures
        final(out)@ == old(out)@ + more@,
{
    let ghost before = out@;
    let mut i: usize = 0;
    assert(out@ =~= before + more@.take(0));
    while i < more.len()
        invariant
            i <= more@.len(),
            out@ == before + more@.take(i as int),
        decreases more@.len() - i,
    {
        assert(more@.take(i + 1) =~= more@.take(i as int).push(more@[i as int]));
        out.push(more[i]);
        assert(out@ =~= before + more@.take(i + 1));
        i += 1;
    }
    assert(more@.take(more@.len() as int) =~= more@);
}

/// The binary form of a byte.
#[verifier::opaque]
pub open spec fn enc_u8(n: u8) -> Seq<u8> {
    le_bytes(n as nat, 1)
}

/// The binary form of a number of 32 bits.
#[verifier::opaque]
pub open spec fn enc_u32(n: u32) -> Seq<u8> {
    le_bytes(n as nat, 4)
}

/// The binary form of a number of 64 bits.
#[verifier::opaque]
pub open spec fn enc_u64(n: nat) -> Seq<u8> {
    le_bytes(n, 8)
}

/// The binary form of a signed number of 64 bits.
#[verifier::opaque]
pub open spec fn enc_i64(n: i64) -> Seq<u8> {
    le_bytes(twos_complement(n), 8)
}

/// The binary form of a truth value.
#[verifier::opaque]
pub open spec fn enc_bool(b: bool) -> Seq<u8> {
    enc_u8(if b {
        1
    } else {
        0
    })
}

/// The binary form of a text.
#[verifier::opaque]
pub open spec fn enc_str(s: Seq<char>) -> Seq<u8> {
    enc_u64(encode_utf8(s).len()) + encode_utf8(s)
}

/// The byte that some bytes start with, and the rest.
#[verifier::opaque]
pub open spec fn dec_u8(b: Seq<u8>) -> Result<(u8, Seq<u8>), Seq<char>> {
    if b.len() < 1 {
        Err(end_text((1 - b.len()) as nat))
    } else {
        Ok((b[0], b.skip(1)))
    }
}

/// The number of 32 bits that some bytes start with, and the rest.
#[verifier::opaque]
pub open spec fn dec_u32(b: Seq<u8>) -> Result<(u32, Seq<u8>), Seq<char>> {
    if b.len() < 4 {
        Err(end_text((4 - b.len()) as nat))
    } else {
        Ok((le_value(b.take(4)) as u32, b.skip(4)))
    }
}

/// The number of 64 bits that some bytes start with, and the rest.
#[verifier::opaque]
pub open spec fn dec_u64(b: Seq<u8>) -> Result<(u64, Seq<u8>), Seq<char>> {
    if b.len() < 8 {
        Err(end_text((8 - b.len()) as nat))
    } else {
        Ok((le_value(b.take(8)) as u64, b.skip(8)))
    }
}

/// The signed number of 64 bits that some bytes start with, and the rest.
#[verifier::opaque]
pub open spec fn dec_i64(b: Seq<u8>) -> Result<(i64, Seq<u8>), Seq<char>> {
    if b.len() < 8 {
        Err(end_text((8 - b.len()) as nat))
    } else {
        Ok((signed_value(le_value(b.take(8))), b.skip(8)))
    }
}

/// The truth value that some bytes start with, and the rest.
#[verifier::opaque]
pub open spec fn dec_bool(b: Seq<u8>) -> Result<(bool, Seq<u8>), Seq<char>> {
    match dec_u8(b) {
        Ok((n, rest)) => if n == 0 {
            Ok((false, rest))
        } else if n == 1 {
            Ok((true, rest))
        } else {
            Err(bool_text(n))
        },
        Err(e) => Err(e),
    }
}

/// The text that some bytes start with, and the rest.
#[verifier::opaque]
pub open spec fn dec_str(b: Seq<u8>) -> Result<(Seq<char>, Seq<u8>), Seq<char>> {
    match dec_u64(b) {
        Ok((n, rest)) => if n > rest.len() {
            Err(end_text((n - rest.len()) as nat))
        } else if !valid_utf8(rest.take(n as int)) {
            Err(no_text(rest.take(n as int)))
        } else {
            Ok((decode_utf8(rest.take(n as int)), rest.skip(n as int)))
        },
        Err(e) => Err(e),
    }
}

/// A byte is read back.
pub proof fn lemma_u8(n: u8, rest: Seq<u8>)
    ensures
        dec_u8(enc_u8(n) + rest) == Ok::<_, Seq<char>>((n, rest)),
        enc_u8(n).len() == 1,
{
    reveal(enc_u8);
    reveal(dec_u8);
    lemma_pow256_values();
    reveal_with_fuel(le_bytes, 2);
    assert((enc_u8(n) + rest).skip(1) =~= rest);
}

/// A number of 32 bits is read back.
pub proof fn lemma_u32(n: u32, rest: Seq<u8>)
    ensures
        dec_u32(enc_u32(n) + rest) == Ok::<_, Seq<char>>((n, rest)),
        enc_u32(n).len() == 4,
{
    reveal(enc_u32);
    reveal(dec_u32);
    lemma_pow256_values();
    lemma_le_round_trip(n as nat, 4);
    assert((enc_u32(n) + rest).skip(4) =~= rest);
    assert((enc_u32(n) + rest).take(4) =~= enc_u32(n));
}

/// A number of 64 bits is read back.
pub proof fn lemma_u64(n: nat, rest: Seq<u8>)
    requires
        n <= u64::MAX,
    ensures
        dec_u64(enc_u64(n) + rest) == Ok::<_, Seq<char>>((n as u64, rest)),
        enc_u64(n).len() == 8,
{
    reveal(enc_u64);
    reveal(dec_u64);
    lemma_pow256_values();
    lemma_le_round_trip(n, 8);
    assert((enc_u64(n) + rest).skip(8) =~= rest);
    assert((enc_u64(n) + rest).take(8) =~= enc_u64(n));
}

/// A signed number of 64 bits is read back.
pub proof fn lemma_i64(n: i64, rest: Seq<u8>)
    ensures
        dec_i64(enc_i64(n) + rest) == Ok::<_, Seq<char>>((n, rest)),
        enc_i64(n).len() == 8,
{
    reveal(enc_i64);
    reveal(dec_i64);
    lemma_pow256_values();
    lemma_le_round_trip(twos_complement(n), 8);
    assert((enc_i64(n) + rest).skip(8) =~= rest);
    assert((enc_i64(n) + rest).take(8) =~= enc_i64(n));
}

/// A truth value is read back.
pub proof fn lemma_bool(b: bool, rest: Seq<u8>)
    ensures
        dec_bool(enc_bool(b) + rest) == Ok::<_, Seq<char>>((b, rest)),
        enc_bool(b).len() == 1,
{
    reveal(enc_bool);
    reveal(dec_bool);
    lemma_u8(
        if b {
            1
        } else {
            0
        },
        rest,
    );
}

/// A text is read back.
pub proof fn lemma_str(s: Seq<char>, rest: Seq<u8>)
    requires
        encode_utf8(s).len() <= u64::MAX,
    ensures
        dec_str(enc_str(s) + rest) == Ok::<_, Seq<char>>((s, rest)),
        enc_str(s).len() >= 8,
{
    reveal(enc_str);
    reveal(dec_str);
    let bytes = encode_utf8(s);
    lemma_u64(bytes.len(), bytes + rest);
    assert(enc_str(s) + rest =~= enc_u64(bytes.len()) + (bytes + rest));
    assert((bytes + rest).take(bytes.len() as int) =~= bytes);
    assert((bytes + rest).skip(bytes.len() as int) =~= rest);
    vstd::utf8::encode_utf8_valid_utf8(s);
    vstd::utf8::encode_utf8_decode_utf8(s);
}

/// Appends a byte.
pub fn put_u8(out: &mut Vec<u8>, n: u8)
    ensures
        final(out)@ == old(out)@ + enc_u8(n),
{
    proof {
        reveal(enc_u8);
    }
    let b = bincode_u8(n);
    append_bytes(out, b.as_slice());
}

/// Appends a number of 32 bits.
pub fn put_u32(out: &mut Vec<u8>, n: u32)
    ensures
        final(out)@ == old(out)@ + enc_u32(n),
{
    proof {
        reveal(enc_u32);
    }
    let b = bincode_u32(n);
    append_bytes(out, b.as_slice());
}

/// Appends a number of 64 bits.
pub fn put_u64(out: &mut Vec<u8>, n: u64)
    ensures
        final(out)@ == old(out)@ + enc_u64(n as nat),
{
    proof {
        reveal(enc_u64);
    }
    let b = bincode_u64(n);
    append_bytes(out, b.as_slice());
}

/// Appends a signed number of 64 bits.
pub fn put_i64(out: &mut Vec<u8>, n: i64)
    ensures
        final(out)@ == old(out)@ + enc_i64(n),
{
    proof {
        reveal(enc_i64);
    }
    let b = bincode_i64(n);
    append_bytes(out, b.as_slice());
}

/// Appends a truth value.
pub fn put_bool(out: &mut Vec<u8>, b: bool)
    ensures
        final(out)@ == old(out)@ + enc_bool(b),
{
    proof {
        reveal(enc_bool);
    }
    put_u8(
        out,
        if b {
            1
        } else {
            0
        },
    );
}

/// Appends a text.
pub fn put_str(out: &mut Vec<u8>, s: &str)
    ensures
        final(out)@ == old(out)@ + enc_str(s@),
        encode_utf8(s@).len() <= u64::MAX,
{
    proof {
        reveal(enc_str);
        reveal(enc_u64);
    }
    let n = s.as_bytes().len();
    let b = bincode_str(s);
    append_bytes(out, b.as_slice());
}

/// Whether `got`, a value and the position behind it, is what stands at
/// position `pos` of `b`: what `dec` says of the bytes from there on.
pub open spec fn read_at<V>(
    b: Seq<u8>,
    pos: int,
    dec: Result<(V, Seq<u8>), Seq<char>>,
    got: Result<(V, int), Seq<char>>,
) -> bool {
    match (dec, got) {
        (Ok((v, rest)), Ok((w, p))) => v == w && pos < p <= b.len() && rest == b.skip(p),
        (Err(e), Err(f)) => e == f,
        _ => false,
    }
}

/// Reads a byte at a position.
pub fn get_u8(b: &[u8], pos: usize) -> (r: Result<(u8, usize), String>)
    requires
        pos <= b@.len(),
    ensures
        read_at(
            b@,
            pos as int,
            dec_u8(b@.skip(pos as int)),
            match r {
                Ok((n, p)) => Ok((n, p as int)),
                Err(e) => Err(e@),
            },
        ),
{
    proof {
        reveal(dec_u8);
    }
    let total: usize = b.len();
    match unbincode_u8(rest_of(b, pos)) {
        Ok(n) => {
            assert(b@.skip(pos as int).skip(1) =~= b@.skip(pos + 1));
            Ok((n, pos + 1))
        },
        Err(e) => Err(e),
    }
}

/// Reads a number of 32 bits at a position.
pub fn get_u32(b: &[u8], pos: usize) -> (r: Result<(u32, usize), String>)
    requires
        pos <= b@.len(),
    ensures
        read_at(
            b@,
            pos as int,
            dec_u32(b@.skip(pos as int)),
            match r {
                Ok((n, p)) => Ok((n, p as int)),
                Err(e) => Err(e@),
            },
        ),
{
    proof {
        reveal(dec_u32);
    }
    let total: usize = b.len();
    match unbincode_u32(rest_of(b, pos)) {
        Ok(n) => {
            assert(b@.skip(pos as int).skip(4) =~= b@.skip(pos + 4));
            Ok((n, pos + 4))
        },
        Err(e) => Err(e),
    }
}

/// Reads a number of 64 bits at a position.
pub fn get_u64(b: &[u8], pos: usize) -> (r: Result<(u64, usize), String>)
    requires
        pos <= b@.len(),
    ensures
        read_at(
            b@,
            pos as int,
            dec_u64(b@.skip(pos as int)),
            match r {
                Ok((n, p)) => Ok((n, p as int)),
                Err(e) => Err(e@),
            },
        ),
{
    proof {
        reveal(dec_u64);
    }
    let total: usize = b.len();
    match unbincode_u64(rest_of(b, pos)) {
        Ok(n) => {
            assert(b@.skip(pos as int).skip(8) =~= b@.skip(pos + 8));
            Ok((n, pos + 8))
        },
        Err(e) => Err(e),
    }
}

/// Reads a signed number of 64 bits at a position.
pub fn get_i64(b: &[u8], pos: usize) -> (r: Result<(i64, usize), String>)
    requires
        pos <= b@.len(),
    ensures
        read_at(
            b@,
            pos as int,
            dec_i64(b@.skip(pos as int)),
            match r {
                Ok((n, p)) => Ok((n, p as int)),
                Err(e) => Err(e@),
            },
        ),
{
    proof {
        reveal(dec_i64);
    }
    let total: usize = b.len();
    match unbincode_i64(rest_of(b, pos)) {
        Ok(n) => {
            assert(b@.skip(pos as int).skip(8) =~= b@.skip(pos + 8));
            Ok((n, pos + 8))
        },
        Err(e) => Err(e),
    }
}

/// Reads a truth value at a position.
pub fn get_bool(b: &[u8], pos: usize) -> (r: Result<(bool, usize), String>)
    requires
        pos <= b@.len(),
    ensures
        read_at(
            b@,
            pos as int,
            dec_bool(b@.skip(pos as int)),
            match r {
                Ok((n, p)) => Ok((n, p as int)),
                Err(e) => Err(e@),
            },
        ),
{
    proof {
        reveal(dec_bool);
    }
    match get_u8(b, pos) {
        Ok((n, p)) => if n == 0 {
            Ok((false, p))
        } else if n == 1 {
            Ok((true, p))
        } else {
            Err(bool_error(n))
        },
        Err(e) => Err(e),
    }
}

/// Reads a text at a position.
pub fn get_str(b: &[u8], pos: usize) -> (r: Result<(String, usize), String>)
    requires
        pos <= b@.len(),
    ensures
        read_at(
            b@,
            pos as int,
            dec_str(b@.skip(pos as int)),
            match r {
                Ok((s, p)) => Ok((s@, p as int)),
                Err(e) => Err(e@),
            },
        ),
{
    proof {
        reveal(dec_str);
        reveal(dec_u64);
    }
    let ghost here = b@.skip(pos as int);
    let (n, p) = match get_u64(b, pos) {
        Ok(x) => x,
        Err(e) => {
            return Err(e);
        },
    };
    let left: u64 = (b.len() - p) as u64;
    if n > left {
        return Err(end_error(n - left));
    }
    proof {
        lemma_pow256_values();
        lemma_le_value_bound(here.take(8));
        assert(here.subrange(8, 8 + n) =~= here.skip(8).take(n as int));
    }
    match unbincode_str(rest_of(b, pos)) {
        Ok(s) => {
            proof {
                vstd::utf8::encode_utf8_decode_utf8(s@);
                vstd::utf8::encode_utf8_valid_utf8(s@);
                assert(b@.skip(p as int).skip(n as int) =~= b@.skip(p + n));
            }
            Ok((s, p + n as usize))
        },
        Err(e) => Err(e),
    }
}

/// The value and the position of something that was read.
pub open spec fn viewed<T: View>(r: Result<(T, usize), String>) -> Result<
    (T::V, int),
    Seq<char>,
> {
    match r {
        Ok((t, p)) => Ok((t@, p as int)),
        Err(e) => Err(e@),
    }
}

/// Values with a binary form.
pub trait Wire: View + Sized {
    /// The binary form of a value.
    spec fn enc(v: Self::V) -> Seq<u8>;

    /// The value that some bytes start with, and the rest.
    spec fn dec(b: Seq<u8>) -> Result<(Self::V, Seq<u8>), Seq<char>>;

    /// Whether every length in a value fits in 64 bits.
    spec fn fits(v: Self::V) -> bool;

    /// A value is read back from its binary form.
    proof fn lemma_read_back(v: Self::V, rest: Seq<u8>)
        requires
            Self::fits(v),
        ensures
            Self::dec(Self::enc(v) + rest) == Ok::<_, Seq<char>>((v, rest)),
            Self::enc(v).len() > 0,
    ;

    /// Appends the binary form of this value.
    fn write_to(&self, out: &mut Vec<u8>)
        ensures
            final(out)@ == old(out)@ + Self::enc(self@),
            Self::fits(self@),
    ;

    /// Reads a value at a position.
    fn read_from(b: &[u8], pos: usize) -> (r: Result<(Self, usize), String>)
        requires
            pos <= b@.len(),
        ensures
            read_at(b@, pos as int, Self::dec(b@.skip(pos as int)), viewed(r)),
    ;
}

impl Wire for String {
    open spec fn enc(v: Seq<char>) -> Seq<u8> {
        enc_str(v)
    }

    open spec fn dec(b: Seq<u8>) -> Result<(Seq<char>, Seq<u8>), Seq<char>> {
        dec_str(b)
    }

    open spec fn fits(v: Seq<char>) -> bool {
        encode_utf8(v).len() <= u64::MAX
    }

    proof fn lemma_read_back(v: Seq<char>, rest: Seq<u8>) {
        lemma_str(v, rest);
    }

    fn write_to(&self, out: &mut Vec<u8>) {
        put_str(out, self);
    }

    fn read_from(b: &[u8], pos: usize) -> (r: Result<(Self, usize), String>) {
        get_str(b, pos)
    }
}

impl Wire for bool {
    open spec fn enc(v: bool) -> Seq<u8> {
        enc_bool(v)
    }

    open spec fn dec(b: Seq<u8>) -> Result<(bool, Seq<u8>), Seq<char>> {
        dec_bool(b)
    }

    open spec fn fits(v: bool) -> bool {
        true
    }

    proof fn lemma_read_back(v: bool, rest: Seq<u8>) {
        lemma_bool(v, rest);
    }

    fn write_to(&self, out: &mut Vec<u8>) {
        put_bool(out, *self);
    }

    fn read_from(b: &[u8], pos: usize) -> (r: Result<(Self, usize), String>) {
        get_bool(b, pos)
    }
}

impl Wire for u8 {
    open spec fn enc(v: u8) -> Seq<u8> {
        enc_u8(v)
    }

    open spec fn dec(b: Seq<u8>) -> Result<(u8, Seq<u8>), Seq<char>> {
        dec_u8(b)
    }

    open spec fn fits(v: u8) -> bool {
        true
    }

    proof fn lemma_read_back(v: u8, rest: Seq<u8>) {
        lemma_u8(v, rest);
    }

    fn write_to(&self, out: &mut Vec<u8>) {
        put_u8(out, *self);
    }

    fn read_from(b: &[u8], pos: usize) -> (r: Result<(Self, usize), String>) {
        get_u8(b, pos)
    }
}

impl Wire for u64 {
    open spec fn enc(v: u64) -> Seq<u8> {
        enc_u64(v as nat)
    }

    open spec fn dec(b: Seq<u8>) -> Result<(u64, Seq<u8>), Seq<char>> {
        dec_u64(b)
    }

    open spec fn fits(v: u64) -> bool {
        true
    }

    proof fn lemma_read_back(v: u64, rest: Seq<u8>) {
        lemma_u64(v as nat, rest);
    }

    fn write_to(&self, out: &mut Vec<u8>) {
        put_u64(out, *self);
    }

    fn read_from(b: &[u8], pos: usize) -> (r: Result<(Self, usize), String>) {
        get_u64(b, pos)
    }
}

impl Wire for (String, String) {
    open spec fn enc(v: (Seq<char>, Seq<char>)) -> Seq<u8> {
        enc_str(v.0) + enc_str(v.1)
    }

    open spec fn dec(b: Seq<u8>) -> Result<((Seq<char>, Seq<char>), Seq<u8>), Seq<char>> {
        match dec_str(b) {
            Ok((x, r)) => match dec_str(r) {
                Ok((y, s)) => Ok(((x, y), s)),
                Err(e) => Err(e),
            },
            Err(e) => Err(e),
        }
    }

    open spec fn fits(v: (Seq<char>, Seq<char>)) -> bool {
        encode_utf8(v.0).len() <= u64::MAX && encode_utf8(v.1).len() <= u64::MAX
    }

    proof fn lemma_read_back(v: (Seq<char>, Seq<char>), rest: Seq<u8>) {
        lemma_str(v.1, rest);
        lemma_str(v.0, enc_str(v.1) + rest);
        assert(Self::enc(v) + rest =~= enc_str(v.0) + (enc_str(v.1) + rest));
    }

    fn write_to(&self, out: &mut Vec<u8>) {
        let ghost before = out@;
        put_str(out, &self.0);
        put_str(out, &self.1);
        assert(out@ =~= before + Self::enc(self@));
    }

    fn read_from(b: &[u8], pos: usize) -> (r: Result<(Self, usize), String>) {
        match get_str(b, pos) {
            Ok((x, p)) => match get_str(b, p) {
                Ok((y, q)) => Ok(((x, y), q)),
                Err(e) => Err(e),
            },
            Err(e) => Err(e),
        }
    }
}

/// The binary forms of some values, one behind the other.
pub open spec fn enc_items<T: Wire>(s: Seq<T::V>) -> Seq<u8>
    decreases s.len(),
{
    if s.len() == 0 {
        Seq::empty()
    } else {
        T::enc(s[0]) + enc_items::<T>(s.drop_first())
    }
}

/// The binary form of a list: its length, then its elements.
#[verifier::opaque]
pub open spec fn enc_list<T: Wire>(s: Seq<T::V>) -> Seq<u8> {
    enc_u64(s.len()) + enc_items::<T>(s)
}

/// The `n` values that some bytes start with, and the rest.
pub open spec fn dec_items<T: Wire>(n: nat, b: Seq<u8>) -> Result<(Seq<T::V>, Seq<u8>), Seq<char>>
    decreases n,
{
    if n == 0 {
        Ok((Seq::empty(), b))
    } else {
        match T::dec(b) {
            Err(e) => Err(e),
            Ok((first, r)) => match dec_items::<T>((n - 1) as nat, r) {
                Err(e) => Err(e),
                Ok((others, s)) => Ok((seq![first] + others, s)),
            },
        }
    }
}

/// The list that some bytes start with, and the rest.
#[verifier::opaque]
pub open spec fn dec_list<T: Wire>(b: Seq<u8>) -> Result<(Seq<T::V>, Seq<u8>), Seq<char>> {
    match dec_u64(b) {
        Err(e) => Err(e),
        Ok((n, r)) => dec_items::<T>(n as nat, r),
    }
}

/// Whether every length in a list fits in 64 bits.
#[verifier::opaque]
pub open spec fn list_fits<T: Wire>(s: Seq<T::V>) -> bool {
    s.len() <= u64::MAX && forall|i: int| 0 <= i < s.len() ==> T::fits(#[trigger] s[i])
}

/// Values are read back from their binary forms.
pub proof fn lemma_items<T: Wire>(s: Seq<T::V>, rest: Seq<u8>)
    requires
        forall|i: int| 0 <= i < s.len() ==> T::fits(#[trigger] s[i]),
    ensures
        dec_items::<T>(s.len(), enc_items::<T>(s) + rest) == Ok::<_, Seq<char>>((s, rest)),
    decreases s.len(),
{
    if s.len() == 0 {
        assert(enc_items::<T>(s) + rest =~= rest);
        assert(s =~= Seq::empty());
    } else {
        let others = s.drop_first();
        assert forall|i: int| 0 <= i < others.len() implies T::fits(#[trigger] others[i]) by {
            assert(others[i] == s[i + 1]);
        }
        lemma_items::<T>(others, rest);
        assert(T::fits(s[0]));
        T::lemma_read_back(s[0], enc_items::<T>(others) + rest);
        assert(enc_items::<T>(s) + rest =~= T::enc(s[0]) + (enc_items::<T>(others) + rest));
        assert(s =~= seq![s[0]] + others);
    }
}

/// A list is read back from its binary form.
pub proof fn lemma_list<T: Wire>(s: Seq<T::V>, rest: Seq<u8>)
    requires
        list_fits::<T>(s),
    ensures
        dec_list::<T>(enc_list::<T>(s) + rest) == Ok::<_, Seq<char>>((s, rest)),
        enc_list::<T>(s).len() >= 8,
{
    reveal(enc_list);
    reveal(dec_list);
    reveal(list_fits);
    lemma_items::<T>(s, rest);
    lemma_u64(s.len(), enc_items::<T>(s) + rest);
    assert(enc_list::<T>(s) + rest =~= enc_u64(s.len()) + (enc_items::<T>(s) + rest));
}

/// One more value at the end of some values.
pub proof fn lemma_enc_items_push<T: Wire>(s: Seq<T::V>, v: T::V)
    ensures
        enc_items::<T>(s.push(v)) == enc_items::<T>(s) + T::enc(v),
    decreases s.len(),
{
    if s.len() == 0 {
        assert(s.push(v).drop_first() =~= s);
        assert(enc_items::<T>(s.push(v)) =~= T::enc(v) + enc_items::<T>(s));
        assert(enc_items::<T>(s) + T::enc(v) =~= T::enc(v) + enc_items::<T>(s));
    } else {
        assert(s.push(v).drop_first() =~= s.drop_first().push(v));
        lemma_enc_items_push::<T>(s.drop_first(), v);
        assert(enc_items::<T>(s.push(v)) =~= enc_items::<T>(s) + T::enc(v));
    }
}

/// Appends the binary form of a list.
pub fn put_list<T: Wire>(out: &mut Vec<u8>, v: &Vec<T>)
    ensures
        final(out)@ == old(out)@ + enc_list::<T>(views(v@)),
        list_fits::<T>(views(v@)),
{
    proof {
        reveal(enc_list);
        reveal(list_fits);
    }
    let ghost before = out@;
    let ghost all = views(v@);
    put_u64(out, v.len() as u64);
    let mut i: usize = 0;
    assert(all.take(0) =~= Seq::empty());
    assert(enc_items::<T>(all.take(0)) =~= Seq::empty());
    assert(out@ =~= before + enc_u64(all.len()) + enc_items::<T>(all.take(0)));
    while i < v.len()
        invariant
            i <= v@.len(),
            all == views(v@),
            out@ == before + enc_u64(all.len()) + enc_items::<T>(all.take(i as int)),
            forall|j: int| 0 <= j < i ==> T::fits(#[trigger] all[j]),
        decreases v@.len() - i,
    {
        v[i].write_to(out);
        proof {
            assert(all.take(i + 1) =~= all.take(i as int).push(v@[i as int]@));
            lemma_enc_items_push::<T>(all.take(i as int), v@[i as int]@);
            assert(out@ =~= before + enc_u64(all.len()) + enc_items::<T>(all.take(i + 1)));
        }
        i += 1;
    }
    assert(all.take(v@.len() as int) =~= all);
    assert(out@ =~= before + enc_list::<T>(all));
}

/// The view of a list and the position behind it.
pub open spec fn list_viewed<T: View>(r: Result<(Vec<T>, usize), String>) -> Result<
    (Seq<T::V>, int),
    Seq<char>,
> {
    match r {
        Ok((v, p)) => Ok((views(v@), p as int)),
        Err(e) => Err(e@),
    }
}

/// Reads a list at a position.
pub fn get_list<T: Wire>(b: &[u8], pos: usize) -> (r: Result<(Vec<T>, usize), String>)
    requires
        pos <= b@.len(),
    ensures
        read_at(b@, pos as int, dec_list::<T>(b@.skip(pos as int)), list_viewed(r)),
{
    proof {
        reveal(dec_list);
    }
    let (n, start) = match get_u64(b, pos) {
        Err(e) => {
            return Err(e);
        },
        Ok(x) => x,
    };
    let ghost whole = dec_items::<T>(n as nat, b@.skip(start as int));
    let mut out: Vec<T> = Vec::new();
    let mut p: usize = start;
    let mut i: u64 = 0;
    assert(whole is Ok ==> views(out@) + whole->Ok_0.0 =~= whole->Ok_0.0);
    while i < n
        invariant
            i <= n,
            pos < start <= p <= b@.len(),
            whole == dec_items::<T>(n as nat, b@.skip(start as int)),
            dec_list::<T>(b@.skip(pos as int)) == whole,
            whole == (match dec_items::<T>((n - i) as nat, b@.skip(p as int)) {
                Ok((others, s)) => Ok((views(out@) + others, s)),
                Err(e) => Err(e),
            }),
        decreases n - i,
    {
        let ghost done = views(out@);
        let (one, q) = match T::read_from(b, p) {
            Err(e) => {
                return Err(e);
            },
            Ok(x) => x,
        };
        let ghost first = one@;
        out.push(one);
        assert(views(out@) =~= done.push(first));
        assert(forall|others: Seq<T::V>|
            #[trigger] (views(out@) + others) =~= done + (seq![first] + others));
        p = q;
        i += 1;
    }
    assert(views(out@) + Seq::<T::V>::empty() =~= views(out@));
    Ok((out, p))
}

/// The binary form of a value that may be missing.
#[verifier::opaque]
pub open spec fn enc_opt<T: Wire>(v: Option<T::V>) -> Seq<u8> {
    match v {
        None => enc_u8(0),
        Some(x) => enc_u8(1) + T::enc(x),
    }
}

/// The value, which may be missing, that some bytes start with, and the rest.
#[verifier::opaque]
pub open spec fn dec_opt<T: Wire>(b: Seq<u8>) -> Result<(Option<T::V>, Seq<u8>), Seq<char>> {
    match dec_u8(b) {
        Err(e) => Err(e),
        Ok((n, r)) => if n == 0 {
            Ok((None, r))
        } else if n == 1 {
            match T::dec(r) {
                Err(e) => Err(e),
                Ok((x, s)) => Ok((Some(x), s)),
            }
        } else {
            Err(option_text(n))
        },
    }
}

/// Whether every length in a value that may be missing fits in 64 bits.
#[verifier::opaque]
pub open spec fn opt_fits<T: Wire>(v: Option<T::V>) -> bool {
    match v {
        None => true,
        Some(x) => T::fits(x),
    }
}

/// The view of a value that may be missing.
pub open spec fn opt_view<T: View>(v: Option<T>) -> Option<T::V> {
    match v {
        None => None,
        Some(x) => Some(x@),
    }
}

/// A value that may be missing is read back from its binary form.
pub proof fn lemma_opt<T: Wire>(v: Option<T::V>, rest: Seq<u8>)
    requires
        opt_fits::<T>(v),
    ensures
        dec_opt::<T>(enc_opt::<T>(v) + rest) == Ok::<_, Seq<char>>((v, rest)),
        enc_opt::<T>(v).len() >= 1,
{
    reveal(enc_opt);
    reveal(dec_opt);
    reveal(opt_fits);
    match v {
        None => {
            lemma_u8(0, rest);
        },
        Some(x) => {
            T::lemma_read_back(x, rest);
            lemma_u8(1, T::enc(x) + rest);
            assert(enc_opt::<T>(v) + rest =~= enc_u8(1) + (T::enc(x) + rest));
        },
    }
}

/// Appends the binary form of a value that may be missing.
pub fn put_opt<T: Wire>(out: &mut Vec<u8>, v: &Option<T>)
    ensures
        final(out)@ == old(out)@ + enc_opt::<T>(opt_view(*v)),
        opt_fits::<T>(opt_view(*v)),
{
    proof {
        reveal(enc_opt);
        reveal(opt_fits);
    }
    let ghost before = out@;
    match v {
        None => {
            put_u8(out, 0);
        },
        Some(x) => {
            put_u8(out, 1);
            x.write_to(out);
            assert(out@ =~= before + enc_opt::<T>(opt_view(*v)));
        },
    }
}

/// The view of a value that may be missing, and the position behind it.
pub open spec fn opt_viewed<T: View>(r: Result<(Option<T>, usize), String>) -> Result<
    (Option<T::V>, int),
    Seq<char>,
> {
    match r {
        Ok((v, p)) => Ok((opt_view(v), p as int)),
        Err(e) => Err(e@),
    }
}

/// Reads a value that may be missing at a position.
pub fn get_opt<T: Wire>(b: &[u8], pos: usize) -> (r: Result<(Option<T>, usize), String>)
    requires
        pos <= b@.len(),
    ensures
        read_at(b@, pos as int, dec_opt::<T>(b@.skip(pos as int)), opt_viewed(r)),
{
    proof {
        reveal(dec_opt);
    }
    match get_u8(b, pos) {
        Err(e) => Err(e),
        Ok((n, p)) => if n == 0 {
            Ok((None, p))
        } else if n == 1 {
            match T::read_from(b, p) {
                Err(e) => Err(e),
                Ok((x, q)) => Ok((Some(x), q)),
            }
        } else {
            Err(option_error(n))
        },
    }
}

} // verus!
