//! The cache file: a registry behind a header that says which inputs it was
//! made from.
use crate::frame::{
    append_le, bytes_at, fill_header, find_payload_end, four_at, offset_is_valid, part, payload_end, read_u32_le, read_u64_le, sixteen_at, u32_at, u64_at,
};
use crate::hash::{short_hash, short_hash_of};
use crate::text::{append_byte_list, append_hex_bytes, append_decimal, append_hex, byte_list_text, digits_of, hex_bytes, hex_text, owned};
use crate::toylang::registry::{RegistryView, ToylangRegistry};
use crate::wire::{append_bytes, le_bytes, lemma_le_len, lemma_le_round_trip, lemma_pow256_values, Wire};
use vstd::prelude::*;
use vstd::string::*;

verus! {

broadcast use {
    vstd::seq::group_seq_axioms,
    vstd::std_specs::vec::group_vec_axioms,
    vstd::array::group_array_axioms,
};

/// What every cache file starts with: `SKYC` in ASCII.
pub const CACHE_MAGIC: [u8; 4] = [0x53, 0x4b, 0x59, 0x43];

/// The version of the format. A reader takes no other.
pub const CACHE_FORMAT_VERSION: u32 = 1;

/// The size of the header.
pub const HEADER_SIZE: usize = 64;

/// The size of the digest of the inputs.
pub const KEY_DIGEST_LEN: usize = 16;

/// Where writers put the payload.
pub const DEFAULT_PAYLOAD_OFFSET: u64 = 64;

/// The header of a cache file.
#[derive(Debug, Clone, Copy, PartialEq, Eq)]
pub struct CacheHeader {
    pub format_version: u32,
    /// The digest of the inputs that the file was made from.
    pub cache_key_digest: [u8; KEY_DIGEST_LEN],
    /// Where the payload starts: at the end of the header or behind it, at a
    /// multiple of eight.
    pub payload_offset: u64,
    pub payload_length: u64,
    /// The first eight bytes of the hash of the payload.
    pub payload_checksum: u64,
}

/// Why bytes are no cache file, or not the one that is wanted.
#[derive(Debug, Clone, PartialEq)]
pub enum CacheError {
    /// Shorter than the header, or than the header and its payload.
    TooShort { expected: usize, found: usize },
    BadMagic { found: [u8; 4] },
    FormatVersion { expected: u32, found: u32 },
    BadPayloadOffset { offset: u64 },
    /// The file was made from other inputs than those of the reader.
    KeyDigestMismatch { expected: [u8; KEY_DIGEST_LEN], found: [u8; KEY_DIGEST_LEN] },
    ChecksumMismatch { expected: u64, computed: u64 },
    /// The payload is not the binary form of a registry.
    BincodeRead(String),
    /// The registry could not be written.
    BincodeWrite(String),
    /// The file could not be read or written.
    Io(String),
}

/// What a [`CacheError`] says.
pub enum CacheErrorView {
    TooShort { expected: nat, found: nat },
    BadMagic { found: Seq<u8> },
    FormatVersion { expected: u32, found: u32 },
    BadPayloadOffset { offset: u64 },
    KeyDigestMismatch { expected: Seq<u8>, found: Seq<u8> },
    ChecksumMismatch { expected: u64, computed: u64 },
    BincodeRead(Seq<char>),
    BincodeWrite(Seq<char>),
    Io(Seq<char>),
}

impl View for CacheError {
    type V = CacheErrorView;

    open spec fn view(&self) -> CacheErrorView {
        match self {
            CacheError::TooShort { expected, found } => CacheErrorView::TooShort {
                expected: *expected as nat,
                found: *found as nat,
            },
            CacheError::BadMagic { found } => CacheErrorView::BadMagic { found: found@ },
            CacheError::FormatVersion { expected, found } => CacheErrorView::FormatVersion {
                expected: *expected,
                found: *found,
            },
            CacheError::BadPayloadOffset { offset } => CacheErrorView::BadPayloadOffset { offset: *offset },
            CacheError::KeyDigestMismatch { expected, found } => CacheErrorView::KeyDigestMismatch {
                expected: expected@,
                found: found@,
            },
            CacheError::ChecksumMismatch { expected, computed } => CacheErrorView::ChecksumMismatch {
                expected: *expected,
                computed: *computed,
            },
            CacheError::BincodeRead(s) => CacheErrorView::BincodeRead(s@),
            CacheError::BincodeWrite(s) => CacheErrorView::BincodeWrite(s@),
            CacheError::Io(s) => CacheErrorView::Io(s@),
        }
    }
}

/// How an error reads.
pub open spec fn error_text(e: CacheErrorView) -> Seq<char> {
    match e {
        CacheErrorView::TooShort { expected, found } => "cache file shorter than header: need at least "@ + digits_of(expected)
            + " bytes, got "@ + digits_of(found),
        CacheErrorView::BadMagic { found } => "cache magic mismatch: expected "@ + byte_list_text(
            CACHE_MAGIC@,
        ) + " (\"SKYC\"), found "@ + byte_list_text(found),
        CacheErrorView::FormatVersion { expected, found } => "cache format_version "@ + digits_of(
            found as nat,
        ) + " is unsupported; this toylangc expects format_version "@ + digits_of(expected as nat)
            + ". Cache miss; rebuild the producing library with the current toylangc."@,
        CacheErrorView::BadPayloadOffset { offset } => "cache payload_offset "@ + digits_of(
            offset as nat,
        ) + " is invalid (must be >= 64 and 8-byte aligned)"@,
        CacheErrorView::KeyDigestMismatch { expected, found } => "cache key digest mismatch: header carries "@
            + hex_bytes(found) + ", consumer expects "@ + hex_bytes(expected)
            + ". Cache entry was produced under different inputs (likely a missed cargo-fingerprint axis); rebuild the producing library."@,
        CacheErrorView::ChecksumMismatch { expected, computed } =>
            "cache payload checksum mismatch: header claims "@ + hex_text(expected as nat, 16)
            + ", bytes hash to "@ + hex_text(computed as nat, 16)
            + ". File is corrupt or truncated."@,
        CacheErrorView::BincodeRead(s) => "cache payload decode failed: "@ + s,
        CacheErrorView::BincodeWrite(s) => "cache payload encode failed: "@ + s,
        CacheErrorView::Io(s) => "cache I/O error: "@ + s,
    }
}

impl CacheError {
    /// How the error reads.
    pub fn to_text(&self) -> (r: String)
        ensures
            r@ == error_text(self@),
    {
        match self {
            CacheError::TooShort { expected, found } => {
                let mut s = owned("cache file shorter than header: need at least ");
                append_decimal(&mut s, *expected as u64);
                s.append(" bytes, got ");
                append_decimal(&mut s, *found as u64);
                s
            },
            CacheError::BadMagic { found } => {
                let magic = CACHE_MAGIC;
                let mut s = owned("cache magic mismatch: expected ");
                append_byte_list(&mut s, magic.as_slice());
                s.append(" (\"SKYC\"), found ");
                append_byte_list(&mut s, found.as_slice());
                s
            },
            CacheError::FormatVersion { expected, found } => {
                let mut s = owned("cache format_version ");
                append_decimal(&mut s, *found as u64);
                s.append(" is unsupported; this toylangc expects format_version ");
                append_decimal(&mut s, *expected as u64);
                s.append(
                    ". Cache miss; rebuild the producing library with the current toylangc.",
                );
                s
            },
            CacheError::BadPayloadOffset { offset } => {
                let mut s = owned("cache payload_offset ");
                append_decimal(&mut s, *offset);
                s.append(" is invalid (must be >= 64 and 8-byte aligned)");
                s
            },
            CacheError::KeyDigestMismatch { expected, found } => {
                let mut s = owned("cache key digest mismatch: header carries ");
                append_hex_bytes(&mut s, found.as_slice());
                s.append(", consumer expects ");
                append_hex_bytes(&mut s, expected.as_slice());
                s.append(
                    ". Cache entry was produced under different inputs (likely a missed cargo-fingerprint axis); rebuild the producing library.",
                );
                s
            },
            CacheError::ChecksumMismatch { expected, computed } => {
                let mut s = owned("cache payload checksum mismatch: header claims ");
                append_hex(&mut s, *expected, 16);
                s.append(", bytes hash to ");
                append_hex(&mut s, *computed, 16);
                s.append(". File is corrupt or truncated.");
                s
            },
            CacheError::BincodeRead(m) => {
                let mut s = owned("cache payload decode failed: ");
                s.append(m);
                s
            },
            CacheError::BincodeWrite(m) => {
                let mut s = owned("cache payload encode failed: ");
                s.append(m);
                s
            },
            CacheError::Io(m) => {
                let mut s = owned("cache I/O error: ");
                s.append(m);
                s
            },
        }
    }
}

/// Sixteen zero bytes.
pub open spec fn reserved_tail() -> Seq<u8> {
    Seq::new(16, |i: int| 0u8)
}

/// The bytes of a header.
pub open spec fn header_bytes(h: CacheHeader) -> Seq<u8> {
    CACHE_MAGIC@ + le_bytes(h.format_version as nat, 4) + h.cache_key_digest@ + le_bytes(h.payload_offset as nat, 8) + le_bytes(h.payload_length as nat, 8) + le_bytes(h.payload_checksum as nat, 8) + reserved_tail()
}

/// Why some bytes do not start with a header, if they do not.
pub open spec fn header_error(b: Seq<u8>) -> Option<CacheErrorView> {
    if b.len() < HEADER_SIZE {
        Some(CacheErrorView::TooShort { expected: HEADER_SIZE as nat, found: b.len() })
    } else if part(b, 0, 4) != CACHE_MAGIC@ {
        Some(CacheErrorView::BadMagic { found: part(b, 0, 4) })
    } else if u32_at(b, 4) != CACHE_FORMAT_VERSION {
        Some(
            CacheErrorView::FormatVersion { expected: CACHE_FORMAT_VERSION, found: u32_at(b, 4) },
        )
    } else if !offset_is_valid(u64_at(b, 24)) {
        Some(CacheErrorView::BadPayloadOffset { offset: u64_at(b, 24) })
    } else {
        None
    }
}

/// Whether a header is what some bytes say.
pub open spec fn says(b: Seq<u8>, h: CacheHeader) -> bool {
    &&& h.format_version == u32_at(b, 4)
    &&& h.cache_key_digest@ == part(b, 8, 16)
    &&& h.payload_offset == u64_at(b, 24)
    &&& h.payload_length == u64_at(b, 32)
    &&& h.payload_checksum == u64_at(b, 40)
}

impl CacheHeader {
    /// A header of the current version whose payload follows at once.
    pub fn new(
        cache_key_digest: [u8; KEY_DIGEST_LEN],
        payload_length: u64,
        payload_checksum: u64,
    ) -> (h: Self)
        ensures
            h == (CacheHeader {
                format_version: CACHE_FORMAT_VERSION,
                cache_key_digest,
                payload_offset: DEFAULT_PAYLOAD_OFFSET,
                payload_length,
                payload_checksum,
            }),
    {
        CacheHeader {
            format_version: CACHE_FORMAT_VERSION,
            cache_key_digest,
            payload_offset: DEFAULT_PAYLOAD_OFFSET,
            payload_length,
            payload_checksum,
        }
    }

    /// Reads the header that some bytes start with. Neither the digest nor
    /// the checksum is compared with anything.
    pub fn read(buf: &[u8]) -> (r: Result<CacheHeader, CacheError>)
        ensures
            match header_error(buf@) {
                Some(e) => r is Err && r->Err_0@ == e,
                None => r is Ok && says(buf@, r->Ok_0),
            },
    {
        if buf.len() < HEADER_SIZE {
            return Err(CacheError::TooShort { expected: HEADER_SIZE, found: buf.len() });
        }
        let magic = CACHE_MAGIC;
        if !bytes_at(buf, 0, magic.as_slice()) {
            return Err(CacheError::BadMagic { found: four_at(buf, 0) });
        }
        let header = CacheHeader {
            format_version: read_u32_le(buf, 4),
            cache_key_digest: sixteen_at(buf, 8),
            payload_offset: read_u64_le(buf, 24),
            payload_length: read_u64_le(buf, 32),
            payload_checksum: read_u64_le(buf, 40),
        };
        if header.format_version != CACHE_FORMAT_VERSION {
            return Err(
                CacheError::FormatVersion {
                    expected: CACHE_FORMAT_VERSION,
                    found: header.format_version,
                },
            );
        }
        if header.payload_offset < HEADER_SIZE as u64 || header.payload_offset % 8 != 0 {
            return Err(CacheError::BadPayloadOffset { offset: header.payload_offset });
        }
        Ok(header)
    }

    /// The bytes of the header.
    fn to_bytes(&self) -> (v: Vec<u8>)
        ensures
            v@ == header_bytes(*self),
            v@.len() == HEADER_SIZE,
    {
        let magic = CACHE_MAGIC;
        let mut v: Vec<u8> = Vec::new();
        append_bytes(&mut v, magic.as_slice());
        append_le(&mut v, self.format_version as u64, 4);
        append_bytes(&mut v, self.cache_key_digest.as_slice());
        append_le(&mut v, self.payload_offset, 8);
        append_le(&mut v, self.payload_length, 8);
        append_le(&mut v, self.payload_checksum, 8);
        append_le(&mut v, 0, 16);
        proof {
            lemma_zero_tail();
            lemma_header_len(*self);
            assert(v@ =~= header_bytes(*self));
        }
        v
    }

    /// Writes the header, and zeros where nothing is said.
    pub fn write(&self, buf: &mut [u8; HEADER_SIZE])
        ensures
            final(buf)@ == header_bytes(*self),
    {
        let v = self.to_bytes();
        fill_header(buf, &v);
    }
}

proof fn lemma_zero_tail()
    ensures
        le_bytes(0, 16) == reserved_tail(),
{
    reveal_with_fuel(le_bytes, 17);
    assert(le_bytes(0, 16) =~= reserved_tail());
}

proof fn lemma_header_len(h: CacheHeader)
    ensures
        header_bytes(h).len() == HEADER_SIZE,
{
    lemma_le_len(h.format_version as nat, 4);
    lemma_le_len(h.payload_offset as nat, 8);
    lemma_le_len(h.payload_length as nat, 8);
    lemma_le_len(h.payload_checksum as nat, 8);
}

/// A header of the current version, with an offset that is valid, is read
/// back from the bytes that it was written as, whatever follows them.
pub proof fn lemma_header_round_trip(h: CacheHeader, rest: Seq<u8>)
    requires
        h.format_version == CACHE_FORMAT_VERSION,
        offset_is_valid(h.payload_offset),
    ensures
        header_error(header_bytes(h) + rest) is None,
        says(header_bytes(h) + rest, h),
{
    let b = header_bytes(h) + rest;
    lemma_header_len(h);
    lemma_pow256_values();
    lemma_le_len(h.format_version as nat, 4);
    lemma_le_len(h.payload_offset as nat, 8);
    lemma_le_len(h.payload_length as nat, 8);
    lemma_le_len(h.payload_checksum as nat, 8);
    assert(part(b, 0, 4) =~= CACHE_MAGIC@);
    assert(part(b, 8, 16) =~= h.cache_key_digest@);
    lemma_le_round_trip(h.format_version as nat, 4);
    assert(part(b, 4, 4) =~= le_bytes(h.format_version as nat, 4));
    lemma_le_round_trip(h.payload_offset as nat, 8);
    assert(part(b, 24, 8) =~= le_bytes(h.payload_offset as nat, 8));
    lemma_le_round_trip(h.payload_length as nat, 8);
    assert(part(b, 32, 8) =~= le_bytes(h.payload_length as nat, 8));
    lemma_le_round_trip(h.payload_checksum as nat, 8);
    assert(part(b, 40, 8) =~= le_bytes(h.payload_checksum as nat, 8));
}

/// The last sixteen bytes of a header are not read.
pub proof fn lemma_reserved_tail_ignored(b: Seq<u8>, c: Seq<u8>)
    requires
        b.len() >= HEADER_SIZE,
        c.len() >= HEADER_SIZE,
        b.take(48) == c.take(48),
    ensures
        header_error(b) == header_error(c),
        forall|h: CacheHeader| says(b, h) == says(c, h),
{
    assert forall|at: int, n: int| 0 <= at && 0 <= n && at + n <= 48 implies #[trigger] part(
        b,
        at,
        n,
    ) == part(c, at, n) by {
        assert(part(b, at, n) =~= part(b.take(48), at, n));
        assert(part(c, at, n) =~= part(c.take(48), at, n));
    }
}

/// The bytes of a cache file: a header, then the payload.
pub open spec fn framed(payload: Seq<u8>, cache_key_digest: [u8; KEY_DIGEST_LEN]) -> Seq<u8> {
    header_bytes(
        CacheHeader {
            format_version: CACHE_FORMAT_VERSION,
            cache_key_digest,
            payload_offset: DEFAULT_PAYLOAD_OFFSET,
            payload_length: payload.len() as u64,
            payload_checksum: short_hash(payload),
        },
    ) + payload
}

/// The bytes of the cache file of a registry.
pub open spec fn cache_bytes(r: RegistryView, cache_key_digest: [u8; KEY_DIGEST_LEN]) -> Seq<u8> {
    framed(ToylangRegistry::enc(r), cache_key_digest)
}

/// The payload of a cache file that was made from the inputs with digest
/// `expected`, or why the bytes are none.
pub open spec fn unframed(b: Seq<u8>, expected: Seq<u8>) -> Result<Seq<u8>, CacheErrorView> {
    match header_error(b) {
        Some(e) => Err(e),
        None => if part(b, 8, 16) != expected {
            Err(CacheErrorView::KeyDigestMismatch { expected, found: part(b, 8, 16) })
        } else {
            match payload_end(u64_at(b, 24), u64_at(b, 32)) {
                None => Err(CacheErrorView::Io("payload length overflow"@)),
                Some(end) => if b.len() < end {
                    Err(CacheErrorView::TooShort { expected: end, found: b.len() })
                } else {
                    let payload = b.subrange(u64_at(b, 24) as int, end as int);
                    if short_hash(payload) != u64_at(b, 40) {
                        Err(
                            CacheErrorView::ChecksumMismatch {
                                expected: u64_at(b, 40),
                                computed: short_hash(payload),
                            },
                        )
                    } else {
                        Ok(payload)
                    }
                },
            }
        },
    }
}

/// The registry of a cache file that was made from the inputs with digest
/// `expected`, or why the bytes are none.
pub open spec fn cache_registry(b: Seq<u8>, expected: Seq<u8>) -> Result<
    RegistryView,
    CacheErrorView,
> {
    match unframed(b, expected) {
        Err(e) => Err(e),
        Ok(payload) => match ToylangRegistry::dec(payload) {
            Ok((r, _)) => Ok(r),
            Err(e) => Err(CacheErrorView::BincodeRead(e)),
        },
    }
}

/// Writes the cache file of a registry that was made from the inputs with the
/// given digest.
pub fn serialize_cache(
    registry: &ToylangRegistry,
    cache_key_digest: [u8; KEY_DIGEST_LEN],
) -> (r: Result<Vec<u8>, CacheError>)
    ensures
        r is Ok,
        r->Ok_0@ == cache_bytes(registry@, cache_key_digest),
        ToylangRegistry::fits(registry@),
{
    let mut payload: Vec<u8> = Vec::new();
    registry.write_to(&mut payload);
    assert(payload@ =~= ToylangRegistry::enc(registry@));
    let header = CacheHeader::new(
        cache_key_digest,
        payload.len() as u64,
        short_hash_of(payload.as_slice()),
    );
    let mut out = header.to_bytes();
    append_bytes(&mut out, payload.as_slice());
    Ok(out)
}

/// Reads a cache file that was made from the inputs with the given digest.
pub fn deserialize_cache(buf: &[u8], expected_key_digest: [u8; KEY_DIGEST_LEN]) -> (r: Result<
    ToylangRegistry,
    CacheError,
>)
    ensures
        (match r {
            Ok(registry) => Ok(registry@),
            Err(e) => Err(e@),
        }) == cache_registry(buf@, expected_key_digest@),
{
    let header = match CacheHeader::read(buf) {
        Err(e) => {
            return Err(e);
        },
        Ok(h) => h,
    };
    if !bytes_at(expected_key_digest.as_slice(), 0, header.cache_key_digest.as_slice()) {
        assert(part(expected_key_digest@, 0, 16) =~= expected_key_digest@);
        return Err(
            CacheError::KeyDigestMismatch {
                expected: expected_key_digest,
                found: header.cache_key_digest,
            },
        );
    }
    assert(part(expected_key_digest@, 0, 16) =~= expected_key_digest@);
    let end = match find_payload_end(header.payload_offset, header.payload_length) {
        None => {
            return Err(CacheError::Io(owned("payload length overflow")));
        },
        Some(end) => end,
    };
    if buf.len() < end {
        return Err(CacheError::TooShort { expected: end, found: buf.len() });
    }
    let payload = vstd::slice::slice_subrange(buf, header.payload_offset as usize, end);
    let computed = short_hash_of(payload);
    if computed != header.payload_checksum {
        return Err(
            CacheError::ChecksumMismatch { expected: header.payload_checksum, computed },
        );
    }
    assert(payload@.skip(0) =~= payload@);
    match ToylangRegistry::read_from(payload, 0) {
        Ok((registry, _)) => Ok(registry),
        Err(e) => Err(CacheError::BincodeRead(e)),
    }
}

/// Reads the digest of the inputs that a cache file was made from.
pub fn read_cache_key_digest(buf: &[u8]) -> (r: Result<[u8; KEY_DIGEST_LEN], CacheError>)
    ensures
        match header_error(buf@) {
            Some(e) => r is Err && r->Err_0@ == e,
            None => r is Ok && r->Ok_0@ == part(buf@, 8, 16),
        },
{
    match CacheHeader::read(buf) {
        Err(e) => Err(e),
        Ok(h) => Ok(h.cache_key_digest),
    }
}

/// A registry is read back from its cache file by a reader with the digest
/// that it was written with.
pub proof fn lemma_cache_round_trip(r: RegistryView, digest: [u8; KEY_DIGEST_LEN])
    requires
        ToylangRegistry::fits(r),
        cache_bytes(r, digest).len() <= usize::MAX,
    ensures
        cache_registry(cache_bytes(r, digest), digest@) == Ok::<RegistryView, CacheErrorView>(r),
{
    let payload = ToylangRegistry::enc(r);
    let h = CacheHeader {
        format_version: CACHE_FORMAT_VERSION,
        cache_key_digest: digest,
        payload_offset: DEFAULT_PAYLOAD_OFFSET,
        payload_length: payload.len() as u64,
        payload_checksum: short_hash(payload),
    };
    let b = cache_bytes(r, digest);
    lemma_header_len(h);
    lemma_header_round_trip(h, payload);
    assert(b.subrange(64, b.len() as int) =~= payload);
    ToylangRegistry::lemma_read_back(r, Seq::empty());
    assert(payload + Seq::<u8>::empty() =~= payload);
}

/// A reader with another digest than a cache file was written with is told
/// so, and gets no registry.
pub proof fn lemma_other_digest_refused(
    r: RegistryView,
    digest: [u8; KEY_DIGEST_LEN],
    expected: [u8; KEY_DIGEST_LEN],
)
    requires
        digest@ != expected@,
    ensures
        cache_registry(cache_bytes(r, digest), expected@) == Err::<RegistryView, CacheErrorView>(
            CacheErrorView::KeyDigestMismatch { expected: expected@, found: digest@ },
        ),
{
    let payload = ToylangRegistry::enc(r);
    let h = CacheHeader {
        format_version: CACHE_FORMAT_VERSION,
        cache_key_digest: digest,
        payload_offset: DEFAULT_PAYLOAD_OFFSET,
        payload_length: payload.len() as u64,
        payload_checksum: short_hash(payload),
    };
    lemma_header_round_trip(h, payload);
}

/// A cache file that was cut off anywhere is refused as too short.
pub proof fn lemma_truncation_detected(r: RegistryView, digest: [u8; KEY_DIGEST_LEN], n: nat)
    requires
        cache_bytes(r, digest).len() <= usize::MAX,
        n < cache_bytes(r, digest).len(),
    ensures
        cache_registry(cache_bytes(r, digest).take(n as int), digest@) == Err::<
            RegistryView,
            CacheErrorView,
        >(
            CacheErrorView::TooShort {
                expected: if n < HEADER_SIZE {
                    HEADER_SIZE as nat
                } else {
                    cache_bytes(r, digest).len()
                },
                found: n,
            },
        ),
{
    let payload = ToylangRegistry::enc(r);
    let h = CacheHeader {
        format_version: CACHE_FORMAT_VERSION,
        cache_key_digest: digest,
        payload_offset: DEFAULT_PAYLOAD_OFFSET,
        payload_length: payload.len() as u64,
        payload_checksum: short_hash(payload),
    };
    let b = cache_bytes(r, digest);
    let cut = b.take(n as int);
    lemma_header_len(h);
    if n >= HEADER_SIZE {
        lemma_header_round_trip(h, payload.take(n - HEADER_SIZE));
        assert(cut =~= header_bytes(h) + payload.take(n - HEADER_SIZE));
    }
}

/// A cache file starts with its magic and is no shorter than a header.
pub proof fn lemma_cache_file_start(r: RegistryView, digest: [u8; KEY_DIGEST_LEN])
    ensures
        cache_bytes(r, digest).len() >= HEADER_SIZE,
        part(cache_bytes(r, digest), 0, 4) == CACHE_MAGIC@,
{
    let payload = ToylangRegistry::enc(r);
    let h = CacheHeader {
        format_version: CACHE_FORMAT_VERSION,
        cache_key_digest: digest,
        payload_offset: DEFAULT_PAYLOAD_OFFSET,
        payload_length: payload.len() as u64,
        payload_checksum: short_hash(payload),
    };
    lemma_header_len(h);
    assert(part(cache_bytes(r, digest), 0, 4) =~= CACHE_MAGIC@);
}

} // verus!
