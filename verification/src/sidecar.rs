//! The sidecar file: a registry behind a header.
use crate::frame::{
    append_le, bytes_at, fill_header, find_payload_end, four_at, offset_is_valid, part, payload_end, read_u32_le, read_u64_le, u32_at, u64_at,
};
use crate::hash::{short_hash, short_hash_of};
use crate::names::{lemma_put_order_ignored, names_increase, put};
use crate::text::{append_byte_list, append_decimal, append_hex, byte_list_text, digits_of, hex_text, owned};
use crate::toylang::registry::{RegistryView, ToyFunctionView, ToyStructView, ToylangRegistry};
use crate::wire::{append_bytes, le_bytes, lemma_le_len, lemma_le_round_trip, lemma_pow256_values, Wire};
use vstd::prelude::*;
use vstd::string::*;

verus! {

broadcast use {
    vstd::seq::group_seq_axioms,
    vstd::std_specs::vec::group_vec_axioms,
    vstd::array::group_array_axioms,
};

/// What every sidecar file starts with: `SKYM` in ASCII.
pub const SIDECAR_MAGIC: [u8; 4] = [0x53, 0x4b, 0x59, 0x4d];

/// The version of the format. A reader takes no other.
pub const CURRENT_FORMAT_VERSION: u32 = 1;

/// The size of the header.
pub const HEADER_SIZE: usize = 64;

/// The major version of the compiler, for information only.
pub const SKYC_VERSION_MAJOR: u32 = 0;

/// The minor version of the compiler, for information only.
pub const SKYC_VERSION_MINOR: u32 = 1;

/// Where writers put the payload.
pub const DEFAULT_PAYLOAD_OFFSET: u64 = 64;

/// The header of a sidecar file.
#[derive(Debug, Clone, Copy, PartialEq, Eq)]
pub struct SidecarHeader {
    pub skyc_version_major: u32,
    pub skyc_version_minor: u32,
    pub format_version: u32,
    /// Flags of optional contents. None is in use.
    pub capabilities: u64,
    /// Where the payload starts: at the end of the header or behind it, at a
    /// multiple of eight.
    pub payload_offset: u64,
    pub payload_length: u64,
    /// The first eight bytes of the hash of the payload.
    pub payload_checksum: u64,
}

/// Why bytes are no sidecar file.
#[derive(Debug, Clone, PartialEq)]
pub enum SidecarError {
    /// Shorter than the header, or than the header and its payload.
    TooShort { expected: usize, found: usize },
    BadMagic { found: [u8; 4] },
    FormatVersion { expected: u32, found: u32 },
    BadPayloadOffset { offset: u64 },
    ChecksumMismatch { expected: u64, computed: u64 },
    /// The payload is not the binary form of a registry.
    BincodeRead(String),
    /// The registry could not be written.
    BincodeWrite(String),
    /// The file could not be read or written.
    Io(String),
}

/// What a [`SidecarError`] says.
pub enum SidecarErrorView {
    TooShort { expected: nat, found: nat },
    BadMagic { found: Seq<u8> },
    FormatVersion { expected: u32, found: u32 },
    BadPayloadOffset { offset: u64 },
    ChecksumMismatch { expected: u64, computed: u64 },
    BincodeRead(Seq<char>),
    BincodeWrite(Seq<char>),
    Io(Seq<char>),
}

impl View for SidecarError {
    type V = SidecarErrorView;

    open spec fn view(&self) -> SidecarErrorView {
        match self {
            SidecarError::TooShort { expected, found } => SidecarErrorView::TooShort {
                expected: *expected as nat,
                found: *found as nat,
            },
            SidecarError::BadMagic { found } => SidecarErrorView::BadMagic { found: found@ },
            SidecarError::FormatVersion { expected, found } => SidecarErrorView::FormatVersion {
                expected: *expected,
                found: *found,
            },
            SidecarError::BadPayloadOffset { offset } => SidecarErrorView::BadPayloadOffset { offset: *offset },
            SidecarError::ChecksumMismatch { expected, computed } => SidecarErrorView::ChecksumMismatch {
                expected: *expected,
                computed: *computed,
            },
            SidecarError::BincodeRead(s) => SidecarErrorView::BincodeRead(s@),
            SidecarError::BincodeWrite(s) => SidecarErrorView::BincodeWrite(s@),
            SidecarError::Io(s) => SidecarErrorView::Io(s@),
        }
    }
}

/// How an error reads.
pub open spec fn error_text(e: SidecarErrorView) -> Seq<char> {
    match e {
        SidecarErrorView::TooShort { expected, found } => "sidecar shorter than header: need at least "@ + digits_of(expected)
            + " bytes, got "@ + digits_of(found),
        SidecarErrorView::BadMagic { found } => "sidecar magic mismatch: expected "@ + byte_list_text(
            SIDECAR_MAGIC@,
        ) + " (\"SKYM\"), found "@ + byte_list_text(found),
        SidecarErrorView::FormatVersion { expected, found } => "sidecar format_version "@ + digits_of(
            found as nat,
        ) + " is unsupported; this toylangc expects format_version "@ + digits_of(expected as nat)
            + ". Pre-1.0 policy is strict match — rebuild the producing library with a matching toylangc version."@,
        SidecarErrorView::BadPayloadOffset { offset } => "sidecar payload_offset "@ + digits_of(
            offset as nat,
        ) + " is invalid (must be >= 64 and 8-byte aligned)"@,
        SidecarErrorView::ChecksumMismatch { expected, computed } =>
            "sidecar payload checksum mismatch: header claims "@ + hex_text(expected as nat, 16)
            + ", bytes hash to "@ + hex_text(computed as nat, 16)
            + ". File is corrupt or truncated."@,
        SidecarErrorView::BincodeRead(s) => "sidecar payload decode failed: "@ + s,
        SidecarErrorView::BincodeWrite(s) => "sidecar payload encode failed: "@ + s,
        SidecarErrorView::Io(s) => "sidecar I/O error: "@ + s,
    }
}

impl SidecarError {
    /// How the error reads.
    pub fn to_text(&self) -> (r: String)
        ensures
            r@ == error_text(self@),
    {
        match self {
            SidecarError::TooShort { expected, found } => {
                let mut s = owned("sidecar shorter than header: need at least ");
                append_decimal(&mut s, *expected as u64);
                s.append(" bytes, got ");
                append_decimal(&mut s, *found as u64);
                s
            },
            SidecarError::BadMagic { found } => {
                let magic = SIDECAR_MAGIC;
                let mut s = owned("sidecar magic mismatch: expected ");
                append_byte_list(&mut s, magic.as_slice());
                s.append(" (\"SKYM\"), found ");
                append_byte_list(&mut s, found.as_slice());
                s
            },
            SidecarError::FormatVersion { expected, found } => {
                let mut s = owned("sidecar format_version ");
                append_decimal(&mut s, *found as u64);
                s.append(" is unsupported; this toylangc expects format_version ");
                append_decimal(&mut s, *expected as u64);
                s.append(
                    ". Pre-1.0 policy is strict match — rebuild the producing library with a matching toylangc version.",
                );
                s
            },
            SidecarError::BadPayloadOffset { offset } => {
                let mut s = owned("sidecar payload_offset ");
                append_decimal(&mut s, *offset);
                s.append(" is invalid (must be >= 64 and 8-byte aligned)");
                s
            },
            SidecarError::ChecksumMismatch { expected, computed } => {
                let mut s = owned("sidecar payload checksum mismatch: header claims ");
                append_hex(&mut s, *expected, 16);
                s.append(", bytes hash to ");
                append_hex(&mut s, *computed, 16);
                s.append(". File is corrupt or truncated.");
                s
            },
            SidecarError::BincodeRead(m) => {
                let mut s = owned("sidecar payload decode failed: ");
                s.append(m);
                s
            },
            SidecarError::BincodeWrite(m) => {
                let mut s = owned("sidecar payload encode failed: ");
                s.append(m);
                s
            },
            SidecarError::Io(m) => {
                let mut s = owned("sidecar I/O error: ");
                s.append(m);
                s
            },
        }
    }
}

/// Sixteen zero bytes.
pub open spec fn reserved_tail() -> Seq<u8> {
    Seq::new(16, |i: int| 0u8)
}

/// The bytes of a header.
pub open spec fn header_bytes(h: SidecarHeader) -> Seq<u8> {
    SIDECAR_MAGIC@ + le_bytes(h.skyc_version_major as nat, 4) + le_bytes(h.skyc_version_minor as nat, 4) + le_bytes(h.format_version as nat, 4) + le_bytes(h.capabilities as nat, 8) + le_bytes(h.payload_offset as nat, 8) + le_bytes(h.payload_length as nat, 8) + le_bytes(h.payload_checksum as nat, 8) + reserved_tail()
}

/// Why some bytes do not start with a header, if they do not.
pub open spec fn header_error(b: Seq<u8>) -> Option<SidecarErrorView> {
    if b.len() < HEADER_SIZE {
        Some(SidecarErrorView::TooShort { expected: HEADER_SIZE as nat, found: b.len() })
    } else if part(b, 0, 4) != SIDECAR_MAGIC@ {
        Some(SidecarErrorView::BadMagic { found: part(b, 0, 4) })
    } else if u32_at(b, 12) != CURRENT_FORMAT_VERSION {
        Some(
            SidecarErrorView::FormatVersion {
                expected: CURRENT_FORMAT_VERSION,
                found: u32_at(b, 12),
            },
        )
    } else if !offset_is_valid(u64_at(b, 24)) {
        Some(SidecarErrorView::BadPayloadOffset { offset: u64_at(b, 24) })
    } else {
        None
    }
}

/// Whether a header is what some bytes say.
pub open spec fn says(b: Seq<u8>, h: SidecarHeader) -> bool {
    &&& h.skyc_version_major == u32_at(b, 4)
    &&& h.skyc_version_minor == u32_at(b, 8)
    &&& h.format_version == u32_at(b, 12)
    &&& h.capabilities == u64_at(b, 16)
    &&& h.payload_offset == u64_at(b, 24)
    &&& h.payload_length == u64_at(b, 32)
    &&& h.payload_checksum == u64_at(b, 40)
}

impl SidecarHeader {
    /// A header of the current versions whose payload follows at once.
    pub fn new(payload_length: u64, payload_checksum: u64) -> (h: Self)
        ensures
            h == (SidecarHeader {
                skyc_version_major: SKYC_VERSION_MAJOR,
                skyc_version_minor: SKYC_VERSION_MINOR,
                format_version: CURRENT_FORMAT_VERSION,
                capabilities: 0,
                payload_offset: DEFAULT_PAYLOAD_OFFSET,
                payload_length,
                payload_checksum,
            }),
    {
        SidecarHeader {
            skyc_version_major: SKYC_VERSION_MAJOR,
            skyc_version_minor: SKYC_VERSION_MINOR,
            format_version: CURRENT_FORMAT_VERSION,
            capabilities: 0,
            payload_offset: DEFAULT_PAYLOAD_OFFSET,
            payload_length,
            payload_checksum,
        }
    }

    /// Reads the header that some bytes start with. The checksum is not
    /// compared with anything.
    pub fn read(buf: &[u8]) -> (r: Result<SidecarHeader, SidecarError>)
        ensures
            match header_error(buf@) {
                Some(e) => r is Err && r->Err_0@ == e,
                None => r is Ok && says(buf@, r->Ok_0),
            },
    {
        if buf.len() < HEADER_SIZE {
            return Err(SidecarError::TooShort { expected: HEADER_SIZE, found: buf.len() });
        }
        let magic = SIDECAR_MAGIC;
        if !bytes_at(buf, 0, magic.as_slice()) {
            return Err(SidecarError::BadMagic { found: four_at(buf, 0) });
        }
        let header = SidecarHeader {
            skyc_version_major: read_u32_le(buf, 4),
            skyc_version_minor: read_u32_le(buf, 8),
            format_version: read_u32_le(buf, 12),
            capabilities: read_u64_le(buf, 16),
            payload_offset: read_u64_le(buf, 24),
            payload_length: read_u64_le(buf, 32),
            payload_checksum: read_u64_le(buf, 40),
        };
        if header.format_version != CURRENT_FORMAT_VERSION {
            return Err(
                SidecarError::FormatVersion {
                    expected: CURRENT_FORMAT_VERSION,
                    found: header.format_version,
                },
            );
        }
        if header.payload_offset < HEADER_SIZE as u64 || header.payload_offset % 8 != 0 {
            return Err(SidecarError::BadPayloadOffset { offset: header.payload_offset });
        }
        Ok(header)
    }

    /// The bytes of the header.
    fn to_bytes(&self) -> (v: Vec<u8>)
        ensures
            v@ == header_bytes(*self),
            v@.len() == HEADER_SIZE,
    {
        let magic = SIDECAR_MAGIC;
        let mut v: Vec<u8> = Vec::new();
        append_bytes(&mut v, magic.as_slice());
        append_le(&mut v, self.skyc_version_major as u64, 4);
        append_le(&mut v, self.skyc_version_minor as u64, 4);
        append_le(&mut v, self.format_version as u64, 4);
        append_le(&mut v, self.capabilities, 8);
        append_le(&mut v, self.payload_offset, 8);
        append_le(&mut v, self.payload_length, 8);
        append_le(&mut v, self.payload_checksum, 8);
        append_le(&mut v, 0, 16);
        proof {
            lemma_zero_tail();
            lemma_header_len(*self);
            assert(v@ =~= header_bytes(*self));
        }
        v
    }

    /// Writes the header, and zeros where nothing is said.
    pub fn write(&self, buf: &mut [u8; HEADER_SIZE])
        ensures
            final(buf)@ == header_bytes(*self),
    {
        let v = self.to_bytes();
        fill_header(buf, &v);
    }
}

proof fn lemma_zero_tail()
    ensures
        le_bytes(0, 16) == reserved_tail(),
{
    reveal_with_fuel(le_bytes, 17);
    assert(le_bytes(0, 16) =~= reserved_tail());
}

proof fn lemma_header_len(h: SidecarHeader)
    ensures
        header_bytes(h).len() == HEADER_SIZE,
{
    lemma_le_len(h.skyc_version_major as nat, 4);
    lemma_le_len(h.skyc_version_minor as nat, 4);
    lemma_le_len(h.format_version as nat, 4);
    lemma_le_len(h.capabilities as nat, 8);
    lemma_le_len(h.payload_offset as nat, 8);
    lemma_le_len(h.payload_length as nat, 8);
    lemma_le_len(h.payload_checksum as nat, 8);
}

/// A header of the current version, with an offset that is valid, is read
/// back from the bytes that it was written as, whatever follows them.
pub proof fn lemma_header_round_trip(h: SidecarHeader, rest: Seq<u8>)
    requires
        h.format_version == CURRENT_FORMAT_VERSION,
        offset_is_valid(h.payload_offset),
    ensures
        header_error(header_bytes(h) + rest) is None,
        says(header_bytes(h) + rest, h),
{
    let b = header_bytes(h) + rest;
    lemma_header_len(h);
    lemma_pow256_values();
    lemma_le_len(h.skyc_version_major as nat, 4);
    lemma_le_len(h.skyc_version_minor as nat, 4);
    lemma_le_len(h.format_version as nat, 4);
    lemma_le_len(h.capabilities as nat, 8);
    lemma_le_len(h.payload_offset as nat, 8);
    lemma_le_len(h.payload_length as nat, 8);
    lemma_le_len(h.payload_checksum as nat, 8);
    assert(part(b, 0, 4) =~= SIDECAR_MAGIC@);
    lemma_le_round_trip(h.skyc_version_major as nat, 4);
    assert(part(b, 4, 4) =~= le_bytes(h.skyc_version_major as nat, 4));
    lemma_le_round_trip(h.skyc_version_minor as nat, 4);
    assert(part(b, 8, 4) =~= le_bytes(h.skyc_version_minor as nat, 4));
    lemma_le_round_trip(h.format_version as nat, 4);
    assert(part(b, 12, 4) =~= le_bytes(h.format_version as nat, 4));
    lemma_le_round_trip(h.capabilities as nat, 8);
    assert(part(b, 16, 8) =~= le_bytes(h.capabilities as nat, 8));
    lemma_le_round_trip(h.payload_offset as nat, 8);
    assert(part(b, 24, 8) =~= le_bytes(h.payload_offset as nat, 8));
    lemma_le_round_trip(h.payload_length as nat, 8);
    assert(part(b, 32, 8) =~= le_bytes(h.payload_length as nat, 8));
    lemma_le_round_trip(h.payload_checksum as nat, 8);
    assert(part(b, 40, 8) =~= le_bytes(h.payload_checksum as nat, 8));
}

/// The last sixteen bytes of a header are not read.
pub proof fn lemma_reserved_tail_ignored(b: Seq<u8>, c: Seq<u8>)
    requires
        b.len() >= HEADER_SIZE,
        c.len() >= HEADER_SIZE,
        b.take(48) == c.take(48),
    ensures
        header_error(b) == header_error(c),
        forall|h: SidecarHeader| says(b, h) == says(c, h),
{
    assert forall|at: int, n: int| 0 <= at && 0 <= n && at + n <= 48 implies #[trigger] part(
        b,
        at,
        n,
    ) == part(c, at, n) by {
        assert(part(b, at, n) =~= part(b.take(48), at, n));
        assert(part(c, at, n) =~= part(c.take(48), at, n));
    }
}

/// The bytes of a sidecar file: a header, then the payload.
pub open spec fn framed(payload: Seq<u8>) -> Seq<u8> {
    header_bytes(
        SidecarHeader {
            skyc_version_major: SKYC_VERSION_MAJOR,
            skyc_version_minor: SKYC_VERSION_MINOR,
            format_version: CURRENT_FORMAT_VERSION,
            capabilities: 0,
            payload_offset: DEFAULT_PAYLOAD_OFFSET,
            payload_length: payload.len() as u64,
            payload_checksum: short_hash(payload),
        },
    ) + payload
}

/// The bytes of the sidecar file of a registry.
pub open spec fn sidecar_bytes(r: RegistryView) -> Seq<u8> {
    framed(ToylangRegistry::enc(r))
}

/// The payload of a sidecar file, or why the bytes are none.
pub open spec fn unframed(b: Seq<u8>) -> Result<Seq<u8>, SidecarErrorView> {
    match header_error(b) {
        Some(e) => Err(e),
        None => match payload_end(u64_at(b, 24), u64_at(b, 32)) {
            None => Err(SidecarErrorView::Io("payload length overflow"@)),
            Some(end) => if b.len() < end {
                Err(SidecarErrorView::TooShort { expected: end, found: b.len() })
            } else {
                let payload = b.subrange(u64_at(b, 24) as int, end as int);
                if short_hash(payload) != u64_at(b, 40) {
                    Err(
                        SidecarErrorView::ChecksumMismatch {
                            expected: u64_at(b, 40),
                            computed: short_hash(payload),
                        },
                    )
                } else {
                    Ok(payload)
                }
            },
        },
    }
}

/// The registry of a sidecar file, or why the bytes are none.
pub open spec fn sidecar_registry(b: Seq<u8>) -> Result<RegistryView, SidecarErrorView> {
    match unframed(b) {
        Err(e) => Err(e),
        Ok(payload) => match ToylangRegistry::dec(payload) {
            Ok((r, _)) => Ok(r),
            Err(e) => Err(SidecarErrorView::BincodeRead(e)),
        },
    }
}

/// Writes the sidecar file of a registry.
pub fn serialize_sidecar(registry: &ToylangRegistry) -> (r: Result<Vec<u8>, SidecarError>)
    ensures
        r is Ok,
        r->Ok_0@ == sidecar_bytes(registry@),
        ToylangRegistry::fits(registry@),
{
    let mut payload: Vec<u8> = Vec::new();
    registry.write_to(&mut payload);
    assert(payload@ =~= ToylangRegistry::enc(registry@));
    let header = SidecarHeader::new(payload.len() as u64, short_hash_of(payload.as_slice()));
    let mut out = header.to_bytes();
    append_bytes(&mut out, payload.as_slice());
    Ok(out)
}

/// Reads a sidecar file.
pub fn deserialize_sidecar(buf: &[u8]) -> (r: Result<ToylangRegistry, SidecarError>)
    ensures
        (match r {
            Ok(registry) => Ok(registry@),
            Err(e) => Err(e@),
        }) == sidecar_registry(buf@),
{
    let header = match SidecarHeader::read(buf) {
        Err(e) => {
            return Err(e);
        },
        Ok(h) => h,
    };
    let end = match find_payload_end(header.payload_offset, header.payload_length) {
        None => {
            return Err(SidecarError::Io(owned("payload length overflow")));
        },
        Some(end) => end,
    };
    if buf.len() < end {
        return Err(SidecarError::TooShort { expected: end, found: buf.len() });
    }
    let payload = vstd::slice::slice_subrange(buf, header.payload_offset as usize, end);
    let computed = short_hash_of(payload);
    if computed != header.payload_checksum {
        return Err(
            SidecarError::ChecksumMismatch { expected: header.payload_checksum, computed },
        );
    }
    assert(payload@.skip(0) =~= payload@);
    match ToylangRegistry::read_from(payload, 0) {
        Ok((registry, _)) => Ok(registry),
        Err(e) => Err(SidecarError::BincodeRead(e)),
    }
}

/// A registry is read back from its sidecar file.
pub proof fn lemma_sidecar_round_trip(r: RegistryView)
    requires
        ToylangRegistry::fits(r),
        sidecar_bytes(r).len() <= usize::MAX,
    ensures
        sidecar_registry(sidecar_bytes(r)) == Ok::<RegistryView, SidecarErrorView>(r),
{
    let payload = ToylangRegistry::enc(r);
    let h = SidecarHeader {
        skyc_version_major: SKYC_VERSION_MAJOR,
        skyc_version_minor: SKYC_VERSION_MINOR,
        format_version: CURRENT_FORMAT_VERSION,
        capabilities: 0,
        payload_offset: DEFAULT_PAYLOAD_OFFSET,
        payload_length: payload.len() as u64,
        payload_checksum: short_hash(payload),
    };
    let b = sidecar_bytes(r);
    lemma_header_len(h);
    lemma_header_round_trip(h, payload);
    assert(b.subrange(64, b.len() as int) =~= payload);
    ToylangRegistry::lemma_read_back(r, Seq::empty());
    assert(payload + Seq::<u8>::empty() =~= payload);
}

/// The sidecar of a crate does not depend on the order in which its structs
/// and its functions are defined.
pub proof fn lemma_definition_order_ignored(
    r: RegistryView,
    a: Seq<char>,
    struct_a: ToyStructView,
    fn_a: ToyFunctionView,
    b: Seq<char>,
    struct_b: ToyStructView,
    fn_b: ToyFunctionView,
)
    requires
        names_increase(r.structs),
        names_increase(r.functions),
        a != b,
    ensures
        sidecar_bytes(
            (RegistryView {
                structs: put(put(r.structs, a, struct_a), b, struct_b),
                functions: put(put(r.functions, a, fn_a), b, fn_b),
                ..r
            }),
        ) == sidecar_bytes(
            (RegistryView {
                structs: put(put(r.structs, b, struct_b), a, struct_a),
                functions: put(put(r.functions, b, fn_b), a, fn_a),
                ..r
            }),
        ),
{
    lemma_put_order_ignored(r.structs, a, struct_a, b, struct_b);
    lemma_put_order_ignored(r.functions, a, fn_a, b, fn_b);
}

/// A sidecar file that was cut off anywhere is refused as too short.
pub proof fn lemma_truncation_detected(r: RegistryView, n: nat)
    requires
        sidecar_bytes(r).len() <= usize::MAX,
        n < sidecar_bytes(r).len(),
    ensures
        sidecar_registry(sidecar_bytes(r).take(n as int)) == Err::<RegistryView, SidecarErrorView>(
            SidecarErrorView::TooShort {
                expected: if n < HEADER_SIZE {
                    HEADER_SIZE as nat
                } else {
                    sidecar_bytes(r).len()
                },
                found: n,
            },
        ),
{
    let payload = ToylangRegistry::enc(r);
    let h = SidecarHeader {
        skyc_version_major: SKYC_VERSION_MAJOR,
        skyc_version_minor: SKYC_VERSION_MINOR,
        format_version: CURRENT_FORMAT_VERSION,
        capabilities: 0,
        payload_offset: DEFAULT_PAYLOAD_OFFSET,
        payload_length: payload.len() as u64,
        payload_checksum: short_hash(payload),
    };
    let b = sidecar_bytes(r);
    let cut = b.take(n as int);
    lemma_header_len(h);
    if n >= HEADER_SIZE {
        lemma_header_round_trip(h, payload.take(n - HEADER_SIZE));
        assert(cut =~= header_bytes(h) + payload.take(n - HEADER_SIZE));
    }
}

/// A cache file is no sidecar file, and a sidecar file no cache file: each
/// reader refuses the other's files by their first bytes.
pub proof fn lemma_files_told_apart(
    r: RegistryView,
    digest: [u8; crate::cache::KEY_DIGEST_LEN],
    expected: Seq<u8>,
)
    ensures
        sidecar_registry(crate::cache::cache_bytes(r, digest)) == Err::<
            RegistryView,
            SidecarErrorView,
        >(SidecarErrorView::BadMagic { found: crate::cache::CACHE_MAGIC@ }),
        crate::cache::cache_registry(sidecar_bytes(r), expected) == Err::<
            RegistryView,
            crate::cache::CacheErrorView,
        >(crate::cache::CacheErrorView::BadMagic { found: SIDECAR_MAGIC@ }),
{
    let c = crate::cache::cache_bytes(r, digest);
    let s = sidecar_bytes(r);
    crate::cache::lemma_cache_file_start(r, digest);
    lemma_sidecar_file_start(r);
    assert(SIDECAR_MAGIC@[3] != crate::cache::CACHE_MAGIC@[3]);
}

/// A sidecar file starts with its magic and is no shorter than a header.
proof fn lemma_sidecar_file_start(r: RegistryView)
    ensures
        sidecar_bytes(r).len() >= HEADER_SIZE,
        part(sidecar_bytes(r), 0, 4) == SIDECAR_MAGIC@,
{
    let payload = ToylangRegistry::enc(r);
    let h = SidecarHeader {
        skyc_version_major: SKYC_VERSION_MAJOR,
        skyc_version_minor: SKYC_VERSION_MINOR,
        format_version: CURRENT_FORMAT_VERSION,
        capabilities: 0,
        payload_offset: DEFAULT_PAYLOAD_OFFSET,
        payload_length: payload.len() as u64,
        payload_checksum: short_hash(payload),
    };
    lemma_header_len(h);
    assert(part(sidecar_bytes(r), 0, 4) =~= SIDECAR_MAGIC@);
}

} // verus!
