//! The key of a cache entry: a digest of everything that the entry was made
//! from.
//!
//! The inputs fall into axes. The digest takes the axes in the order of
//! [`CacheKeyAxis::all`], each behind its name; the build script asks for a
//! new run when an input of any axis changes.
use crate::frame::append_le;
use crate::hash::{blake3_hash, hash_bytes};
use crate::text::{has_prefix, lemma_text_lt_irreflexive, lemma_text_lt_total, lemma_text_lt_transitive, owned, text_lt, text_precedes, views};
use crate::wire::{append_bytes, le_bytes, lemma_le_round_trip, lemma_pow256_values};
use vstd::prelude::*;
use vstd::string::*;
use vstd::utf8::encode_utf8;

verus! {

broadcast use {
    vstd::seq::group_seq_axioms,
    vstd::std_specs::vec::group_vec_axioms,
    vstd::array::group_array_axioms,
};

/// One kind of input that decides which cache entry is meant.
#[derive(Debug, Clone, Copy, PartialEq, Eq, Hash, Structural)]
pub enum CacheKeyAxis {
    /// The compiler, by the hash of its executable.
    SkycBinaryHash,
    /// The version of the cache format.
    FormatVersion,
    /// The hashes of the crate's own source files.
    LocalSourceHashes,
    /// The digests of all crates that this one depends on.
    UpstreamCacheDigests,
    /// The target of the compilation.
    TargetTriple,
    /// The hash of the project file.
    SkyTomlHash,
    /// The hashes of the annotation files.
    AnnotationFileHashes,
}

/// All axes, in the order in which they enter the digest.
pub open spec fn all_axes() -> Seq<CacheKeyAxis> {
    seq![
        CacheKeyAxis::SkycBinaryHash,
        CacheKeyAxis::FormatVersion,
        CacheKeyAxis::LocalSourceHashes,
        CacheKeyAxis::UpstreamCacheDigests,
        CacheKeyAxis::TargetTriple,
        CacheKeyAxis::SkyTomlHash,
        CacheKeyAxis::AnnotationFileHashes,
    ]
}

/// The name of an axis.
pub open spec fn axis_name(axis: CacheKeyAxis) -> Seq<char> {
    match axis {
        CacheKeyAxis::SkycBinaryHash => "skyc-binary-hash"@,
        CacheKeyAxis::FormatVersion => "format-version"@,
        CacheKeyAxis::LocalSourceHashes => "local-source-hashes"@,
        CacheKeyAxis::UpstreamCacheDigests => "upstream-cache-digests"@,
        CacheKeyAxis::TargetTriple => "target-triple"@,
        CacheKeyAxis::SkyTomlHash => "sky-toml-hash"@,
        CacheKeyAxis::AnnotationFileHashes => "annotation-file-hashes"@,
    }
}

impl CacheKeyAxis {
    /// All axes, in the order in which they enter the digest.
    pub fn all() -> (r: Vec<CacheKeyAxis>)
        ensures
            r@ == all_axes(),
    {
        let r = vec![
            CacheKeyAxis::SkycBinaryHash,
            CacheKeyAxis::FormatVersion,
            CacheKeyAxis::LocalSourceHashes,
            CacheKeyAxis::UpstreamCacheDigests,
            CacheKeyAxis::TargetTriple,
            CacheKeyAxis::SkyTomlHash,
            CacheKeyAxis::AnnotationFileHashes,
        ];
        assert(r@ =~= all_axes());
        r
    }

    /// The name of the axis.
    pub fn name(self) -> (r: &'static str)
        ensures
            r@ == axis_name(self),
    {
        match self {
            CacheKeyAxis::SkycBinaryHash => "skyc-binary-hash",
            CacheKeyAxis::FormatVersion => "format-version",
            CacheKeyAxis::LocalSourceHashes => "local-source-hashes",
            CacheKeyAxis::UpstreamCacheDigests => "upstream-cache-digests",
            CacheKeyAxis::TargetTriple => "target-triple",
            CacheKeyAxis::SkyTomlHash => "sky-toml-hash",
            CacheKeyAxis::AnnotationFileHashes => "annotation-file-hashes",
        }
    }
}

/// Every axis is among all axes.
pub proof fn lemma_all_axes_complete(axis: CacheKeyAxis)
    ensures
        all_axes().contains(axis),
        all_axes().no_duplicates(),
{
    let i: int = match axis {
        CacheKeyAxis::SkycBinaryHash => 0,
        CacheKeyAxis::FormatVersion => 1,
        CacheKeyAxis::LocalSourceHashes => 2,
        CacheKeyAxis::UpstreamCacheDigests => 3,
        CacheKeyAxis::TargetTriple => 4,
        CacheKeyAxis::SkyTomlHash => 5,
        CacheKeyAxis::AnnotationFileHashes => 6,
    };
    assert(all_axes()[i] == axis);
}

/// What a cache entry is made from. The order of the collections does not
/// matter.
#[derive(Debug, Clone, PartialEq)]
pub struct CacheKeyInputs {
    pub skyc_binary_hash: [u8; 32],
    pub format_version: u32,
    /// The source files, by name and hash.
    pub local_source_hashes: Vec<(String, [u8; 32])>,
    /// The crates that this one depends on, by name and digest.
    pub upstream_cache_digests: Vec<(String, [u8; 16])>,
    pub target_triple: String,
    /// Where the manifest is. It is not part of the key.
    pub sky_toml_path: String,
    pub sky_toml_hash: [u8; 32],
    /// The annotation files, by name and hash.
    pub annotation_file_hashes: Vec<(String, [u8; 32])>,
}

/// What a [`CacheKeyInputs`] says.
pub struct CacheKeyInputsView {
    pub skyc_binary_hash: Seq<u8>,
    pub format_version: u32,
    pub local_source_hashes: Seq<(Seq<char>, Seq<u8>)>,
    pub upstream_cache_digests: Seq<(Seq<char>, Seq<u8>)>,
    pub target_triple: Seq<char>,
    pub sky_toml_path: Seq<char>,
    pub sky_toml_hash: Seq<u8>,
    pub annotation_file_hashes: Seq<(Seq<char>, Seq<u8>)>,
}

/// The views of named hashes.
pub open spec fn named_views<const N: usize>(s: Seq<(String, [u8; N])>) -> Seq<
    (Seq<char>, Seq<u8>),
> {
    Seq::new(s.len(), |i: int| (s[i].0@, s[i].1@))
}

impl View for CacheKeyInputs {
    type V = CacheKeyInputsView;

    open spec fn view(&self) -> CacheKeyInputsView {
        CacheKeyInputsView {
            skyc_binary_hash: self.skyc_binary_hash@,
            format_version: self.format_version,
            local_source_hashes: named_views(self.local_source_hashes@),
            upstream_cache_digests: named_views(self.upstream_cache_digests@),
            target_triple: self.target_triple@,
            sky_toml_path: self.sky_toml_path@,
            sky_toml_hash: self.sky_toml_hash@,
            annotation_file_hashes: named_views(self.annotation_file_hashes@),
        }
    }
}

impl Default for CacheKeyInputs {
    fn default() -> (r: Self)
        ensures
            r@.skyc_binary_hash == Seq::new(32, |i: int| 0u8),
            r@.format_version == 0,
            r@.local_source_hashes.len() == 0,
            r@.upstream_cache_digests.len() == 0,
            r@.target_triple.len() == 0,
            r@.sky_toml_path == "toylang.toml"@,
            r@.sky_toml_hash == Seq::new(32, |i: int| 0u8),
            r@.annotation_file_hashes.len() == 0,
    {
        let r = CacheKeyInputs {
            skyc_binary_hash: [0u8; 32],
            format_version: 0,
            local_source_hashes: Vec::new(),
            upstream_cache_digests: Vec::new(),
            target_triple: String::new(),
            sky_toml_path: owned("toylang.toml"),
            sky_toml_hash: [0u8; 32],
            annotation_file_hashes: Vec::new(),
        };
        assert(r@.skyc_binary_hash =~= Seq::new(32, |i: int| 0u8));
        assert(r@.sky_toml_hash =~= Seq::new(32, |i: int| 0u8));
        r
    }
}

/// `items`, which are in the order of their names, with one more at its
/// place, behind those of the same name.
pub open spec fn insert_sorted(
    items: Seq<(Seq<char>, Seq<u8>)>,
    item: (Seq<char>, Seq<u8>),
) -> Seq<(Seq<char>, Seq<u8>)>
    decreases items.len(),
{
    if items.len() > 0 && text_lt(item.0, items.last().0) {
        insert_sorted(items.drop_last(), item).push(items.last())
    } else {
        items.push(item)
    }
}

/// Items in the order of their names. Those of one name keep their order.
pub open spec fn sorted_by_name(items: Seq<(Seq<char>, Seq<u8>)>) -> Seq<(Seq<char>, Seq<u8>)>
    decreases items.len(),
{
    if items.len() == 0 {
        items
    } else {
        insert_sorted(sorted_by_name(items.drop_last()), items.last())
    }
}

/// A text with its length before it, as it enters the digest.
pub open spec fn key_text(s: Seq<char>) -> Seq<u8> {
    le_bytes(encode_utf8(s).len(), 4) + encode_utf8(s)
}

/// Named hashes, one behind the other, as they enter the digest.
pub open spec fn key_items(items: Seq<(Seq<char>, Seq<u8>)>) -> Seq<u8>
    decreases items.len(),
{
    if items.len() == 0 {
        Seq::empty()
    } else {
        key_text(items[0].0) + items[0].1 + key_items(items.drop_first())
    }
}

/// A collection as it enters the digest: its size, then its items in the
/// order of their names.
pub open spec fn key_collection(items: Seq<(Seq<char>, Seq<u8>)>) -> Seq<u8> {
    le_bytes(items.len(), 4) + key_items(sorted_by_name(items))
}

/// What one axis brings to the digest, behind its name.
pub open spec fn axis_payload(axis: CacheKeyAxis, inputs: CacheKeyInputsView) -> Seq<u8> {
    match axis {
        CacheKeyAxis::SkycBinaryHash => inputs.skyc_binary_hash,
        CacheKeyAxis::FormatVersion => le_bytes(inputs.format_version as nat, 4),
        CacheKeyAxis::LocalSourceHashes => key_collection(inputs.local_source_hashes),
        CacheKeyAxis::UpstreamCacheDigests => key_collection(inputs.upstream_cache_digests),
        CacheKeyAxis::TargetTriple => key_text(inputs.target_triple),
        CacheKeyAxis::SkyTomlHash => inputs.sky_toml_hash,
        CacheKeyAxis::AnnotationFileHashes => key_collection(inputs.annotation_file_hashes),
    }
}

/// What some axes bring to the digest.
pub open spec fn axes_bytes(axes: Seq<CacheKeyAxis>, inputs: CacheKeyInputsView) -> Seq<u8>
    decreases axes.len(),
{
    if axes.len() == 0 {
        Seq::empty()
    } else {
        key_text(axis_name(axes[0])) + (axis_payload(axes[0], inputs) + axes_bytes(
            axes.drop_first(),
            inputs,
        ))
    }
}

/// What the digest is the hash of.
pub open spec fn canonical_bytes(inputs: CacheKeyInputsView) -> Seq<u8> {
    axes_bytes(all_axes(), inputs)
}

/// The digest of the inputs: the first sixteen bytes of the hash.
pub open spec fn key_digest(inputs: CacheKeyInputsView) -> Seq<u8> {
    blake3_hash(canonical_bytes(inputs)).take(16)
}

/// Appends a text with its length before it.
fn append_key_text(out: &mut Vec<u8>, s: &str)
    ensures
        final(out)@ == old(out)@ + key_text(s@),
{
    let bytes = s.as_bytes();
    append_le(out, bytes.len() as u64, 4);
    append_bytes(out, bytes);
    assert(out@ =~= old(out)@ + key_text(s@));
}

/// A name with a hash.
struct NamedBytes {
    name: String,
    bytes: Vec<u8>,
}

impl View for NamedBytes {
    type V = (Seq<char>, Seq<u8>);

    closed spec fn view(&self) -> (Seq<char>, Seq<u8>) {
        (self.name@, self.bytes@)
    }
}

fn named_items<const N: usize>(items: &Vec<(String, [u8; N])>) -> (r: Vec<NamedBytes>)
    ensures
        views(r@) == named_views(items@),
{
    let mut r: Vec<NamedBytes> = Vec::new();
    let mut i: usize = 0;
    while i < items.len()
        invariant
            i == r@.len(),
            i <= items@.len(),
            forall|j: int| 0 <= j < i ==> (#[trigger] r@[j])@ == (items@[j].0@, items@[j].1@),
        decreases items@.len() - i,
    {
        let mut bytes: Vec<u8> = Vec::new();
        append_bytes(&mut bytes, items[i].1.as_slice());
        assert(bytes@ =~= items@[i as int].1@);
        r.push(NamedBytes { name: items[i].0.clone(), bytes });
        i += 1;
    }
    assert(views(r@) =~= named_views(items@));
    r
}

/// `insert_sorted` where the place is known.
proof fn lemma_insert_sorted_at(
    items: Seq<(Seq<char>, Seq<u8>)>,
    item: (Seq<char>, Seq<u8>),
    at: int,
)
    requires
        0 <= at <= items.len(),
        forall|i: int| at <= i < items.len() ==> text_lt(item.0, (#[trigger] items[i]).0),
        at > 0 ==> !text_lt(item.0, items[at - 1].0),
    ensures
        insert_sorted(items, item) == items.insert(at, item),
    decreases items.len() - at,
{
    if at == items.len() {
        assert(items.insert(at, item) =~= items.push(item));
    } else {
        assert(text_lt(item.0, items.last().0));
        lemma_insert_sorted_at(items.drop_last(), item, at);
        assert(items.insert(at, item) =~= items.drop_last().insert(at, item).push(items.last()));
    }
}

fn sort_items(items: Vec<NamedBytes>) -> (r: Vec<NamedBytes>)
    ensures
        views(r@) == sorted_by_name(views(items@)),
        r@.len() == items@.len(),
{
    let ghost all = views(items@);
    let mut rest = items;
    let mut r: Vec<NamedBytes> = Vec::new();
    let n = rest.len();
    let mut i: usize = 0;
    assert(all.take(0) =~= Seq::empty());
    assert(views(r@) =~= sorted_by_name(all.take(0)));
    while i < n
        invariant
            i <= n,
            n == all.len(),
            rest@.len() == n - i,
            r@.len() == i,
            forall|j: int| 0 <= j < rest@.len() ==> (#[trigger] rest@[j])@ == all[i + j],
            views(r@) == sorted_by_name(all.take(i as int)),
        decreases n - i,
    {
        assert(rest@[0]@ == all[i + 0]);
        let ghost before_rest = rest@;
        let item = rest.remove(0);
        assert forall|j: int| 0 <= j < rest@.len() implies (#[trigger] rest@[j])@ == all[i + 1 + j] by {
            assert(rest@[j] == before_rest[j + 1]);
        }
        let ghost done = views(r@);
        let ghost view = item@;
        let mut at: usize = r.len();
        while at > 0 && text_precedes(&item.name, &r[at - 1].name)
            invariant
                at <= r@.len(),
                done == views(r@),
                view == item@,
                forall|k: int| at <= k < r@.len() ==> text_lt(view.0, (#[trigger] done[k]).0),
            decreases at,
        {
            assert(done[at - 1].0 == r@[at - 1].name@);
            at -= 1;
        }
        proof {
            if at > 0 {
                assert(done[at - 1].0 == r@[at - 1].name@);
            }
            lemma_insert_sorted_at(done, view, at as int);
            assert(all.take(i + 1).drop_last() =~= all.take(i as int));
            assert(all.take(i + 1).last() == view);
        }
        r.insert(at, item);
        assert(views(r@) =~= done.insert(at as int, view));
        i += 1;
    }
    assert(all.take(n as int) =~= all);
    r
}

/// Whether the names and the number of some items fit in the widths that the
/// digest gives them.
pub open spec fn items_fit(items: Seq<(Seq<char>, Seq<u8>)>) -> bool {
    &&& items.len() <= u32::MAX
    &&& forall|i: int|
        0 <= i < items.len() ==> encode_utf8((#[trigger] items[i]).0).len() <= u32::MAX
}

/// Whether every length of the inputs fits in 32 bits.
pub open spec fn inputs_fit(inputs: CacheKeyInputsView) -> bool {
    &&& items_fit(inputs.local_source_hashes)
    &&& items_fit(inputs.upstream_cache_digests)
    &&& items_fit(inputs.annotation_file_hashes)
    &&& encode_utf8(inputs.target_triple).len() <= u32::MAX
}

proof fn lemma_key_items_push(items: Seq<(Seq<char>, Seq<u8>)>, item: (Seq<char>, Seq<u8>))
    ensures
        key_items(items.push(item)) == key_items(items) + (key_text(item.0) + item.1),
    decreases items.len(),
{
    let pushed = items.push(item);
    if items.len() == 0 {
        assert(pushed.drop_first() =~= items);
        assert(key_items(pushed) =~= key_items(items) + (key_text(item.0) + item.1));
    } else {
        assert(pushed.drop_first() =~= items.drop_first().push(item));
        lemma_key_items_push(items.drop_first(), item);
        assert(key_items(pushed) =~= key_items(items) + (key_text(item.0) + item.1));
    }
}

/// Sorting keeps the number of the items.
proof fn lemma_sorted_len(items: Seq<(Seq<char>, Seq<u8>)>)
    ensures
        sorted_by_name(items).len() == items.len(),
    decreases items.len(),
{
    if items.len() > 0 {
        lemma_sorted_len(items.drop_last());
        lemma_insert_sorted_len(sorted_by_name(items.drop_last()), items.last());
    }
}

proof fn lemma_insert_sorted_len(items: Seq<(Seq<char>, Seq<u8>)>, item: (Seq<char>, Seq<u8>))
    ensures
        insert_sorted(items, item).len() == items.len() + 1,
    decreases items.len(),
{
    if items.len() > 0 && text_lt(item.0, items.last().0) {
        lemma_insert_sorted_len(items.drop_last(), item);
    }
}

/// Appends a collection as it enters the digest.
fn append_collection<const N: usize>(out: &mut Vec<u8>, items: &Vec<(String, [u8; N])>)
    ensures
        final(out)@ == old(out)@ + key_collection(named_views(items@)),
{
    let ghost before = out@;
    let ghost all = sorted_by_name(named_views(items@));
    append_le(out, items.len() as u64, 4);
    let sorted = sort_items(named_items(items));
    proof {
        lemma_sorted_len(named_views(items@));
    }
    let ghost head = le_bytes(items@.len(), 4);
    let mut i: usize = 0;
    assert(all.take(0) =~= Seq::empty());
    assert(out@ =~= before + (head + key_items(all.take(0))));
    while i < sorted.len()
        invariant
            i <= sorted@.len(),
            all == views(sorted@),
            out@ == before + (head + key_items(all.take(i as int))),
        decreases sorted@.len() - i,
    {
        let ghost so_far = out@;
        append_key_text(out, &sorted[i].name);
        append_bytes(out, sorted[i].bytes.as_slice());
        proof {
            let one = sorted@[i as int]@;
            assert(all.take(i + 1) =~= all.take(i as int).push(one));
            lemma_key_items_push(all.take(i as int), one);
            assert(out@ =~= so_far + (key_text(one.0) + one.1));
            assert(out@ =~= before + (head + key_items(all.take(i + 1))));
        }
        i += 1;
    }
    assert(all.take(sorted@.len() as int) =~= all);
    assert(out@ =~= before + key_collection(named_views(items@)));
}

/// What the digest is the hash of.
fn canonical_encoding(inputs: &CacheKeyInputs) -> (out: Vec<u8>)
    ensures
        out@ == canonical_bytes(inputs@),
{
    let axes = CacheKeyAxis::all();
    let mut out: Vec<u8> = Vec::new();
    let mut i: usize = 0;
    assert(axes@.skip(0) =~= axes@);
    assert(out@ + axes_bytes(axes@.skip(0), inputs@) =~= canonical_bytes(inputs@));
    while i < axes.len()
        invariant
            i <= axes@.len(),
            axes@ == all_axes(),
            out@ + axes_bytes(axes@.skip(i as int), inputs@) == canonical_bytes(inputs@),
        decreases axes@.len() - i,
    {
        let ghost before = out@;
        let axis = axes[i];
        append_key_text(&mut out, axis.name());
        match axis {
            CacheKeyAxis::SkycBinaryHash => {
                append_bytes(&mut out, inputs.skyc_binary_hash.as_slice());
            },
            CacheKeyAxis::FormatVersion => {
                append_le(&mut out, inputs.format_version as u64, 4);
            },
            CacheKeyAxis::LocalSourceHashes => {
                append_collection(&mut out, &inputs.local_source_hashes);
            },
            CacheKeyAxis::UpstreamCacheDigests => {
                append_collection(&mut out, &inputs.upstream_cache_digests);
            },
            CacheKeyAxis::TargetTriple => {
                append_key_text(&mut out, &inputs.target_triple);
            },
            CacheKeyAxis::SkyTomlHash => {
                append_bytes(&mut out, inputs.sky_toml_hash.as_slice());
            },
            CacheKeyAxis::AnnotationFileHashes => {
                append_collection(&mut out, &inputs.annotation_file_hashes);
            },
        }
        proof {
            let rest = axes_bytes(axes@.skip(i + 1), inputs@);
            assert(axes@.skip(i as int).drop_first() =~= axes@.skip(i + 1));
            assert(out@ =~= before + key_text(axis_name(axis)) + axis_payload(axis, inputs@));
            assert(out@ + rest =~= before + (key_text(axis_name(axis)) + (axis_payload(
                axis,
                inputs@,
            ) + rest)));
        }
        i += 1;
    }
    assert(out@ + axes_bytes(axes@.skip(i as int), inputs@) =~= out@);
    out
}

/// The digest of the inputs.
pub fn compute_cache_key_digest(inputs: &CacheKeyInputs) -> (r: [u8; 16])
    ensures
        r@ == key_digest(inputs@),
{
    let bytes = canonical_encoding(inputs);
    let hash = hash_bytes(bytes.as_slice());
    let r = crate::frame::sixteen_at(hash.as_slice(), 0);
    assert(r@ =~= hash@.take(16));
    r
}

/// A line that asks for a new run when a file changes.
pub open spec fn file_line(path: Seq<char>) -> Seq<char> {
    "cargo:rerun-if-changed="@ + path
}

/// The lines of the build script for one axis. Cargo itself sees when a crate
/// that this one depends on changes.
pub open spec fn axis_lines(axis: CacheKeyAxis, inputs: CacheKeyInputsView) -> Seq<Seq<char>> {
    match axis {
        CacheKeyAxis::SkycBinaryHash => seq!["cargo:rerun-if-env-changed=SKYC_BINARY_HASH"@],
        CacheKeyAxis::FormatVersion => seq![
            "cargo:rerun-if-env-changed=SKYC_CACHE_FORMAT_VERSION"@,
        ],
        CacheKeyAxis::LocalSourceHashes => Seq::new(
            inputs.local_source_hashes.len(),
            |i: int| file_line(inputs.local_source_hashes[i].0),
        ),
        CacheKeyAxis::UpstreamCacheDigests => Seq::empty(),
        CacheKeyAxis::TargetTriple => seq![
            "cargo:rerun-if-env-changed=CARGO_CFG_TARGET_ARCH"@,
            "cargo:rerun-if-env-changed=CARGO_CFG_TARGET_OS"@,
            "cargo:rerun-if-env-changed=CARGO_CFG_TARGET_ENV"@,
            "cargo:rerun-if-env-changed=CARGO_CFG_TARGET_VENDOR"@,
        ],
        CacheKeyAxis::SkyTomlHash => seq![file_line(inputs.sky_toml_path)],
        CacheKeyAxis::AnnotationFileHashes => Seq::new(
            inputs.annotation_file_hashes.len(),
            |i: int| file_line(inputs.annotation_file_hashes[i].0),
        ),
    }
}

/// The lines of the build script for some axes.
pub open spec fn axes_lines(axes: Seq<CacheKeyAxis>, inputs: CacheKeyInputsView) -> Seq<Seq<char>>
    decreases axes.len(),
{
    if axes.len() == 0 {
        Seq::empty()
    } else {
        axes_lines(axes.drop_last(), inputs) + axis_lines(axes.last(), inputs)
    }
}

/// Appends one line for each file.
fn append_file_lines(lines: &mut Vec<String>, files: &Vec<(String, [u8; 32])>)
    ensures
        views(final(lines)@) == views(old(lines)@) + Seq::new(
            files@.len(),
            |i: int| file_line(named_views(files@)[i].0),
        ),
{
    let ghost before = views(lines@);
    let ghost all = Seq::new(files@.len(), |i: int| file_line(named_views(files@)[i].0));
    let mut i: usize = 0;
    assert(views(lines@) =~= before + all.take(0));
    while i < files.len()
        invariant
            i <= files@.len(),
            all == Seq::new(files@.len(), |i: int| file_line(named_views(files@)[i].0)),
            views(lines@) == before + all.take(i as int),
        decreases files@.len() - i,
    {
        let ghost so_far = views(lines@);
        let mut line = owned("cargo:rerun-if-changed=");
        line.append(&files[i].0);
        let ghost view = line@;
        lines.push(line);
        assert(view == all[i as int]);
        assert(views(lines@) =~= so_far.push(view));
        assert(all.take(i + 1) =~= all.take(i as int).push(view));
        assert(views(lines@) =~= before + all.take(i + 1));
        i += 1;
    }
    assert(all.take(files@.len() as int) =~= all);
}

/// Appends a line.
fn append_line(lines: &mut Vec<String>, line: &str)
    ensures
        views(final(lines)@) == views(old(lines)@).push(line@),
{
    let ghost before = views(lines@);
    lines.push(owned(line));
    assert(views(lines@) =~= before.push(line@));
}

/// The lines by which a build script asks for a new run when an input of any
/// axis changes.
pub fn build_rs_rerun_lines(inputs: &CacheKeyInputs) -> (lines: Vec<String>)
    ensures
        views(lines@) == axes_lines(all_axes(), inputs@),
{
    let axes = CacheKeyAxis::all();
    let mut lines: Vec<String> = Vec::new();
    let mut i: usize = 0;
    assert(axes@.take(0) =~= Seq::empty());
    assert(views(lines@) =~= axes_lines(axes@.take(0), inputs@));
    while i < axes.len()
        invariant
            i <= axes@.len(),
            axes@ == all_axes(),
            views(lines@) == axes_lines(axes@.take(i as int), inputs@),
        decreases axes@.len() - i,
    {
        let ghost before = views(lines@);
        let axis = axes[i];
        match axis {
            CacheKeyAxis::SkycBinaryHash => {
                append_line(&mut lines, "cargo:rerun-if-env-changed=SKYC_BINARY_HASH");
            },
            CacheKeyAxis::FormatVersion => {
                append_line(&mut lines, "cargo:rerun-if-env-changed=SKYC_CACHE_FORMAT_VERSION");
            },
            CacheKeyAxis::LocalSourceHashes => {
                append_file_lines(&mut lines, &inputs.local_source_hashes);
            },
            CacheKeyAxis::UpstreamCacheDigests => {},
            CacheKeyAxis::TargetTriple => {
                append_line(&mut lines, "cargo:rerun-if-env-changed=CARGO_CFG_TARGET_ARCH");
                append_line(&mut lines, "cargo:rerun-if-env-changed=CARGO_CFG_TARGET_OS");
                append_line(&mut lines, "cargo:rerun-if-env-changed=CARGO_CFG_TARGET_ENV");
                append_line(&mut lines, "cargo:rerun-if-env-changed=CARGO_CFG_TARGET_VENDOR");
            },
            CacheKeyAxis::SkyTomlHash => {
                let mut line = owned("cargo:rerun-if-changed=");
                line.append(&inputs.sky_toml_path);
                let ghost view = line@;
                lines.push(line);
                assert(views(lines@) =~= before.push(view));
            },
            CacheKeyAxis::AnnotationFileHashes => {
                append_file_lines(&mut lines, &inputs.annotation_file_hashes);
            },
        }
        proof {
            assert(axes@.take(i + 1).drop_last() =~= axes@.take(i as int));
            assert(views(lines@) =~= before + axis_lines(axis, inputs@));
        }
        i += 1;
    }
    assert(axes@.take(axes@.len() as int) =~= axes@);
    lines
}

impl CacheKeyInputs {
    /// The lines by which a build script asks for a new run when an input of
    /// any axis changes.
    pub fn build_rs_rerun_lines(&self) -> (lines: Vec<String>)
        ensures
            views(lines@) == axes_lines(all_axes(), self@),
    {
        build_rs_rerun_lines(self)
    }
}

/// Every axis asks for a new run when one of its inputs changes: its lines are
/// among those of the build script, and there are none only for the crates
/// that this one depends on, and for files where there are no files.
pub proof fn lemma_every_axis_reruns(axis: CacheKeyAxis, inputs: CacheKeyInputsView)
    ensures
        forall|k: int|
            0 <= k < axis_lines(axis, inputs).len() ==> axes_lines(all_axes(), inputs).contains(
                #[trigger] axis_lines(axis, inputs)[k],
            ),
        axis_lines(axis, inputs).len() == 0 ==> match axis {
            CacheKeyAxis::LocalSourceHashes => inputs.local_source_hashes.len() == 0,
            CacheKeyAxis::AnnotationFileHashes => inputs.annotation_file_hashes.len() == 0,
            _ => axis == CacheKeyAxis::UpstreamCacheDigests,
        },
{
    lemma_all_axes_complete(axis);
    let i = choose|i: int| 0 <= i < all_axes().len() && all_axes()[i] == axis;
    lemma_lines_kept(all_axes(), i, inputs);
}

/// Whether a path is one of the files of some inputs.
pub open spec fn is_input_file(inputs: CacheKeyInputsView, path: Seq<char>) -> bool {
    ||| path == inputs.sky_toml_path
    ||| exists|i: int|
        0 <= i < inputs.local_source_hashes.len() && (
        #[trigger] inputs.local_source_hashes[i]).0 == path
    ||| exists|i: int|
        0 <= i < inputs.annotation_file_hashes.len() && (
        #[trigger] inputs.annotation_file_hashes[i]).0 == path
}

/// Whether a line asks for a new run when a file of some inputs changes.
pub open spec fn is_file_line(inputs: CacheKeyInputsView, line: Seq<char>) -> bool {
    exists|path: Seq<char>| #[trigger]
        is_input_file(inputs, path) && line == file_line(path)
}

/// Whether a path starts at the root.
pub open spec fn is_absolute(path: Seq<char>) -> bool {
    path.len() > 0 && path[0] == '/'
}

/// Where all files of some inputs have absolute paths, every line that asks
/// for a new run when a file changes goes on with an absolute path, that of
/// one of these files.
pub proof fn lemma_absolute_lines(inputs: CacheKeyInputsView)
    requires
        forall|path: Seq<char>| #[trigger] is_input_file(inputs, path) ==> is_absolute(path),
    ensures
        forall|k: int|
            0 <= k < axes_lines(all_axes(), inputs).len() && has_prefix(
                #[trigger] axes_lines(all_axes(), inputs)[k],
                file_line(Seq::empty()),
            ) ==> is_file_line(inputs, axes_lines(all_axes(), inputs)[k]) && is_absolute(
                axes_lines(all_axes(), inputs)[k].skip(file_line(Seq::empty()).len() as int),
            ),
{
    let lines = axes_lines(all_axes(), inputs);
    let start = file_line(Seq::empty());
    assert(start =~= "cargo:rerun-if-changed="@);
    assert forall|k: int| 0 <= k < lines.len() && has_prefix(#[trigger] lines[k], start) implies is_file_line(
        inputs,
        lines[k],
    ) && is_absolute(lines[k].skip(start.len() as int)) by {
        lemma_file_lines(all_axes(), inputs, k);
        let path = choose|path: Seq<char>| #[trigger]
            is_input_file(inputs, path) && lines[k] == file_line(path);
        assert(lines[k].skip(start.len() as int) =~= path);
    }
}

/// A line for a file is that of a file of the inputs.
proof fn lemma_file_lines(axes: Seq<CacheKeyAxis>, inputs: CacheKeyInputsView, k: int)
    requires
        0 <= k < axes_lines(axes, inputs).len(),
        has_prefix(axes_lines(axes, inputs)[k], "cargo:rerun-if-changed="@),
    ensures
        is_file_line(inputs, axes_lines(axes, inputs)[k]),
    decreases axes.len(),
{
    let before = axes_lines(axes.drop_last(), inputs);
    let last = axis_lines(axes.last(), inputs);
    if k < before.len() {
        lemma_file_lines(axes.drop_last(), inputs, k);
    } else {
        let i = k - before.len();
        let line = last[i];
        assert(axes_lines(axes, inputs)[k] == line);
        match axes.last() {
            CacheKeyAxis::LocalSourceHashes => {
                assert(is_input_file(inputs, inputs.local_source_hashes[i].0));
            },
            CacheKeyAxis::AnnotationFileHashes => {
                assert(is_input_file(inputs, inputs.annotation_file_hashes[i].0));
            },
            CacheKeyAxis::SkyTomlHash => {
                assert(is_input_file(inputs, inputs.sky_toml_path));
            },
            _ => {
                reveal_strlit("cargo:rerun-if-changed=");
                reveal_strlit("cargo:rerun-if-env-changed=SKYC_BINARY_HASH");
                reveal_strlit("cargo:rerun-if-env-changed=SKYC_CACHE_FORMAT_VERSION");
                reveal_strlit("cargo:rerun-if-env-changed=CARGO_CFG_TARGET_ARCH");
                reveal_strlit("cargo:rerun-if-env-changed=CARGO_CFG_TARGET_OS");
                reveal_strlit("cargo:rerun-if-env-changed=CARGO_CFG_TARGET_ENV");
                reveal_strlit("cargo:rerun-if-env-changed=CARGO_CFG_TARGET_VENDOR");
                assert(line[15] == 'e');
                assert("cargo:rerun-if-changed="@[15] == 'c');
            },
        }
    }
}

proof fn lemma_lines_kept(axes: Seq<CacheKeyAxis>, i: int, inputs: CacheKeyInputsView)
    requires
        0 <= i < axes.len(),
    ensures
        forall|k: int|
            0 <= k < axis_lines(axes[i], inputs).len() ==> axes_lines(axes, inputs).contains(
                #[trigger] axis_lines(axes[i], inputs)[k],
            ),
    decreases axes.len(),
{
    let before = axes_lines(axes.drop_last(), inputs);
    let last = axis_lines(axes.last(), inputs);
    if i < axes.len() - 1 {
        lemma_lines_kept(axes.drop_last(), i, inputs);
    }
    assert forall|k: int| 0 <= k < axis_lines(axes[i], inputs).len() implies axes_lines(
        axes,
        inputs,
    ).contains(#[trigger] axis_lines(axes[i], inputs)[k]) by {
        let line = axis_lines(axes[i], inputs)[k];
        if i < axes.len() - 1 {
            assert(axes.drop_last()[i] == axes[i]);
            assert(before.contains(line));
            let j = choose|j: int| 0 <= j < before.len() && before[j] == line;
            assert((before + last)[j] == line);
        } else {
            assert((before + last)[before.len() + k] == line);
        }
    }
}

/// The names and the hashes of some files, given with their contents.
pub open spec fn hashed_files(files: Seq<(Seq<char>, Seq<u8>)>) -> Seq<(Seq<char>, Seq<u8>)> {
    Seq::new(files.len(), |i: int| (files[i].0, blake3_hash(files[i].1)))
}

/// The views of files: names and contents.
pub open spec fn file_views(s: Seq<(String, Vec<u8>)>) -> Seq<(Seq<char>, Seq<u8>)> {
    Seq::new(s.len(), |i: int| (s[i].0@, s[i].1@))
}

fn hash_files(files: &Vec<(String, Vec<u8>)>) -> (r: Vec<(String, [u8; 32])>)
    ensures
        named_views(r@) == hashed_files(file_views(files@)),
{
    let mut r: Vec<(String, [u8; 32])> = Vec::new();
    let mut i: usize = 0;
    while i < files.len()
        invariant
            i == r@.len(),
            i <= files@.len(),
            forall|j: int|
                0 <= j < i ==> (#[trigger] r@[j]).0@ == files@[j].0@ && r@[j].1@ == blake3_hash(
                    files@[j].1@,
                ),
        decreases files@.len() - i,
    {
        r.push((files[i].0.clone(), hash_bytes(files[i].1.as_slice())));
        i += 1;
    }
    assert(named_views(r@) =~= hashed_files(file_views(files@)));
    r
}

/// The inputs of the current crate, from the contents of its files.
pub fn build_inputs(
    skyc_binary_hash: [u8; 32],
    local_sources: &Vec<(String, Vec<u8>)>,
    upstream_cache_digests: Vec<(String, [u8; 16])>,
    target_triple: String,
    sky_toml: &(String, Vec<u8>),
    annotation_files: &Vec<(String, Vec<u8>)>,
) -> (r: CacheKeyInputs)
    ensures
        r@ == (CacheKeyInputsView {
            skyc_binary_hash: skyc_binary_hash@,
            format_version: crate::cache::CACHE_FORMAT_VERSION,
            local_source_hashes: hashed_files(file_views(local_sources@)),
            upstream_cache_digests: named_views(upstream_cache_digests@),
            target_triple: target_triple@,
            sky_toml_path: sky_toml.0@,
            sky_toml_hash: blake3_hash(sky_toml.1@),
            annotation_file_hashes: hashed_files(file_views(annotation_files@)),
        }),
{
    CacheKeyInputs {
        skyc_binary_hash,
        format_version: crate::cache::CACHE_FORMAT_VERSION,
        local_source_hashes: hash_files(local_sources),
        upstream_cache_digests,
        target_triple,
        sky_toml_path: sky_toml.0.clone(),
        sky_toml_hash: hash_bytes(sky_toml.1.as_slice()),
        annotation_file_hashes: hash_files(annotation_files),
    }
}

/// Whether no two items have the same name.
pub open spec fn names_differ(items: Seq<(Seq<char>, Seq<u8>)>) -> bool {
    forall|i: int, j: int|
        0 <= i < j < items.len() ==> (#[trigger] items[i]).0 != (#[trigger] items[j]).0
}

/// Whether two collections hold the same items.
pub open spec fn same_items(a: Seq<(Seq<char>, Seq<u8>)>, b: Seq<(Seq<char>, Seq<u8>)>) -> bool {
    forall|x: (Seq<char>, Seq<u8>)| a.contains(x) <==> b.contains(x)
}

/// Whether the names of some items strictly increase.
spec fn strictly_sorted(items: Seq<(Seq<char>, Seq<u8>)>) -> bool {
    forall|i: int, j: int|
        0 <= i < j < items.len() ==> text_lt((#[trigger] items[i]).0, (#[trigger] items[j]).0)
}

proof fn lemma_insert_keeps(items: Seq<(Seq<char>, Seq<u8>)>, item: (Seq<char>, Seq<u8>))
    requires
        strictly_sorted(items),
        forall|i: int| 0 <= i < items.len() ==> (#[trigger] items[i]).0 != item.0,
    ensures
        strictly_sorted(insert_sorted(items, item)),
        forall|x: (Seq<char>, Seq<u8>)| #[trigger]
            insert_sorted(items, item).contains(x) <==> (items.contains(x) || x == item),
    decreases items.len(),
{
    let out = insert_sorted(items, item);
    if items.len() > 0 && text_lt(item.0, items.last().0) {
        let rest = items.drop_last();
        assert forall|i: int| 0 <= i < rest.len() implies (#[trigger] rest[i]).0 != item.0 by {
            assert(rest[i] == items[i]);
        }
        assert(strictly_sorted(rest)) by {
            assert forall|i: int, j: int| 0 <= i < j < rest.len() implies text_lt(
                (#[trigger] rest[i]).0,
                (#[trigger] rest[j]).0,
            ) by {
                assert(rest[i] == items[i] && rest[j] == items[j]);
            }
        }
        lemma_insert_keeps(rest, item);
        let inner = insert_sorted(rest, item);
        assert forall|x: (Seq<char>, Seq<u8>)| out.contains(x) <==> (items.contains(x) || x
            == item) by {
            if out.contains(x) {
                let k = choose|k: int| 0 <= k < out.len() && out[k] == x;
                if k == inner.len() {
                    assert(items[items.len() - 1] == x);
                } else {
                    assert(inner[k] == x);
                    assert(inner.contains(x));
                    if rest.contains(x) {
                        let m = choose|m: int| 0 <= m < rest.len() && rest[m] == x;
                        assert(items[m] == x);
                    }
                }
            }
            if items.contains(x) {
                let m = choose|m: int| 0 <= m < items.len() && items[m] == x;
                if m == items.len() - 1 {
                    assert(out[inner.len() as int] == x);
                } else {
                    assert(rest[m] == x);
                    assert(rest.contains(x));
                    assert(inner.contains(x));
                    let k = choose|k: int| 0 <= k < inner.len() && inner[k] == x;
                    assert(out[k] == x);
                }
            }
            if x == item {
                assert(inner.contains(x) <==> (rest.contains(x) || x == item));
                let k = choose|k: int| 0 <= k < inner.len() && inner[k] == x;
                assert(out[k] == x);
            }
        }
        assert forall|i: int, j: int| 0 <= i < j < out.len() implies text_lt(
            (#[trigger] out[i]).0,
            (#[trigger] out[j]).0,
        ) by {
            if j < inner.len() {
                assert(inner[i] == out[i] && inner[j] == out[j]);
            } else {
                assert(inner[i] == out[i]);
                assert(inner.contains(inner[i]));
                if inner[i] != item {
                    assert(rest.contains(inner[i]));
                    let m = choose|m: int| 0 <= m < rest.len() && rest[m] == inner[i];
                    assert(items[m] == rest[m]);
                }
            }
        }
    } else {
        assert forall|i: int, j: int| 0 <= i < j < out.len() implies text_lt(
            (#[trigger] out[i]).0,
            (#[trigger] out[j]).0,
        ) by {
            assert(out[i] == items[i]);
            if j == items.len() {
                lemma_text_lt_total(item.0, items.last().0);
                if i < items.len() - 1 {
                    assert(text_lt(items[i].0, items[items.len() - 1].0));
                    lemma_text_lt_transitive(items[i].0, items.last().0, item.0);
                }
            } else {
                assert(out[j] == items[j]);
            }
        }
        assert forall|x: (Seq<char>, Seq<u8>)| out.contains(x) <==> (items.contains(x) || x
            == item) by {
            if out.contains(x) {
                let k = choose|k: int| 0 <= k < out.len() && out[k] == x;
                if k < items.len() {
                    assert(items[k] == x);
                }
            }
            if items.contains(x) {
                let m = choose|m: int| 0 <= m < items.len() && items[m] == x;
                assert(out[m] == x);
            }
            if x == item {
                assert(out[items.len() as int] == x);
            }
        }
    }
}

proof fn lemma_sorted_items(items: Seq<(Seq<char>, Seq<u8>)>)
    requires
        names_differ(items),
    ensures
        strictly_sorted(sorted_by_name(items)),
        same_items(sorted_by_name(items), items),
    decreases items.len(),
{
    if items.len() > 0 {
        let rest = items.drop_last();
        assert(names_differ(rest)) by {
            assert forall|i: int, j: int| 0 <= i < j < rest.len() implies (#[trigger] rest[i]).0
                != (#[trigger] rest[j]).0 by {
                assert(rest[i] == items[i] && rest[j] == items[j]);
            }
        }
        lemma_sorted_items(rest);
        let s = sorted_by_name(rest);
        assert forall|i: int| 0 <= i < s.len() implies (#[trigger] s[i]).0 != items.last().0 by {
            assert(s.contains(s[i]));
            assert(rest.contains(s[i]));
            let m = choose|m: int| 0 <= m < rest.len() && rest[m] == s[i];
            assert(items[m] == rest[m]);
            assert(items[m].0 != items[items.len() - 1].0);
        }
        lemma_insert_keeps(s, items.last());
        assert forall|x: (Seq<char>, Seq<u8>)|
            sorted_by_name(items).contains(x) <==> items.contains(x) by {
            if items.contains(x) {
                let m = choose|m: int| 0 <= m < items.len() && items[m] == x;
                if m < items.len() - 1 {
                    assert(rest[m] == x);
                    assert(rest.contains(x));
                }
            }
            if rest.contains(x) {
                let m = choose|m: int| 0 <= m < rest.len() && rest[m] == x;
                assert(items[m] == x);
            }
            if x == items.last() {
                assert(items[items.len() - 1] == x);
            }
        }
    }
}

proof fn lemma_sorted_unique(a: Seq<(Seq<char>, Seq<u8>)>, b: Seq<(Seq<char>, Seq<u8>)>)
    requires
        strictly_sorted(a),
        strictly_sorted(b),
        same_items(a, b),
    ensures
        a == b,
    decreases a.len(),
{
    if a.len() == 0 {
        if b.len() > 0 {
            assert(b.contains(b[0]));
            assert(a.contains(b[0]));
        }
        assert(a =~= b);
    } else {
        let x = a.last();
        assert(a[a.len() - 1] == x);
        assert(a.contains(x));
        assert(b.contains(x));
        let k = choose|k: int| 0 <= k < b.len() && b[k] == x;
        let y = b.last();
        assert(b[b.len() - 1] == y);
        assert(b.contains(y));
        assert(a.contains(y));
        let m = choose|m: int| 0 <= m < a.len() && a[m] == y;
        if k < b.len() - 1 {
            assert(text_lt(b[k].0, b[b.len() - 1].0));
            if m < a.len() - 1 {
                assert(text_lt(a[m].0, a[a.len() - 1].0));
                lemma_text_lt_transitive(x.0, y.0, x.0);
            }
            lemma_text_lt_irreflexive(x.0);
        }
        assert(x == y);
        let ra = a.drop_last();
        let rb = b.drop_last();
        assert forall|z: (Seq<char>, Seq<u8>)| ra.contains(z) <==> rb.contains(z) by {
            lemma_text_lt_irreflexive(x.0);
            if ra.contains(z) {
                let i = choose|i: int| 0 <= i < ra.len() && ra[i] == z;
                assert(a[i] == z);
                assert(text_lt(a[i].0, a[a.len() - 1].0));
                assert(a.contains(z));
                let j = choose|j: int| 0 <= j < b.len() && b[j] == z;
                assert(rb[j] == z);
            }
            if rb.contains(z) {
                let i = choose|i: int| 0 <= i < rb.len() && rb[i] == z;
                assert(b[i] == z);
                assert(text_lt(b[i].0, b[b.len() - 1].0));
                assert(b.contains(z));
                let j = choose|j: int| 0 <= j < a.len() && a[j] == z;
                assert(ra[j] == z);
            }
        }
        assert(strictly_sorted(ra)) by {
            assert forall|i: int, j: int| 0 <= i < j < ra.len() implies text_lt(
                (#[trigger] ra[i]).0,
                (#[trigger] ra[j]).0,
            ) by {
                assert(ra[i] == a[i] && ra[j] == a[j]);
            }
        }
        assert(strictly_sorted(rb)) by {
            assert forall|i: int, j: int| 0 <= i < j < rb.len() implies text_lt(
                (#[trigger] rb[i]).0,
                (#[trigger] rb[j]).0,
            ) by {
                assert(rb[i] == b[i] && rb[j] == b[j]);
            }
        }
        lemma_sorted_unique(ra, rb);
        assert(a =~= ra.push(x));
        assert(b =~= rb.push(y));
    }
}

/// The order in which a collection is given does not matter, as long as no
/// name occurs twice in it.
pub proof fn lemma_collection_order_ignored(
    a: Seq<(Seq<char>, Seq<u8>)>,
    b: Seq<(Seq<char>, Seq<u8>)>,
)
    requires
        names_differ(a),
        names_differ(b),
        same_items(a, b),
    ensures
        key_collection(a) == key_collection(b),
{
    lemma_sorted_items(a);
    lemma_sorted_items(b);
    assert(same_items(sorted_by_name(a), sorted_by_name(b))) by {
        assert forall|x: (Seq<char>, Seq<u8>)|
            sorted_by_name(a).contains(x) <==> sorted_by_name(b).contains(x) by {
            assert(sorted_by_name(a).contains(x) <==> a.contains(x));
            assert(sorted_by_name(b).contains(x) <==> b.contains(x));
        }
    }
    lemma_sorted_unique(sorted_by_name(a), sorted_by_name(b));
    lemma_sorted_len(a);
    lemma_sorted_len(b);
}

/// The digest does not depend on the order in which the collections are
/// given, as long as no name occurs twice in one of them.
pub proof fn lemma_digest_order_ignored(a: CacheKeyInputsView, b: CacheKeyInputsView)
    requires
        a.skyc_binary_hash == b.skyc_binary_hash,
        a.format_version == b.format_version,
        a.target_triple == b.target_triple,
        a.sky_toml_hash == b.sky_toml_hash,
        names_differ(a.local_source_hashes),
        names_differ(b.local_source_hashes),
        same_items(a.local_source_hashes, b.local_source_hashes),
        names_differ(a.upstream_cache_digests),
        names_differ(b.upstream_cache_digests),
        same_items(a.upstream_cache_digests, b.upstream_cache_digests),
        names_differ(a.annotation_file_hashes),
        names_differ(b.annotation_file_hashes),
        same_items(a.annotation_file_hashes, b.annotation_file_hashes),
    ensures
        key_digest(a) == key_digest(b),
{
    lemma_collection_order_ignored(a.local_source_hashes, b.local_source_hashes);
    lemma_collection_order_ignored(a.upstream_cache_digests, b.upstream_cache_digests);
    lemma_collection_order_ignored(a.annotation_file_hashes, b.annotation_file_hashes);
    lemma_axes_bytes_same(all_axes(), a, b);
}

proof fn lemma_axes_bytes_same(axes: Seq<CacheKeyAxis>, a: CacheKeyInputsView, b: CacheKeyInputsView)
    requires
        forall|axis: CacheKeyAxis| #[trigger] axis_payload(axis, a) == axis_payload(axis, b),
    ensures
        axes_bytes(axes, a) == axes_bytes(axes, b),
    decreases axes.len(),
{
    if axes.len() > 0 {
        lemma_axes_bytes_same(axes.drop_first(), a, b);
        assert(axis_payload(axes[0], a) == axis_payload(axes[0], b));
    }
}

/// Two concatenations that agree, the first parts being equally long, agree
/// part by part.
proof fn lemma_split(x: Seq<u8>, r: Seq<u8>, y: Seq<u8>, q: Seq<u8>)
    requires
        x + r == y + q,
        x.len() == y.len(),
    ensures
        x == y,
        r == q,
{
    assert(x =~= (x + r).take(x.len() as int));
    assert(y =~= (y + q).take(y.len() as int));
    assert(r =~= (x + r).skip(x.len() as int));
    assert(q =~= (y + q).skip(y.len() as int));
}

proof fn lemma_key_text_read(s: Seq<char>, r: Seq<u8>, t: Seq<char>, q: Seq<u8>)
    requires
        key_text(s) + r == key_text(t) + q,
        encode_utf8(s).len() <= u32::MAX,
        encode_utf8(t).len() <= u32::MAX,
    ensures
        s == t,
        r == q,
{
    let n = encode_utf8(s).len();
    let m = encode_utf8(t).len();
    lemma_pow256_values();
    lemma_le_round_trip(n, 4);
    lemma_le_round_trip(m, 4);
    assert(key_text(s) + r =~= le_bytes(n, 4) + (encode_utf8(s) + r));
    assert(key_text(t) + q =~= le_bytes(m, 4) + (encode_utf8(t) + q));
    lemma_split(le_bytes(n, 4), encode_utf8(s) + r, le_bytes(m, 4), encode_utf8(t) + q);
    lemma_split(encode_utf8(s), r, encode_utf8(t), q);
    vstd::utf8::encode_utf8_decode_utf8(s);
    vstd::utf8::encode_utf8_decode_utf8(t);
}

/// Whether all hashes of some items have the same length.
pub open spec fn hashes_have_len(items: Seq<(Seq<char>, Seq<u8>)>, n: nat) -> bool {
    forall|i: int| 0 <= i < items.len() ==> (#[trigger] items[i]).1.len() == n
}

proof fn lemma_key_items_read(
    a: Seq<(Seq<char>, Seq<u8>)>,
    r: Seq<u8>,
    b: Seq<(Seq<char>, Seq<u8>)>,
    q: Seq<u8>,
    n: nat,
)
    requires
        a.len() == b.len(),
        key_items(a) + r == key_items(b) + q,
        hashes_have_len(a, n),
        hashes_have_len(b, n),
        forall|i: int| 0 <= i < a.len() ==> encode_utf8((#[trigger] a[i]).0).len() <= u32::MAX,
        forall|i: int| 0 <= i < b.len() ==> encode_utf8((#[trigger] b[i]).0).len() <= u32::MAX,
    ensures
        a == b,
        r == q,
    decreases a.len(),
{
    if a.len() == 0 {
        assert(key_items(a) + r =~= r);
        assert(key_items(b) + q =~= q);
        assert(a =~= b);
    } else {
        let ra = a.drop_first();
        let rb = b.drop_first();
        assert(a[0].1.len() == n && b[0].1.len() == n);
        assert(key_items(a) + r =~= key_text(a[0].0) + (a[0].1 + (key_items(ra) + r)));
        assert(key_items(b) + q =~= key_text(b[0].0) + (b[0].1 + (key_items(rb) + q)));
        lemma_key_text_read(
            a[0].0,
            a[0].1 + (key_items(ra) + r),
            b[0].0,
            b[0].1 + (key_items(rb) + q),
        );
        lemma_split(a[0].1, key_items(ra) + r, b[0].1, key_items(rb) + q);
        assert forall|i: int| 0 <= i < ra.len() implies (#[trigger] ra[i]).1.len() == n
            && encode_utf8(ra[i].0).len() <= u32::MAX by {
            assert(ra[i] == a[i + 1]);
        }
        assert forall|i: int| 0 <= i < rb.len() implies (#[trigger] rb[i]).1.len() == n
            && encode_utf8(rb[i].0).len() <= u32::MAX by {
            assert(rb[i] == b[i + 1]);
        }
        lemma_key_items_read(ra, r, rb, q, n);
        assert(a =~= seq![a[0]] + ra);
        assert(b =~= seq![b[0]] + rb);
    }
}

/// Sorted items come from the items that were sorted.
proof fn lemma_sorted_from(items: Seq<(Seq<char>, Seq<u8>)>, i: int) -> (k: int)
    requires
        0 <= i < sorted_by_name(items).len(),
    ensures
        0 <= k < items.len(),
        items[k] == sorted_by_name(items)[i],
    decreases items.len(),
{
    let rest = items.drop_last();
    let j = lemma_insert_from(sorted_by_name(rest), items.last(), i);
    if j == sorted_by_name(rest).len() {
        items.len() - 1
    } else {
        lemma_sorted_from(rest, j)
    }
}

proof fn lemma_insert_from(
    items: Seq<(Seq<char>, Seq<u8>)>,
    item: (Seq<char>, Seq<u8>),
    i: int,
) -> (k: int)
    requires
        0 <= i < insert_sorted(items, item).len(),
    ensures
        0 <= k <= items.len(),
        insert_sorted(items, item)[i] == (if k == items.len() {
            item
        } else {
            items[k]
        }),
    decreases items.len(),
{
    lemma_insert_sorted_len(items, item);
    if items.len() > 0 && text_lt(item.0, items.last().0) {
        if i == items.len() {
            items.len() - 1
        } else {
            let rest = items.drop_last();
            lemma_insert_sorted_len(rest, item);
            let k = lemma_insert_from(rest, item, i);
            if k == rest.len() {
                items.len() as int
            } else {
                k
            }
        }
    } else {
        if i == items.len() {
            items.len() as int
        } else {
            i
        }
    }
}

proof fn lemma_collection_read(
    a: Seq<(Seq<char>, Seq<u8>)>,
    r: Seq<u8>,
    b: Seq<(Seq<char>, Seq<u8>)>,
    q: Seq<u8>,
    n: nat,
)
    requires
        key_collection(a) + r == key_collection(b) + q,
        items_fit(a),
        items_fit(b),
        hashes_have_len(a, n),
        hashes_have_len(b, n),
    ensures
        sorted_by_name(a) == sorted_by_name(b),
        r == q,
{
    let sa = sorted_by_name(a);
    let sb = sorted_by_name(b);
    lemma_pow256_values();
    lemma_le_round_trip(a.len(), 4);
    lemma_le_round_trip(b.len(), 4);
    assert(key_collection(a) + r =~= le_bytes(a.len(), 4) + (key_items(sa) + r));
    assert(key_collection(b) + q =~= le_bytes(b.len(), 4) + (key_items(sb) + q));
    lemma_split(le_bytes(a.len(), 4), key_items(sa) + r, le_bytes(b.len(), 4), key_items(sb) + q);
    lemma_sorted_len(a);
    lemma_sorted_len(b);
    assert forall|i: int| 0 <= i < sa.len() implies (#[trigger] sa[i]).1.len() == n && encode_utf8(
        sa[i].0,
    ).len() <= u32::MAX by {
        let k = lemma_sorted_from(a, i);
        assert(a[k] == sa[i]);
    }
    assert forall|i: int| 0 <= i < sb.len() implies (#[trigger] sb[i]).1.len() == n && encode_utf8(
        sb[i].0,
    ).len() <= u32::MAX by {
        let k = lemma_sorted_from(b, i);
        assert(b[k] == sb[i]);
    }
    lemma_key_items_read(sa, r, sb, q, n);
}

/// The seven axes, from the first to the last.
proof fn lemma_canonical_shape(inputs: CacheKeyInputsView)
    ensures
        canonical_bytes(inputs) == key_text("skyc-binary-hash"@) + (inputs.skyc_binary_hash + (
        key_text("format-version"@) + (le_bytes(inputs.format_version as nat, 4) + (key_text(
            "local-source-hashes"@,
        ) + (key_collection(inputs.local_source_hashes) + (key_text("upstream-cache-digests"@) + (
        key_collection(inputs.upstream_cache_digests) + (key_text("target-triple"@) + (key_text(
            inputs.target_triple,
        ) + (key_text("sky-toml-hash"@) + (inputs.sky_toml_hash + (key_text(
            "annotation-file-hashes"@,
        ) + key_collection(inputs.annotation_file_hashes))))))))))))),
{
    let a0 = all_axes();
    let a1 = a0.drop_first();
    let a2 = a1.drop_first();
    let a3 = a2.drop_first();
    let a4 = a3.drop_first();
    let a5 = a4.drop_first();
    let a6 = a5.drop_first();
    let last = key_collection(inputs.annotation_file_hashes);
    assert(a6.drop_first().len() == 0);
    assert(last + axes_bytes(a6.drop_first(), inputs) =~= last);
    assert(axes_bytes(a6, inputs) == key_text("annotation-file-hashes"@) + last);
    assert(axes_bytes(a5, inputs) == key_text("sky-toml-hash"@) + (inputs.sky_toml_hash
        + axes_bytes(a6, inputs)));
    assert(axes_bytes(a4, inputs) == key_text("target-triple"@) + (key_text(inputs.target_triple)
        + axes_bytes(a5, inputs)));
    assert(axes_bytes(a3, inputs) == key_text("upstream-cache-digests"@) + (key_collection(
        inputs.upstream_cache_digests,
    ) + axes_bytes(a4, inputs)));
    assert(axes_bytes(a2, inputs) == key_text("local-source-hashes"@) + (key_collection(
        inputs.local_source_hashes,
    ) + axes_bytes(a3, inputs)));
    assert(axes_bytes(a1, inputs) == key_text("format-version"@) + (le_bytes(
        inputs.format_version as nat,
        4,
    ) + axes_bytes(a2, inputs)));
}

/// A change of any axis changes what is hashed: inputs of which the same is
/// hashed agree on every axis, up to the order of the collections.
pub proof fn lemma_every_axis_counts(a: CacheKeyInputsView, b: CacheKeyInputsView)
    requires
        canonical_bytes(a) == canonical_bytes(b),
        inputs_fit(a),
        inputs_fit(b),
        a.skyc_binary_hash.len() == 32,
        b.skyc_binary_hash.len() == 32,
        a.sky_toml_hash.len() == 32,
        b.sky_toml_hash.len() == 32,
        hashes_have_len(a.local_source_hashes, 32),
        hashes_have_len(b.local_source_hashes, 32),
        hashes_have_len(a.upstream_cache_digests, 16),
        hashes_have_len(b.upstream_cache_digests, 16),
        hashes_have_len(a.annotation_file_hashes, 32),
        hashes_have_len(b.annotation_file_hashes, 32),
    ensures
        a.skyc_binary_hash == b.skyc_binary_hash,
        a.format_version == b.format_version,
        sorted_by_name(a.local_source_hashes) == sorted_by_name(b.local_source_hashes),
        sorted_by_name(a.upstream_cache_digests) == sorted_by_name(b.upstream_cache_digests),
        a.target_triple == b.target_triple,
        a.sky_toml_hash == b.sky_toml_hash,
        sorted_by_name(a.annotation_file_hashes) == sorted_by_name(b.annotation_file_hashes),
{
    lemma_canonical_shape(a);
    lemma_canonical_shape(b);
    let n6 = key_text("annotation-file-hashes"@);
    let a6 = n6 + key_collection(a.annotation_file_hashes);
    let b6 = n6 + key_collection(b.annotation_file_hashes);
    let n5 = key_text("sky-toml-hash"@);
    let a5 = n5 + (a.sky_toml_hash + a6);
    let b5 = n5 + (b.sky_toml_hash + b6);
    let n4 = key_text("target-triple"@);
    let a4 = n4 + (key_text(a.target_triple) + a5);
    let b4 = n4 + (key_text(b.target_triple) + b5);
    let n3 = key_text("upstream-cache-digests"@);
    let a3 = n3 + (key_collection(a.upstream_cache_digests) + a4);
    let b3 = n3 + (key_collection(b.upstream_cache_digests) + b4);
    let n2 = key_text("local-source-hashes"@);
    let a2 = n2 + (key_collection(a.local_source_hashes) + a3);
    let b2 = n2 + (key_collection(b.local_source_hashes) + b3);
    let n1 = key_text("format-version"@);
    let va = le_bytes(a.format_version as nat, 4);
    let vb = le_bytes(b.format_version as nat, 4);
    let a1 = n1 + (va + a2);
    let b1 = n1 + (vb + b2);
    let n0 = key_text("skyc-binary-hash"@);
    lemma_split(n0, a.skyc_binary_hash + a1, n0, b.skyc_binary_hash + b1);
    lemma_split(a.skyc_binary_hash, a1, b.skyc_binary_hash, b1);
    lemma_split(n1, va + a2, n1, vb + b2);
    lemma_pow256_values();
    lemma_le_round_trip(a.format_version as nat, 4);
    lemma_le_round_trip(b.format_version as nat, 4);
    lemma_split(va, a2, vb, b2);
    lemma_split(
        n2,
        key_collection(a.local_source_hashes) + a3,
        n2,
        key_collection(b.local_source_hashes) + b3,
    );
    lemma_collection_read(a.local_source_hashes, a3, b.local_source_hashes, b3, 32);
    lemma_split(
        n3,
        key_collection(a.upstream_cache_digests) + a4,
        n3,
        key_collection(b.upstream_cache_digests) + b4,
    );
    lemma_collection_read(a.upstream_cache_digests, a4, b.upstream_cache_digests, b4, 16);
    lemma_split(n4, key_text(a.target_triple) + a5, n4, key_text(b.target_triple) + b5);
    lemma_key_text_read(a.target_triple, a5, b.target_triple, b5);
    lemma_split(n5, a.sky_toml_hash + a6, n5, b.sky_toml_hash + b6);
    lemma_split(a.sky_toml_hash, a6, b.sky_toml_hash, b6);
    let none = Seq::<u8>::empty();
    let ca = key_collection(a.annotation_file_hashes);
    let cb = key_collection(b.annotation_file_hashes);
    lemma_split(n6, ca, n6, cb);
    assert(ca + none =~= ca);
    assert(cb + none =~= cb);
    lemma_collection_read(a.annotation_file_hashes, none, b.annotation_file_hashes, none, 32);
}

proof fn lemma_insert_contains(items: Seq<(Seq<char>, Seq<u8>)>, item: (Seq<char>, Seq<u8>))
    ensures
        forall|x: (Seq<char>, Seq<u8>)| #[trigger]
            insert_sorted(items, item).contains(x) <==> (items.contains(x) || x == item),
    decreases items.len(),
{
    let out = insert_sorted(items, item);
    if items.len() > 0 && text_lt(item.0, items.last().0) {
        let rest = items.drop_last();
        lemma_insert_contains(rest, item);
        let put = insert_sorted(rest, item);
        assert(items =~= rest.push(items.last()));
        assert forall|x: (Seq<char>, Seq<u8>)| #[trigger]
            out.contains(x) <==> (items.contains(x) || x == item) by {
            lemma_push_contains(put, items.last(), x);
            lemma_push_contains(rest, items.last(), x);
            assert(put.contains(x) <==> (rest.contains(x) || x == item));
        }
    } else {
        assert forall|x: (Seq<char>, Seq<u8>)| #[trigger]
            out.contains(x) <==> (items.contains(x) || x == item) by {
            lemma_push_contains(items, item, x);
        }
    }
}

proof fn lemma_push_contains(
    items: Seq<(Seq<char>, Seq<u8>)>,
    item: (Seq<char>, Seq<u8>),
    x: (Seq<char>, Seq<u8>),
)
    ensures
        items.push(item).contains(x) <==> (items.contains(x) || x == item),
{
    let more = items.push(item);
    if items.contains(x) {
        let i = choose|i: int| 0 <= i < items.len() && items[i] == x;
        assert(more[i] == x);
    }
    assert(more[items.len() as int] == item);
    if more.contains(x) {
        let i = choose|i: int| 0 <= i < more.len() && more[i] == x;
        if i < items.len() {
            assert(items[i] == x);
        }
    }
}

proof fn lemma_sorted_contains(items: Seq<(Seq<char>, Seq<u8>)>)
    ensures
        same_items(sorted_by_name(items), items),
    decreases items.len(),
{
    if items.len() > 0 {
        let rest = items.drop_last();
        lemma_sorted_contains(rest);
        lemma_insert_contains(sorted_by_name(rest), items.last());
        assert(items =~= rest.push(items.last()));
        assert forall|x: (Seq<char>, Seq<u8>)|
            sorted_by_name(items).contains(x) <==> items.contains(x) by {
            lemma_push_contains(rest, items.last(), x);
            assert(sorted_by_name(rest).contains(x) <==> rest.contains(x));
        }
    }
}

/// Whether two inputs differ in an axis. A collection differs where it does
/// not hold the same items.
pub open spec fn differ_in_an_axis(a: CacheKeyInputsView, b: CacheKeyInputsView) -> bool {
    ||| a.skyc_binary_hash != b.skyc_binary_hash
    ||| a.format_version != b.format_version
    ||| !same_items(a.local_source_hashes, b.local_source_hashes)
    ||| !same_items(a.upstream_cache_digests, b.upstream_cache_digests)
    ||| a.target_triple != b.target_triple
    ||| a.sky_toml_hash != b.sky_toml_hash
    ||| !same_items(a.annotation_file_hashes, b.annotation_file_hashes)
}

/// Whether the hashes of two different byte sequences differ in their first
/// sixteen bytes.
pub open spec fn no_collision(x: Seq<u8>, y: Seq<u8>) -> bool {
    x != y ==> blake3_hash(x).take(16) != blake3_hash(y).take(16)
}

/// No axis is left out of the key: inputs that differ in an axis have
/// different digests, where the hash has no collision on what is hashed of
/// them. Lengths and numbers of items, which are hashed as 32 bits, fit there.
pub proof fn lemma_digests_differ(a: CacheKeyInputs, b: CacheKeyInputs)
    requires
        inputs_fit(a@),
        inputs_fit(b@),
        differ_in_an_axis(a@, b@),
    ensures
        canonical_bytes(a@) != canonical_bytes(b@),
        no_collision(canonical_bytes(a@), canonical_bytes(b@)) ==> key_digest(a@) != key_digest(b@),
{
    if canonical_bytes(a@) == canonical_bytes(b@) {
        lemma_every_axis_counts(a@, b@);
        lemma_same_sorted(a@.local_source_hashes, b@.local_source_hashes);
        lemma_same_sorted(a@.upstream_cache_digests, b@.upstream_cache_digests);
        lemma_same_sorted(a@.annotation_file_hashes, b@.annotation_file_hashes);
    }
}

proof fn lemma_same_sorted(a: Seq<(Seq<char>, Seq<u8>)>, b: Seq<(Seq<char>, Seq<u8>)>)
    requires
        sorted_by_name(a) == sorted_by_name(b),
    ensures
        same_items(a, b),
{
    lemma_sorted_contains(a);
    lemma_sorted_contains(b);
    let sorted = sorted_by_name(a);
    assert forall|x: (Seq<char>, Seq<u8>)| a.contains(x) <==> b.contains(x) by {
        assert(sorted.contains(x) <==> a.contains(x));
        assert(sorted.contains(x) <==> b.contains(x));
    }
}

} // verus!
