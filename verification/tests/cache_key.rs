//! The key of a cache entry.
use toylangc::cache_key::{build_inputs, build_rs_rerun_lines, compute_cache_key_digest, CacheKeyAxis, CacheKeyInputs};

fn sample_inputs() -> CacheKeyInputs {
    CacheKeyInputs {
        skyc_binary_hash: [0xAB; 32],
        format_version: 1,
        local_source_hashes: vec![
            ("main.toylang".to_string(), [0x11; 32]),
            ("lib.toylang".to_string(), [0x22; 32]),
        ],
        upstream_cache_digests: vec![
            ("lib_b".to_string(), [0x33; 16]),
            ("lib_a".to_string(), [0x44; 16]),
        ],
        target_triple: "aarch64-apple-darwin".to_string(),
        sky_toml_path: "toylang.toml".to_string(),
        sky_toml_hash: [0x55; 32],
        annotation_file_hashes: vec![],
    }
}

#[test]
fn digest_is_deterministic() {
    let mut a = sample_inputs();
    let b = sample_inputs();
    a.local_source_hashes.reverse();
    a.upstream_cache_digests.reverse();
    let da = compute_cache_key_digest(&a);
    let db = compute_cache_key_digest(&b);
    assert_eq!(da, db, "digest must be invariant to collection order");
}

#[test]
fn digest_changes_per_axis() {
    let base = sample_inputs();
    let base_digest = compute_cache_key_digest(&base);

    {
        let mut v = base.clone();
        v.skyc_binary_hash = [0xCD; 32];
        assert_ne!(compute_cache_key_digest(&v), base_digest, "SkycBinaryHash axis");
    }
    {
        let mut v = base.clone();
        v.format_version = 2;
        assert_ne!(compute_cache_key_digest(&v), base_digest, "FormatVersion axis");
    }
    {
        let mut v = base.clone();
        v.local_source_hashes[0].1 = [0xAA; 32];
        assert_ne!(compute_cache_key_digest(&v), base_digest, "LocalSourceHashes axis");
    }
    {
        let mut v = base.clone();
        v.upstream_cache_digests[0].1 = [0xBB; 16];
        assert_ne!(compute_cache_key_digest(&v), base_digest, "UpstreamCacheDigests axis");
    }
    {
        let mut v = base.clone();
        v.target_triple = "x86_64-pc-linux-gnu".to_string();
        assert_ne!(compute_cache_key_digest(&v), base_digest, "TargetTriple axis");
    }
    {
        let mut v = base.clone();
        v.sky_toml_hash = [0xEE; 32];
        assert_ne!(compute_cache_key_digest(&v), base_digest, "SkyTomlHash axis");
    }
    {
        let mut v = base.clone();
        v.annotation_file_hashes.push(("anno.toml".to_string(), [0xFF; 32]));
        assert_ne!(compute_cache_key_digest(&v), base_digest, "AnnotationFileHashes axis");
    }
}

#[test]
fn digest_length_is_16_bytes() {
    let inputs = sample_inputs();
    let digest = compute_cache_key_digest(&inputs);
    assert_eq!(digest.len(), 16);
}

#[test]
fn cache_key_axes_and_build_rs_lines_are_in_sync() {
    const EXPECTED_AXIS_COUNT: usize = 7;
    assert_eq!(
        CacheKeyAxis::all().len(),
        EXPECTED_AXIS_COUNT,
        "adding a CacheKeyAxis variant requires updating compute_cache_key_digest, \
         build_rs_rerun_lines, this test's EXPECTED_AXIS_COUNT, AND Fence 1's \
         cache_key_axis_fence.rs",
    );

    let inputs = sample_inputs();
    let lines = build_rs_rerun_lines(&inputs);
    let joined = lines.join("\n");

    assert!(joined.contains("SKYC_BINARY_HASH"), "missing SkycBinaryHash line");
    assert!(joined.contains("SKYC_CACHE_FORMAT_VERSION"), "missing FormatVersion line");
    assert!(joined.contains("main.toylang"), "missing local source line");
    assert!(joined.contains("CARGO_CFG_TARGET_ARCH"), "missing target triple line");
    assert!(joined.contains("toylang.toml"), "missing sky.toml line");
}

#[test]
fn empty_inputs_still_produce_a_digest() {
    let empty = CacheKeyInputs::default();
    let digest = compute_cache_key_digest(&empty);
    assert_eq!(digest.len(), 16);
}

#[test]
fn build_inputs_helper_round_trip() {
    let inputs = build_inputs(
        [0u8; 32],
        &vec![("main.toylang".to_string(), b"fn main() { }\n".to_vec())],
        vec![],
        "aarch64-apple-darwin".to_string(),
        &("toylang.toml".to_string(), b"[project]\nname=\"x\"\n".to_vec()),
        &vec![],
    );
    assert_eq!(inputs.local_source_hashes.len(), 1);
    assert_eq!(inputs.annotation_file_hashes.len(), 0);

    let _digest = compute_cache_key_digest(&inputs);
    let _lines = build_rs_rerun_lines(&inputs);
}

#[test]
fn lines_for_files_keep_their_absolute_paths() {
    let mut inputs = sample_inputs();
    inputs.local_source_hashes = vec![("/work/main.toylang".to_string(), [0x11; 32])];
    inputs.annotation_file_hashes = vec![("/work/notes.txt".to_string(), [0x66; 32])];
    inputs.sky_toml_path = "/work/toylang.toml".to_string();
    let lines = inputs.build_rs_rerun_lines();
    let files: Vec<&str> = lines.iter().filter_map(|l| l.strip_prefix("cargo:rerun-if-changed=")).collect();
    assert_eq!(files, vec!["/work/main.toylang", "/work/toylang.toml", "/work/notes.txt"]);
    // Where the manifest is does not count, what is in it does.
    let mut moved = inputs.clone();
    moved.sky_toml_path = "/elsewhere/toylang.toml".to_string();
    assert_eq!(compute_cache_key_digest(&moved), compute_cache_key_digest(&inputs));
    assert_eq!(CacheKeyInputs::default().sky_toml_path, "toylang.toml");
}
