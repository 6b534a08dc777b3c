//! The cache file.
use toylangc::cache::{deserialize_cache, read_cache_key_digest, serialize_cache, CacheError, CacheHeader, CACHE_FORMAT_VERSION, HEADER_SIZE, KEY_DIGEST_LEN};

fn sample_digest() -> [u8; KEY_DIGEST_LEN] {
    let mut d = [0u8; KEY_DIGEST_LEN];
    for (i, b) in d.iter_mut().enumerate() {
        *b = (i as u8).wrapping_mul(17);
    }
    d
}

fn other_digest() -> [u8; KEY_DIGEST_LEN] {
    let mut d = sample_digest();
    d[0] ^= 0xFF;
    d
}


#[test]
fn cache_header_round_trip() {
    let h = CacheHeader::new(sample_digest(), 1234, 0xDEADBEEF_CAFEBABE);
    let mut buf = [0u8; HEADER_SIZE];
    h.write(&mut buf);
    let h2 = CacheHeader::read(&buf).expect("header round-trip");
    assert_eq!(h, h2);
}

#[test]
fn cache_header_magic_check() {
    let mut buf = [0u8; HEADER_SIZE];
    CacheHeader::new(sample_digest(), 0, 0).write(&mut buf);
    buf[0] = b'X'; // corrupt magic
    match CacheHeader::read(&buf) {
        Err(CacheError::BadMagic { found }) => assert_eq!(found[0], b'X'),
        other => panic!("expected BadMagic, got {:?}", other),
    }
}

#[test]
fn cache_header_format_version_strict() {
    let mut buf = [0u8; HEADER_SIZE];
    let h = CacheHeader {
        format_version: CACHE_FORMAT_VERSION + 1,
        ..CacheHeader::new(sample_digest(), 0, 0)
    };
    h.write(&mut buf);
    match CacheHeader::read(&buf) {
        Err(CacheError::FormatVersion { expected, found }) => {
            assert_eq!(expected, CACHE_FORMAT_VERSION);
            assert_eq!(found, CACHE_FORMAT_VERSION + 1);
        }
        other => panic!("expected FormatVersion error, got {:?}", other),
    }
}

#[test]
fn cache_header_too_short() {
    let buf = [0u8; HEADER_SIZE - 1];
    match CacheHeader::read(&buf) {
        Err(CacheError::TooShort { expected, found }) => {
            assert_eq!(expected, HEADER_SIZE);
            assert_eq!(found, HEADER_SIZE - 1);
        }
        other => panic!("expected TooShort, got {:?}", other),
    }
}

#[test]
fn cache_header_bad_payload_offset() {
    let mut buf = [0u8; HEADER_SIZE];
    let h = CacheHeader {
        payload_offset: 1, // < HEADER_SIZE
        ..CacheHeader::new(sample_digest(), 0, 0)
    };
    h.write(&mut buf);
    match CacheHeader::read(&buf) {
        Err(CacheError::BadPayloadOffset { offset }) => assert_eq!(offset, 1),
        other => panic!("expected BadPayloadOffset, got {:?}", other),
    }
}

#[test]
fn cache_header_endianness_is_little() {
    let h = CacheHeader::new(sample_digest(), 0x0102030405060708, 0xCAFEBABEDEADBEEF);
    let mut buf = [0u8; HEADER_SIZE];
    h.write(&mut buf);
    assert_eq!(&buf[32..40], &[0x08, 0x07, 0x06, 0x05, 0x04, 0x03, 0x02, 0x01]);
    assert_eq!(&buf[40..48], &[0xEF, 0xBE, 0xAD, 0xDE, 0xBE, 0xBA, 0xFE, 0xCA]);
}

#[test]
fn cache_header_reserved_tail_is_zero() {
    let h = CacheHeader::new(sample_digest(), 0, 0);
    let mut buf = [0xFFu8; HEADER_SIZE]; // pre-fill with garbage
    h.write(&mut buf);
    assert_eq!(&buf[48..64], &[0u8; 16]);
}

#[test]
fn cache_header_tolerates_nonzero_reserved_tail_on_read() {
    let mut buf = [0u8; HEADER_SIZE];
    CacheHeader::new(sample_digest(), 0, 0).write(&mut buf);
    buf[48..64].copy_from_slice(&[0xAA; 16]);
    CacheHeader::read(&buf).expect("nonzero reserved tail should not fail read");
}


use toylangc::toylang::ast::{BinOp, Block, Expr, Stmt};
use toylangc::toylang::registry::{ToyField, ToyFunction, ToyParam, ToyStruct, ToylangRegistry};
use toylangc::toylang::typed_ast::SourceType;

fn sample_registry() -> ToylangRegistry {
    let mut registry = ToylangRegistry::default();
    registry.imports.push("std::alloc::Global".to_string());
    registry.imports.push("std::vec::Vec".to_string());
    registry.structs.insert(
        "Widget".to_string(),
        ToyStruct {
            type_params: vec![],
            fields: vec![ToyField {
                name: "id".to_string(),
                rust_type: SourceType::I32,
            }],
        },
    );
    registry.structs.insert(
        "Pair".to_string(),
        ToyStruct {
            type_params: vec!["A".to_string(), "B".to_string()],
            fields: vec![
                ToyField {
                    name: "first".to_string(),
                    rust_type: SourceType::TypeParam("A".to_string()),
                },
                ToyField {
                    name: "second".to_string(),
                    rust_type: SourceType::TypeParam("B".to_string()),
                },
            ],
        },
    );
    registry.functions.insert(
        "wrap".to_string(),
        ToyFunction {
            type_params: vec!["T".to_string()],
            is_export: false,
            params: vec![ToyParam {
                name: "x".to_string(),
                ty: SourceType::TypeParam("T".to_string()),
            }],
            return_ty: Some(SourceType::TypeParam("T".to_string())),
            body: Some(Block {
                stmts: vec![Stmt::Let {
                    name: "y".to_string(),
                    expr: Expr::BinaryOp {
                        op: BinOp::Add,
                        left: Box::new(Expr::Var("x".to_string())),
                        right: Box::new(Expr::IntLit(1, SourceType::I32)),
                    },
                }],
                ret: Some(Expr::Var("y".to_string())),
            }),
        },
    );
    registry
}

#[test]
fn cache_payload_round_trip() {
    let original = sample_registry();
    let digest = sample_digest();
    let bytes = serialize_cache(&original, digest).expect("serialize");
    let recovered = deserialize_cache(&bytes, digest).expect("deserialize");
    assert_eq!(recovered.imports, original.imports);
    assert_eq!(recovered.structs.len(), original.structs.len());
    assert_eq!(recovered.functions.len(), original.functions.len());
    assert!(recovered.structs.contains_key("Widget"));
    assert!(recovered.structs.contains_key("Pair"));
    assert!(recovered.functions.contains_key("wrap"));
    let wrap = recovered.functions.get("wrap").unwrap();
    assert_eq!(wrap.type_params, vec!["T".to_string()]);
    assert_eq!(wrap.params.len(), 1);
    assert!(wrap.body.is_some());
}

#[test]
fn cache_payload_determinism() {
    let digest = sample_digest();
    let bytes_a = serialize_cache(&sample_registry(), digest).expect("serialize a");
    let bytes_b = serialize_cache(&sample_registry(), digest).expect("serialize b");
    assert_eq!(bytes_a, bytes_b);
}

#[test]
fn digest_mismatch_returns_error() {
    let bytes = serialize_cache(&sample_registry(), sample_digest()).expect("serialize");
    match deserialize_cache(&bytes, other_digest()) {
        Err(CacheError::KeyDigestMismatch { expected, found }) => {
            assert_eq!(expected, other_digest());
            assert_eq!(found, sample_digest());
        }
        other => panic!("expected KeyDigestMismatch, got {:?}", other),
    }
}

#[test]
fn cache_payload_checksum_mismatch_detected() {
    let digest = sample_digest();
    let mut bytes = serialize_cache(&sample_registry(), digest).expect("serialize");
    bytes[HEADER_SIZE + 5] ^= 0xFF;
    match deserialize_cache(&bytes, digest) {
        Err(CacheError::ChecksumMismatch { .. }) => {}
        other => panic!("expected ChecksumMismatch, got {:?}", other),
    }
}

#[test]
fn cache_payload_truncation_detected() {
    let digest = sample_digest();
    let bytes = serialize_cache(&sample_registry(), digest).expect("serialize");
    let truncated = &bytes[..bytes.len() - 5];
    match deserialize_cache(truncated, digest) {
        Err(CacheError::TooShort { .. }) => {}
        other => panic!("expected TooShort, got {:?}", other),
    }
}

#[test]
fn cache_payload_empty_registry() {
    let original = ToylangRegistry::default();
    let digest = sample_digest();
    let bytes = serialize_cache(&original, digest).expect("serialize empty");
    let recovered = deserialize_cache(&bytes, digest).expect("deserialize empty");
    assert!(recovered.structs.is_empty());
    assert!(recovered.functions.is_empty());
    assert!(recovered.imports.is_empty());
    assert!(recovered.typeid_table.is_empty());
}

#[test]
fn read_key_digest_without_payload() {
    let digest = sample_digest();
    let bytes = serialize_cache(&sample_registry(), digest).expect("serialize");
    let recovered = read_cache_key_digest(&bytes).expect("read digest");
    assert_eq!(recovered, digest);
}

#[test]
fn rejects_sidecar_magic() {
    let mut buf = [0u8; HEADER_SIZE];
    let sidecar_magic: [u8; 4] = *b"SKYM";
    buf[0..4].copy_from_slice(&sidecar_magic);
    match CacheHeader::read(&buf) {
        Err(CacheError::BadMagic { found }) => assert_eq!(found, sidecar_magic),
        other => panic!("expected BadMagic, got {:?}", other),
    }
}
