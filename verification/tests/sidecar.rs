//! The sidecar file.
use toylangc::sidecar::{deserialize_sidecar, serialize_sidecar, SidecarError, SidecarHeader, CURRENT_FORMAT_VERSION, HEADER_SIZE};

#[test]
fn sidecar_header_round_trip() {
    let h = SidecarHeader::new(1234, 0xDEADBEEF_CAFEBABE);
    let mut buf = [0u8; HEADER_SIZE];
    h.write(&mut buf);
    let h2 = SidecarHeader::read(&buf).expect("header round-trip");
    assert_eq!(h, h2);
}

#[test]
fn sidecar_header_magic_check() {
    let mut buf = [0u8; HEADER_SIZE];
    SidecarHeader::new(0, 0).write(&mut buf);
    buf[0] = b'X'; // corrupt magic
    match SidecarHeader::read(&buf) {
        Err(SidecarError::BadMagic { found }) => assert_eq!(found[0], b'X'),
        other => panic!("expected BadMagic, got {:?}", other),
    }
}

#[test]
fn sidecar_header_format_version_strict() {
    let mut buf = [0u8; HEADER_SIZE];
    let h = SidecarHeader {
        format_version: CURRENT_FORMAT_VERSION + 1,
        ..SidecarHeader::new(0, 0)
    };
    h.write(&mut buf);
    match SidecarHeader::read(&buf) {
        Err(SidecarError::FormatVersion { expected, found }) => {
            assert_eq!(expected, CURRENT_FORMAT_VERSION);
            assert_eq!(found, CURRENT_FORMAT_VERSION + 1);
        }
        other => panic!("expected FormatVersion error, got {:?}", other),
    }
}

#[test]
fn sidecar_header_too_short() {
    let buf = [0u8; HEADER_SIZE - 1];
    match SidecarHeader::read(&buf) {
        Err(SidecarError::TooShort { expected, found }) => {
            assert_eq!(expected, HEADER_SIZE);
            assert_eq!(found, HEADER_SIZE - 1);
        }
        other => panic!("expected TooShort, got {:?}", other),
    }
}

#[test]
fn sidecar_header_bad_payload_offset() {
    let mut buf = [0u8; HEADER_SIZE];
    let h = SidecarHeader {
        payload_offset: 1, // < HEADER_SIZE
        ..SidecarHeader::new(0, 0)
    };
    h.write(&mut buf);
    match SidecarHeader::read(&buf) {
        Err(SidecarError::BadPayloadOffset { offset }) => assert_eq!(offset, 1),
        other => panic!("expected BadPayloadOffset, got {:?}", other),
    }
}

#[test]
fn header_payload_offset_unaligned() {
    let mut buf = [0u8; HEADER_SIZE];
    let h = SidecarHeader {
        payload_offset: 65, // >= HEADER_SIZE but not 8-byte aligned
        ..SidecarHeader::new(0, 0)
    };
    h.write(&mut buf);
    match SidecarHeader::read(&buf) {
        Err(SidecarError::BadPayloadOffset { offset }) => assert_eq!(offset, 65),
        other => panic!("expected BadPayloadOffset for unaligned offset, got {:?}", other),
    }
}

#[test]
fn sidecar_header_endianness_is_little() {
    let h = SidecarHeader::new(0x0102030405060708, 0xCAFEBABEDEADBEEF);
    let mut buf = [0u8; HEADER_SIZE];
    h.write(&mut buf);
    assert_eq!(&buf[32..40], &[0x08, 0x07, 0x06, 0x05, 0x04, 0x03, 0x02, 0x01]);
    assert_eq!(&buf[40..48], &[0xEF, 0xBE, 0xAD, 0xDE, 0xBE, 0xBA, 0xFE, 0xCA]);
}

#[test]
fn sidecar_header_reserved_tail_is_zero() {
    let h = SidecarHeader::new(0, 0);
    let mut buf = [0xFFu8; HEADER_SIZE]; // pre-fill with garbage
    h.write(&mut buf);
    assert_eq!(&buf[48..64], &[0u8; 16]);
}

#[test]
fn sidecar_header_tolerates_nonzero_reserved_tail_on_read() {
    let mut buf = [0u8; HEADER_SIZE];
    SidecarHeader::new(0, 0).write(&mut buf);
    buf[48..64].copy_from_slice(&[0xAA; 16]);
    SidecarHeader::read(&buf).expect("nonzero reserved tail should not fail read");
}


use toylangc::toylang::ast::{BinOp, Block, Expr, Stmt};
use toylangc::toylang::registry::{ToyField, ToyFunction, ToyParam, ToyStruct, ToylangRegistry};
use toylangc::toylang::typed_ast::SourceType as ResolvedType;

fn sample_registry() -> ToylangRegistry {
    let mut registry = ToylangRegistry::default();
    registry.imports.push("std::alloc::Global".to_string());
    registry.imports.push("std::vec::Vec".to_string());
    registry.structs.insert(
        "Widget".to_string(),
        ToyStruct {
            type_params: vec![],
            fields: vec![ToyField {
                name: "id".to_string(),
                rust_type: ResolvedType::I32,
            }],
        },
    );
    registry.structs.insert(
        "Pair".to_string(),
        ToyStruct {
            type_params: vec!["A".to_string(), "B".to_string()],
            fields: vec![
                ToyField {
                    name: "first".to_string(),
                    rust_type: ResolvedType::TypeParam("A".to_string()),
                },
                ToyField {
                    name: "second".to_string(),
                    rust_type: ResolvedType::TypeParam("B".to_string()),
                },
            ],
        },
    );
    registry.functions.insert(
        "wrap".to_string(),
        ToyFunction {
            type_params: vec!["T".to_string()],
            is_export: false,
            params: vec![ToyParam {
                name: "x".to_string(),
                ty: ResolvedType::TypeParam("T".to_string()),
            }],
            return_ty: Some(ResolvedType::TypeParam("T".to_string())),
            body: Some(Block {
                stmts: vec![Stmt::Let {
                    name: "y".to_string(),
                    expr: Expr::BinaryOp {
                        op: BinOp::Add,
                        left: Box::new(Expr::Var("x".to_string())),
                        right: Box::new(Expr::IntLit(1, ResolvedType::I32)),
                    },
                }],
                ret: Some(Expr::Var("y".to_string())),
            }),
        },
    );
    registry
}

#[test]
fn sidecar_payload_round_trip() {
    let original = sample_registry();
    let bytes = serialize_sidecar(&original).expect("serialize");
    let recovered = deserialize_sidecar(&bytes).expect("deserialize");
    assert_eq!(recovered.imports, original.imports);
    assert_eq!(recovered.structs.len(), original.structs.len());
    assert_eq!(recovered.functions.len(), original.functions.len());
    assert!(recovered.structs.contains_key("Widget"));
    assert!(recovered.structs.contains_key("Pair"));
    assert!(recovered.functions.contains_key("wrap"));
    let wrap = recovered.functions.get("wrap").unwrap();
    assert_eq!(wrap.type_params, vec!["T".to_string()]);
    assert_eq!(wrap.params.len(), 1);
    assert!(wrap.body.is_some());
}

#[test]
fn sidecar_payload_determinism() {
    let bytes_a = serialize_sidecar(&sample_registry()).expect("serialize a");
    let bytes_b = serialize_sidecar(&sample_registry()).expect("serialize b");
    assert_eq!(bytes_a, bytes_b);
}

#[test]
fn sidecar_payload_checksum_mismatch_detected() {
    let original = sample_registry();
    let mut bytes = serialize_sidecar(&original).expect("serialize");
    bytes[HEADER_SIZE + 5] ^= 0xFF;
    match deserialize_sidecar(&bytes) {
        Err(SidecarError::ChecksumMismatch { .. }) => {}
        other => panic!("expected ChecksumMismatch, got {:?}", other),
    }
}

#[test]
fn sidecar_payload_truncation_detected() {
    let original = sample_registry();
    let bytes = serialize_sidecar(&original).expect("serialize");
    let truncated = &bytes[..bytes.len() - 5];
    match deserialize_sidecar(truncated) {
        Err(SidecarError::TooShort { .. }) => {}
        other => panic!("expected TooShort, got {:?}", other),
    }
}

#[test]
fn sidecar_payload_empty_registry() {
    let original = ToylangRegistry::default();
    let bytes = serialize_sidecar(&original).expect("serialize empty");
    let recovered = deserialize_sidecar(&bytes).expect("deserialize empty");
    assert!(recovered.structs.is_empty());
    assert!(recovered.functions.is_empty());
    assert!(recovered.imports.is_empty());
    assert!(recovered.typeid_table.is_empty());
}

#[test]
fn typeid_table_populates_and_round_trips() {
    let mut original = sample_registry();
    original.populate_typeid_table();
    assert_eq!(
        original.typeid_table.len(),
        original.structs.len(),
        "one entry per struct",
    );

    for i in 0..original.typeid_table.len() {
        let entry = original.typeid_table.entry_at(i);
        assert!(original.structs.contains_key(&entry.name));
        assert!(entry.type_args.is_empty());
        assert_eq!(entry.id, toylangc::typeid::compute(&entry.name, &vec![]));
    }

    let bytes = serialize_sidecar(&original).expect("serialize");
    let recovered = deserialize_sidecar(&bytes).expect("deserialize");
    assert_eq!(recovered.typeid_table, original.typeid_table);

    let mut recovered2 = recovered.clone();
    recovered2.populate_typeid_table();
    assert_eq!(recovered2.typeid_table, original.typeid_table);
}

#[test]
fn order_of_definitions_does_not_matter() {
    let registry = |names: &[&str]| {
        let mut r = ToylangRegistry::default();
        for n in names {
            let field = ToyField { name: n.to_lowercase(), rust_type: ResolvedType::I32 };
            r.structs.insert(n.to_string(), ToyStruct { type_params: vec![], fields: vec![field] });
        }
        r
    };
    assert_eq!(serialize_sidecar(&registry(&["B", "A", "C"])).unwrap(), serialize_sidecar(&registry(&["C", "B", "A"])).unwrap());
    assert_ne!(serialize_sidecar(&registry(&["A", "B"])).unwrap(), serialize_sidecar(&registry(&["A", "C"])).unwrap());
}
