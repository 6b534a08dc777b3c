//! What is said of bytes that hold no value.
use toylangc::sidecar::{deserialize_sidecar, serialize_sidecar, SidecarError, SidecarHeader, HEADER_SIZE};
use toylangc::hash::short_hash_of;
use toylangc::toylang::ast::Expr;
use toylangc::toylang::registry::ToylangRegistry;
use toylangc::toylang::typed_ast::SourceType;
use toylangc::wire::{get_opt, Wire};

fn config() -> bincode::config::Configuration<bincode::config::LittleEndian, bincode::config::Fixint> {
    bincode::config::standard().with_little_endian().with_fixed_int_encoding()
}

#[test]
fn what_is_wrong_is_said_in_the_words_of_bincode() {
    let words = |e: bincode::error::DecodeError| e.to_string();
    assert_eq!(
        u64::read_from(&[1, 2, 3], 0).unwrap_err(),
        words(bincode::serde::decode_from_slice::<u64, _>(&[1, 2, 3], config()).unwrap_err()),
    );
    assert_eq!(
        u8::read_from(&[1], 1).unwrap_err(),
        words(bincode::serde::decode_from_slice::<u8, _>(&[], config()).unwrap_err()),
    );
    assert_eq!(
        bool::read_from(&[2], 0).unwrap_err(),
        words(bincode::serde::decode_from_slice::<bool, _>(&[2], config()).unwrap_err()),
    );
    assert_eq!(
        get_opt::<u8>(&[7, 0], 0).unwrap_err(),
        words(bincode::serde::decode_from_slice::<Option<u8>, _>(&[7, 0], config()).unwrap_err()),
    );
    for bytes in [
        vec![9, 0, 0, 0, 0, 0, 0, 0, b'a'],
        vec![2, 0, 0, 0, 0, 0, 0, 0, b'a', 0xff],
        vec![3, 0, 0, 0, 0, 0, 0, 0, b'a', 0xe2, 0x82],
    ] {
        assert_eq!(
            String::read_from(&bytes, 0).unwrap_err(),
            words(bincode::serde::decode_from_slice::<String, _>(&bytes, config()).unwrap_err()),
        );
    }
    assert_eq!(
        SourceType::read_from(&[99, 0, 0, 0], 0).unwrap_err(),
        "OtherString(\"invalid value: integer `99`, expected variant index 0 <= i < 12\")",
    );
    assert_eq!(
        Expr::read_from(&[14, 0, 0, 0], 0).unwrap_err(),
        "OtherString(\"invalid value: integer `14`, expected variant index 0 <= i < 14\")",
    );
}

#[test]
fn a_sidecar_hands_the_words_on() {
    let payload = [1u8, 0, 0, 0, 0, 0, 0, 0, 200, 0];
    let mut bytes = vec![0u8; HEADER_SIZE];
    let mut header = [0u8; HEADER_SIZE];
    SidecarHeader::new(payload.len() as u64, short_hash_of(&payload)).write(&mut header);
    bytes.copy_from_slice(&header);
    bytes.extend_from_slice(&payload);
    match deserialize_sidecar(&bytes) {
        Err(SidecarError::BincodeRead(words)) => assert_eq!(words, "UnexpectedEnd { additional: 6 }"),
        other => panic!("{:?}", other),
    }
    let good = serialize_sidecar(&ToylangRegistry::default()).unwrap();
    assert!(deserialize_sidecar(&good).is_ok());
}
