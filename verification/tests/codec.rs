//! Tests of the session identifier codec.

use base64::Engine;
use session_service::codec::SessionId;

fn id_of(bytes: [u8; 16]) -> SessionId {
    SessionId::from_bytes(bytes.to_vec())
}

#[test]
fn encode_all_zero() {
    let id = id_of([0u8; 16]);
    assert_eq!(id.encode().as_str(), "AAAAAAAAAAAAAAAAAAAAAA");
}

#[test]
fn encode_known_value() {
    // 0x00 0x01 0x02 ... 0x0f
    let bytes: [u8; 16] = [0, 1, 2, 3, 4, 5, 6, 7, 8, 9, 10, 11, 12, 13, 14, 15];
    let id = id_of(bytes);
    let reference = base64::engine::general_purpose::URL_SAFE_NO_PAD.encode(bytes);
    assert_eq!(id.encode(), reference);
    assert_eq!(id.encode().as_str(), "AAECAwQFBgcICQoLDA0ODw");
}

#[test]
fn encode_matches_reference_engine() {
    let samples: [[u8; 16]; 5] = [
        [0xff; 16],
        [0xab, 0xcd, 0xef, 0x01, 0x23, 0x45, 0x67, 0x89, 0x10, 0x32, 0x54, 0x76, 0x98, 0xba, 0xdc, 0xfe],
        [0x3e, 0x3f, 0xfa, 0xfb, 0x00, 0x80, 0x7f, 0x01, 0xc0, 0x0c, 0x55, 0xaa, 0x11, 0x22, 0x33, 0x44],
        [1; 16],
        [0x62, 0x61, 0x73, 0x65, 0x36, 0x34, 0x5f, 0x75, 0x72, 0x6c, 0x5f, 0x73, 0x61, 0x66, 0x65, 0x21],
    ];
    for bytes in samples {
        let ours = id_of(bytes).encode();
        let reference = base64::engine::general_purpose::URL_SAFE_NO_PAD.encode(bytes);
        assert_eq!(ours, reference);
    }
}

#[test]
fn round_trip() {
    let samples: [[u8; 16]; 4] = [
        [0u8; 16],
        [0xff; 16],
        [0xde, 0xad, 0xbe, 0xef, 0x00, 0x11, 0x22, 0x33, 0x44, 0x55, 0x66, 0x77, 0x88, 0x99, 0xaa, 0xbb],
        [7, 3, 254, 1, 0, 255, 128, 64, 32, 16, 8, 4, 2, 1, 100, 200],
    ];
    for bytes in samples {
        let encoded = id_of(bytes).encode();
        let decoded = SessionId::decode(encoded.as_str()).expect("a rendering must decode");
        assert_eq!(decoded.to_bytes(), bytes.to_vec());
    }
}

#[test]
fn decode_rejects_wrong_length() {
    // empty, too short, one short, one long, the 15- and 17-byte renderings
    let cases = [
        "",
        "AAAA",
        "AAAAAAAAAAAAAAAAAAAAA",   // 21 characters
        "AAAAAAAAAAAAAAAAAAAAAAA", // 23 characters
        "AAAAAAAAAAAAAAAAAAAA",    // 20 characters: 15 bytes
        "AAAAAAAAAAAAAAAAAAAAAAAA", // 24 characters: 18 bytes
    ];
    for s in cases {
        assert!(SessionId::decode(s).is_err(), "accepted {:?}", s);
    }
}

#[test]
fn decode_rejects_foreign_characters() {
    let cases = [
        "AAAAAAAAAAAAAAAAAAAA+A",
        "AAAAAAAAAAAAAAAAAAAA/A",
        "AAAAAAAAAAAAAAAAAAAA=A",
        "AAAAAAAAAAAAAAAAAAAAA=",
        "AAAAAAAAAA AAAAAAAAAAA",
        "AAAAAAAAAAAAAAAAAAAAA!",
        "\u{e9}AAAAAAAAAAAAAAAAAAAAA",
    ];
    for s in cases {
        assert!(SessionId::decode(s).is_err(), "accepted {:?}", s);
    }
}

#[test]
fn decode_rejects_stray_trailing_bits() {
    // The final character may only carry the top two bits of byte 16: of
    // 'A', 'B', ..., only indices with the low four bits clear are canonical.
    assert!(SessionId::decode("AAAAAAAAAAAAAAAAAAAAAB").is_err());
    assert!(SessionId::decode("AAAAAAAAAAAAAAAAAAAAAP").is_err());
    assert!(SessionId::decode("AAAAAAAAAAAAAAAAAAAAAQ").is_ok());
    assert!(SessionId::decode("AAAAAAAAAAAAAAAAAAAAAg").is_ok());
}

#[test]
fn decode_agrees_with_reference_engine() {
    let cases = [
        "AAAAAAAAAAAAAAAAAAAAAA",
        "AAECAwQFBgcICQoLDA0ODw",
        "_____________________w",
        "AAAAAAAAAAAAAAAAAAAAAB",
        "AAAAAAAAAAAAAAAAAAAAAQ",
        "-_-_-_-_-_-_-_-_-_-_-w",
    ];
    for s in cases {
        let ours = SessionId::decode(s);
        let reference = base64::engine::general_purpose::URL_SAFE_NO_PAD.decode(s);
        match reference {
            Ok(bytes) => {
                assert_eq!(bytes.len(), 16);
                let id = ours.expect("reference accepted a 16-byte rendering");
                assert_eq!(id.to_bytes(), bytes);
            }
            Err(_) => assert!(ours.is_err(), "we accepted {:?}", s),
        }
    }
}

#[test]
fn same_as_compares_bytes() {
    let a = id_of([1; 16]);
    let b = id_of([1; 16]);
    let c = id_of([2; 16]);
    assert!(a.same_as(&b));
    assert!(!a.same_as(&c));
}
