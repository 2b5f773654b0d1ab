use base64::engine::general_purpose::{STANDARD, STANDARD_NO_PAD};
use base64::Engine;
use gcp::{clean_content, Base64Decoder, GcpError};

#[test]
fn test_decode_simple() {
    let encoded = "SGVsbG8gV29ybGQ=";
    let decoded = Base64Decoder::decode(encoded).unwrap();
    assert_eq!(decoded, b"Hello World");
}

#[test]
fn test_decode_no_padding() {
    let encoded = "SGVsbG8gV29ybGQ";
    let decoded = Base64Decoder::decode(encoded).unwrap();
    assert_eq!(decoded, b"Hello World");
}

#[test]
fn test_decode_empty() {
    let encoded = "";
    let decoded = Base64Decoder::decode(encoded).unwrap();
    assert_eq!(decoded, b"");
}

#[test]
fn decode_round_trips_padded_and_unpadded() {
    let samples: Vec<Vec<u8>> = vec![
        vec![],
        vec![0],
        vec![255],
        vec![1, 2],
        vec![0xfb, 0xff, 0xbf],
        b"any carnal pleasure.".to_vec(),
        (0u8..=255).collect(),
    ];
    for b in samples {
        let padded = STANDARD.encode(&b);
        let unpadded = STANDARD_NO_PAD.encode(&b);
        assert_eq!(Base64Decoder::decode(&padded).unwrap(), b);
        assert_eq!(Base64Decoder::decode(&unpadded).unwrap(), b);
    }
}

#[test]
fn decode_rejects_bang() {
    let r = Base64Decoder::decode("SGVs!bG8=");
    assert!(matches!(r, Err(GcpError::ParseError(_))));
}

#[test]
fn decode_rejects_inner_space() {
    assert!(matches!(Base64Decoder::decode("SGVs bG8="), Err(GcpError::ParseError(_))));
}

#[test]
fn decode_ignores_surrounding_space_and_breaks() {
    let d = Base64Decoder::decode("  SGVs\nbG8g\r\nV29y\nbGQ=\n ").unwrap();
    assert_eq!(d, b"Hello World");
}

#[test]
fn decode_single_character_gives_nothing() {
    assert_eq!(Base64Decoder::decode("Q").unwrap(), Vec::<u8>::new());
}

#[test]
fn clean_content_drops_escaped_and_real_breaks() {
    let c = clean_content("  SGVs\\nbG8g\\rV29y\nbGQ=\r ");
    assert_eq!(c, "SGVsbG8gV29ybGQ=");
}

#[test]
fn clean_content_removes_escapes_in_two_passes() {
    // `\\nr`: the first pass removes `\n`, leaving `\r` for the second.
    assert_eq!(clean_content("a\\\\nrb"), "ab");
}
