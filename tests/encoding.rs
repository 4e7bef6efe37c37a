use arcade_markets::encoding::base64_encode;
use arcade_markets::life::GridState;

#[test]
fn base64_known_vectors() {
    assert_eq!(base64_encode(b""), "");
    assert_eq!(base64_encode(b"f"), "Zg==");
    assert_eq!(base64_encode(b"fo"), "Zm8=");
    assert_eq!(base64_encode(b"foo"), "Zm9v");
    assert_eq!(base64_encode(b"foob"), "Zm9vYg==");
    assert_eq!(base64_encode(b"fooba"), "Zm9vYmE=");
    assert_eq!(base64_encode(b"foobar"), "Zm9vYmFy");
    assert_eq!(base64_encode(&[0xff, 0xfe, 0xfd]), "//79");
}

#[test]
fn grid_raw_text_holds_little_endian_words() {
    let mut g = GridState::new();
    g.set(0, 0, true);
    g.set(9, 0, true);
    let bytes = g.cells_bytes();
    assert_eq!(bytes.len(), 128);
    assert_eq!(&bytes[0..3], &[1, 2, 0]);
    let raw = g.cells_raw();
    assert_eq!(raw.len(), 172);
    assert!(raw.starts_with("AQIAAAAA"));
    assert!(raw.ends_with("AAA="));
}
