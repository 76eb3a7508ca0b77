use csv_ingest::encoding::{detect_and_decode, starts_with_bom};

#[test]
fn bom_is_recognised() {
    assert!(starts_with_bom(&[0xEF, 0xBB, 0xBF]));
    assert!(starts_with_bom(&[0xEF, 0xBB, 0xBF, b'a']));
    assert!(!starts_with_bom(&[0xEF, 0xBB]));
    assert!(!starts_with_bom(&[0xEF, 0xBB, 0xBE, 0xBF]));
    assert!(!starts_with_bom(&[]));
    assert!(!starts_with_bom(b"abc"));
}

#[test]
fn valid_utf8_is_taken_as_it_is() {
    assert_eq!(detect_and_decode(b"SN,Datetime\n"), "SN,Datetime\n");
    assert_eq!(detect_and_decode("合格,é".as_bytes()), "合格,é");
    assert_eq!(detect_and_decode(b""), "");
}

#[test]
fn bom_is_stripped() {
    let mut bytes = vec![0xEF, 0xBB, 0xBF];
    bytes.extend_from_slice("SN,合格".as_bytes());
    assert_eq!(detect_and_decode(&bytes), "SN,合格");
    assert_eq!(detect_and_decode(&[0xEF, 0xBB, 0xBF]), "");
}

#[test]
fn only_the_first_bom_is_stripped() {
    let bytes = [0xEF, 0xBB, 0xBF, 0xEF, 0xBB, 0xBF, b'a'];
    assert_eq!(detect_and_decode(&bytes), "\u{FEFF}a");
}

#[test]
fn after_a_bom_invalid_utf8_is_replaced() {
    let bytes = [0xEF, 0xBB, 0xBF, b'a', 0xC4, 0xE3, b'b'];
    assert_eq!(detect_and_decode(&bytes), "a\u{FFFD}\u{FFFD}b");
}

#[test]
fn invalid_utf8_falls_back_to_gbk() {
    // "你好" in GBK.
    let bytes = [0xC4, 0xE3, 0xBA, 0xC3];
    assert!(std::str::from_utf8(&bytes).is_err());
    assert_eq!(detect_and_decode(&bytes), "你好");
}

#[test]
fn the_fallback_holds_for_the_whole_input() {
    // A valid UTF-8 start does not keep UTF-8 for the start: "é" in UTF-8 is
    // read as GBK too once a later byte is invalid.
    let mut bytes = "é,".as_bytes().to_vec();
    bytes.extend_from_slice(&[0xC4, 0xE3, 0xFF]);
    let text = detect_and_decode(&bytes);
    assert!(!text.starts_with('é'));
    assert!(text.contains(",你"));
    assert!(text.ends_with('\u{FFFD}'));
}

#[test]
fn a_utf16_mark_is_no_bom_here() {
    // FF FE is not valid UTF-8, so the input is read as GBK, mark and all.
    let bytes = [0xFF, 0xFE, b'a', 0x00];
    let text = detect_and_decode(&bytes);
    assert_ne!(text, "a");
    assert!(text.starts_with('\u{FFFD}'));
}

#[test]
fn a_bom_changes_how_invalid_utf8_is_read() {
    // "a你b" in GBK: with the mark the bytes are held to UTF-8, without it
    // they are read as GBK.
    let plain = [b'a', 0xC4, 0xE3, b'b'];
    let marked = [0xEF, 0xBB, 0xBF, b'a', 0xC4, 0xE3, b'b'];
    assert_eq!(detect_and_decode(&plain), "a你b");
    assert_eq!(detect_and_decode(&marked), "a\u{FFFD}\u{FFFD}b");
}
