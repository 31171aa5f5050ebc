//! Tailer tests: byte-order-marker detection and decoding of both
//! supported encodings into identical logical lines.

use abyss_watcher::tail::decode_lines;
use abyss_watcher::tail::detect_encoding;
use abyss_watcher::tail::split_lines;
use abyss_watcher::tail::Encoding;

fn utf16le_bytes(text: &str, with_bom: bool) -> Vec<u8> {
    let mut bytes = Vec::new();
    if with_bom {
        bytes.push(0xff);
        bytes.push(0xfe);
    }
    for unit in text.encode_utf16() {
        bytes.push((unit & 0xff) as u8);
        bytes.push((unit >> 8) as u8);
    }
    bytes
}

#[test]
fn detects_wide_marker_and_defaults_to_utf8() {
    assert_eq!(detect_encoding(&vec![0xff, 0xfe, 0x41, 0x00]), Encoding::Utf16le);
    assert_eq!(detect_encoding(&vec![0x41, 0x42]), Encoding::Utf8);
    assert_eq!(detect_encoding(&vec![0xff]), Encoding::Utf8);
    assert_eq!(detect_encoding(&vec![]), Encoding::Utf8);
}

#[test]
fn both_encodings_yield_identical_lines() {
    let text = "Session Started: 2025.01.01 12:00:00\r\n[ 2025.01.01 12:01:00 ] (combat) 100 to Enemy - Gun\r\nlast line";
    let narrow = decode_lines(Encoding::Utf8, &text.as_bytes().to_vec());
    let wide = decode_lines(Encoding::Utf16le, &utf16le_bytes(text, true));
    assert_eq!(narrow, wide);
    assert_eq!(narrow.len(), 3);
    assert_eq!(narrow[0], "Session Started: 2025.01.01 12:00:00");
    assert_eq!(narrow[2], "last line");
}

#[test]
fn wide_text_without_marker_still_decodes() {
    let text = "a\nb";
    let wide = decode_lines(Encoding::Utf16le, &utf16le_bytes(text, false));
    assert_eq!(wide, vec!["a".to_string(), "b".to_string()]);
}

#[test]
fn split_lines_handles_endings() {
    assert_eq!(split_lines("a\r\nb\n"), vec!["a".to_string(), "b".to_string()]);
    assert_eq!(split_lines("a\nb"), vec!["a".to_string(), "b".to_string()]);
    assert_eq!(split_lines(""), Vec::<String>::new());
    assert_eq!(split_lines("only"), vec!["only".to_string()]);
}

#[test]
fn zero_bytes_yield_no_lines() {
    assert_eq!(decode_lines(Encoding::Utf8, &Vec::new()), Vec::<String>::new());
    assert_eq!(decode_lines(Encoding::Utf16le, &Vec::new()), Vec::<String>::new());
}
