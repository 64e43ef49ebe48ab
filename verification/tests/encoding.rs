use ssh_key_sync::hex::{decode_hex, encode_hex};
use ssh_key_sync::payload::{decimal_string, lookup, parse_entries, serialize_entries};
use ssh_key_sync::text::{
    chars_eq_ignore_ascii_case, chars_of, find_first, find_last, join_parts, parse_u16_chars,
    split_lines, split_words, trimmed,
};

fn chars(s: &str) -> Vec<char> {
    s.chars().collect()
}

fn text(v: &[char]) -> String {
    v.iter().collect()
}

#[test]
fn hex_encoding_is_lowercase_and_decoding_accepts_both_cases() {
    let encoded = encode_hex(&[0x00, 0x9f, 0xab, 0xff]);
    assert_eq!(text(&encoded), "009fabff");
    assert_eq!(decode_hex(&chars("009FabFF")), Some(vec![0x00, 0x9f, 0xab, 0xff]));
    assert_eq!(decode_hex(&chars("")), Some(vec![]));
    assert_eq!(decode_hex(&chars("abc")), None);
    assert_eq!(decode_hex(&chars("zz")), None);
    assert_eq!(decode_hex(&chars("éa")), None);
}

#[test]
fn hex_roundtrip_on_all_byte_values() {
    let bytes: Vec<u8> = (0..=255u8).collect();
    assert_eq!(decode_hex(&encode_hex(&bytes)), Some(bytes));
}

#[test]
fn decimal_text_of_numbers() {
    assert_eq!(decimal_string(0), "0");
    assert_eq!(decimal_string(2222), "2222");
    assert_eq!(decimal_string(u64::MAX), "18446744073709551615");
}

#[test]
fn port_text_parses_like_std() {
    for s in ["0", "22", "+22", "0065535", "65535", "65536", "", "+", "-1", " 1", "1a", "++1"] {
        assert_eq!(parse_u16_chars(&chars(s)), s.parse::<u16>().ok(), "{s:?}");
    }
}

#[test]
fn payload_serialises_one_entry_per_line_and_reads_back() {
    let body = serialize_entries(&[("a", "1".to_owned()), ("b", "x=y".to_owned())]);
    assert_eq!(body, b"a=1\nb=x=y\n".to_vec());
    let pairs = parse_entries(&body).expect("payload should parse");
    assert_eq!(lookup(&pairs, "a"), Some("1".to_owned()));
    assert_eq!(lookup(&pairs, "b"), Some("x=y".to_owned()));
    assert_eq!(lookup(&pairs, "c"), None);
}

#[test]
fn payload_parsing_skips_blank_lines_and_refuses_lines_without_equals() {
    let pairs = parse_entries(b"\r\n  \n k = v \r\nk=w\n").expect("payload should parse");
    assert_eq!(lookup(&pairs, "k"), Some("w".to_owned()));
    assert!(parse_entries(b"k=v\nbroken\n").is_none());
    assert!(parse_entries(&[0xc3]).is_none());
}

#[test]
fn words_lines_and_trimming() {
    let words: Vec<String> = split_words(&chars("  a \t bc\u{3000}d ")).iter().map(|w| text(w)).collect();
    assert_eq!(words, vec!["a", "bc", "d"]);
    let lines: Vec<String> = split_lines(&chars("x\r\ny\n\nz")).iter().map(|l| text(l)).collect();
    assert_eq!(lines, vec!["x", "y", "", "z"]);
    let lines: Vec<String> = split_lines(&chars("x\n")).iter().map(|l| text(l)).collect();
    assert_eq!(lines, vec!["x"]);
    assert_eq!(text(&trimmed(&chars("\u{a0} a b \n"))), "a b");
    let parts = vec![chars("p"), chars("q"), chars("r")];
    assert_eq!(text(&join_parts(&parts, 1, &chars(", "))), "q, r");
}

#[test]
fn searches_and_case_insensitive_comparison() {
    let s = chars("a:b:c");
    assert_eq!(find_first(&s, ':'), Some(1));
    assert_eq!(find_last(&s, ':'), Some(3));
    assert_eq!(find_first(&s, '@'), None);
    assert!(chars_eq_ignore_ascii_case(&chars("PoSt"), &chars("post")));
    assert!(!chars_eq_ignore_ascii_case(&chars("ÉA"), &chars("éa")));
    assert_eq!(chars_of("hé"), vec!['h', 'é']);
}
