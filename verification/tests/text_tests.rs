use ruskynet::rsknet_text::{char_is_whitespace, decode_text, parse_u32, split_whitespace_words, u32_to_string};

#[test]
fn decimal_matches_to_string() {
    for n in [0u32, 7, 10, 99, 100, 12345, 4294967295] {
        assert_eq!(u32_to_string(n), n.to_string());
    }
}

#[test]
fn parse_matches_std() {
    let cases = [
        "0", "42", "+42", "-1", "", "+", "007", "4294967295", "4294967296", "99999999999", "12a",
        " 1", "+-1", "++1",
    ];
    for c in cases {
        assert_eq!(parse_u32(c), c.parse::<u32>().ok(), "input {:?}", c);
    }
}

#[test]
fn whitespace_matches_std() {
    for c in ['\t', '\n', '\u{0b}', '\u{0c}', '\r', ' ', '\u{85}', '\u{a0}', '\u{1680}', '\u{2000}',
        '\u{200a}', '\u{2028}', '\u{2029}', '\u{202f}', '\u{205f}', '\u{3000}', 'a', '0', '\u{200b}',
        '\u{feff}', '\u{7f}'] {
        assert_eq!(char_is_whitespace(c), c.is_whitespace(), "char {:?}", c);
    }
}

#[test]
fn split_matches_std() {
    let cases = [
        "", "   ", "a", " a b  c ", "1 1 2 127.0.0.1 8000", "x\u{3000}y\u{a0}z", "héllo wörld",
        "\ttab\nnew\rline",
    ];
    for c in cases {
        let ours = split_whitespace_words(c);
        let std: Vec<String> = c.split_whitespace().map(|w| w.to_string()).collect();
        assert_eq!(ours, std, "input {:?}", c);
    }
}

#[test]
fn decode_text_accepts_utf8_only() {
    assert_eq!(decode_text("héllo".as_bytes()), Some("héllo"));
    assert_eq!(decode_text(&[0xff, 0x41]), None);
    assert_eq!(decode_text(&[0xed, 0xa0, 0x80]), None);
    assert_eq!(decode_text(&[]), Some(""));
}
