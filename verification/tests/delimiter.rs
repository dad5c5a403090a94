use host_core::delimiter::parse_delimiter;
use host_core::numeric::{parse_hex_u8, parse_u16, parse_unsigned_radix, parse_usize};
use host_core::tool::requested_delimiter;

#[test]
fn parse_delimiter_supports_keywords_and_bytes() {
    assert_eq!(parse_delimiter("comma"), Some(b','));
    assert_eq!(parse_delimiter("|"), Some(b'|'));
    assert_eq!(parse_delimiter("0x09"), Some(b'\t'));
    assert_eq!(parse_delimiter("invalid"), None);
}

#[test]
fn delimiter_keywords_ignore_ascii_case() {
    assert_eq!(parse_delimiter("COMMA"), Some(b','));
    assert_eq!(parse_delimiter("Tab"), Some(b'\t'));
    assert_eq!(parse_delimiter("\\t"), Some(b'\t'));
    assert_eq!(parse_delimiter("\\T"), Some(b'\t'));
    assert_eq!(parse_delimiter("SemiColon"), Some(b';'));
    assert_eq!(parse_delimiter(";"), Some(b';'));
    assert_eq!(parse_delimiter("PIPE"), Some(b'|'));
    assert_eq!(parse_delimiter("caret"), Some(b'^'));
    assert_eq!(parse_delimiter("^"), Some(b'^'));
    assert_eq!(parse_delimiter(","), Some(b','));
}

#[test]
fn delimiter_hex_forms() {
    assert_eq!(parse_delimiter("0x2C"), Some(b','));
    assert_eq!(parse_delimiter("0X7c"), Some(b'|'));
    assert_eq!(parse_delimiter("0x+1f"), Some(0x1f));
    assert_eq!(parse_delimiter("0x0009"), Some(9));
    assert_eq!(parse_delimiter("0xff"), Some(255));
    assert_eq!(parse_delimiter("0x100"), None);
    assert_eq!(parse_delimiter("0x"), None);
    assert_eq!(parse_delimiter("0x+"), None);
    assert_eq!(parse_delimiter("0x-1"), None);
    assert_eq!(parse_delimiter("0xzz"), None);
    assert_eq!(parse_delimiter("0x 9"), None);
}

#[test]
fn delimiter_single_bytes() {
    assert_eq!(parse_delimiter("a"), Some(b'a'));
    assert_eq!(parse_delimiter("0"), Some(b'0'));
    assert_eq!(parse_delimiter(" "), Some(b' '));
    assert_eq!(parse_delimiter("é"), None);
    assert_eq!(parse_delimiter("ab"), None);
    assert_eq!(parse_delimiter(""), None);
}

#[test]
fn every_ascii_character_is_its_own_delimiter() {
    for b in 0u8..128 {
        let s = (b as char).to_string();
        assert_eq!(parse_delimiter(&s), Some(b), "byte {b}");
    }
}

#[test]
fn every_byte_round_trips_through_hex() {
    for b in 0u8..=255 {
        assert_eq!(parse_delimiter(&format!("0x{b:02x}")), Some(b));
        assert_eq!(parse_delimiter(&format!("0X{b:02X}")), Some(b));
    }
}

#[test]
fn requested_delimiter_reports_unsupported_values() {
    assert_eq!(requested_delimiter(None).ok(), Some(None));
    assert_eq!(requested_delimiter(Some("pipe")).ok(), Some(Some(b'|')));
    let error = requested_delimiter(Some("bogus")).unwrap_err();
    assert_eq!(error.status(), 400);
    assert_eq!(error.message(), "unsupported delimiter value: bogus");
}

#[test]
fn unsigned_parsing_follows_from_str_radix() {
    assert_eq!(parse_u16("8080"), Some(8080));
    assert_eq!(parse_u16("+80"), Some(80));
    assert_eq!(parse_u16("0065535"), Some(65535));
    assert_eq!(parse_u16("65536"), None);
    assert_eq!(parse_u16(""), None);
    assert_eq!(parse_u16("+"), None);
    assert_eq!(parse_u16("-1"), None);
    assert_eq!(parse_u16(" 80"), None);
    assert_eq!(parse_u16("80 "), None);
    assert_eq!(parse_u16("8_0"), None);
    assert_eq!(parse_usize("50"), Some(50));
    assert_eq!(parse_usize("18446744073709551615"), Some(usize::MAX));
    assert_eq!(parse_usize("18446744073709551616"), None);
    assert_eq!(parse_hex_u8("Ff"), Some(255));
    assert_eq!(parse_hex_u8("g"), None);
    assert_eq!(parse_unsigned_radix("zz", 36, 2000), Some(35 * 36 + 35));
    for n in [0u16, 1, 9, 10, 443, 8080, 65535] {
        assert_eq!(parse_u16(&n.to_string()), n.to_string().parse::<u16>().ok());
    }
}
