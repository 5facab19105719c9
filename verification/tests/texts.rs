use proton_api::calendar_write::{color_name, resolve_color, valid_color, ACCENT_PALETTE};
use proton_api::dates::{format_ical_date_end_exclusive, format_ical_dt};
use proton_api::encoding::{bcrypt_b64_decode, bcrypt_b64_encode, decode_base64};
use proton_api::escape::{escape_ical_text, escape_vcard, unescape_text};
use proton_api::lines::{fold_content_line, unfold_ical_lines};
use proton_api::lists::append_new;
use proton_api::numbers::{decimal_text, padded_text, parse_i32, parse_i64, parse_u32};
use proton_api::ordered::{sort_unique, text_before, TextMap};
use proton_api::text::{split_text, to_lower, to_upper, trimmed, white};
use proton_api::vcard::photo_data_uri;

#[test]
fn white_space_is_that_of_std() {
    for n in 0..=0x10ffffu32 {
        if let Some(c) = char::from_u32(n) {
            assert_eq!(white(c), c.is_whitespace(), "{n:x}");
        }
    }
    assert_eq!(trimmed("\u{2003} a b\u{a0}\n"), "a b");
}

#[test]
fn upper_case_brings_no_carriage_return() {
    for n in 0..=0x10ffffu32 {
        if let Some(c) = char::from_u32(n) {
            assert_eq!(to_upper(&c.to_string()).contains('\r'), c == '\r', "{n:x}");
        }
    }
    assert_eq!(to_upper("\u{e9}\ra"), "\u{c9}\rA");
}

#[test]
fn case_mapping_covers_unicode() {
    assert_eq!(to_upper("straße item1"), "STRASSE ITEM1");
    assert_eq!(to_lower("ÄBC"), "äbc");
}

#[test]
fn splitting_keeps_empty_pieces() {
    assert_eq!(split_text(";a;;", ';'), ["", "a", "", ""]);
    assert_eq!(split_text("", ';'), [""]);
}

#[test]
fn escaped_text_reads_back() {
    let s = "a,b;c\\d\ne\u{1f600}";
    assert_eq!(escape_vcard(s), "a\\,b\\;c\\\\d\\ne\u{1f600}");
    assert_eq!(unescape_text(&escape_vcard(s)), s);
    assert_eq!(escape_ical_text("x\r\ny"), "x\\ny");
    assert_eq!(unescape_text("a\\Nb\\xc\\"), "a\nb\\xc\\");
}

#[test]
fn folded_lines_fit_and_unfold() {
    let line = format!("NOTE:{}", "ä".repeat(100));
    let folded = fold_content_line(&line);
    for (i, piece) in folded.split("\r\n").enumerate() {
        assert!(piece.len() <= 75, "{i}");
        assert_eq!(i == 0, !piece.starts_with(' '));
    }
    assert_eq!(unfold_ical_lines(&folded), [line]);
    let short = "x".repeat(75);
    assert_eq!(fold_content_line(&short), short);
}

#[test]
fn numbers_read_back() {
    for n in [0u64, 9, 10, 1234567890, u64::MAX] {
        assert_eq!(decimal_text(n), n.to_string());
    }
    assert_eq!(padded_text(7, 3), "007");
    assert_eq!(parse_i64("-12"), Some(-12));
    assert_eq!(parse_i64("9223372036854775808"), None);
    assert_eq!(parse_i32("+5"), Some(5));
    assert_eq!(parse_u32("4294967296"), None);
    assert_eq!(parse_u32("-1"), None);
}

#[test]
fn base64_is_strict() {
    assert_eq!(decode_base64("aGk=").unwrap(), b"hi");
    assert_eq!(decode_base64("").unwrap(), b"");
    assert!(decode_base64("aGk").is_err());
    assert!(decode_base64("aGl=").is_err());
    assert!(decode_base64("a Gk=").is_err());
    assert_eq!(
        photo_data_uri(Some("image/png"), &vec![0xff, 0x00, 0x10]),
        "data:image/png;base64,/wAQ"
    );
    assert_eq!(
        photo_data_uri(None, &b"hi".to_vec()),
        "data:image/jpeg;base64,aGk="
    );
}

#[test]
fn bcrypt_base64_reads_back() {
    let bytes: Vec<u8> = (0u8..16).collect();
    let text = bcrypt_b64_encode(&bytes);
    assert_eq!(text, "..CA.uOD/eaGAOmJB.yMBu");
    assert_eq!(bcrypt_b64_decode(&text).unwrap(), bytes);
    assert!(bcrypt_b64_decode("!").is_err());
}

#[test]
fn dates_are_exact() {
    assert_eq!(format_ical_dt(0, false).as_deref(), Some(":19700101T000000Z"));
    assert_eq!(
        format_ical_dt(1_709_210_096, false).as_deref(),
        Some(":20240229T123456Z")
    );
    assert_eq!(
        format_ical_dt(-1, true).as_deref(),
        Some(";VALUE=DATE:19691231")
    );
    assert_eq!(
        format_ical_date_end_exclusive(1_709_210_096).as_deref(),
        Some(";VALUE=DATE:20240301")
    );
    assert_eq!(format_ical_dt(i64::MAX, false), None);
    assert_eq!(format_ical_date_end_exclusive(i64::MAX), None);
}

#[test]
fn texts_are_ordered_like_std() {
    let all = ["", "a", "aa", "b", "B", "ä", "\u{10000}", "\u{ffff}"];
    for a in all {
        for b in all {
            assert_eq!(text_before(a, b), a < b, "{a} {b}");
        }
    }
    let v: Vec<String> = ["b", "a", "b"].iter().map(|s| s.to_string()).collect();
    assert_eq!(sort_unique(&v), ["a", "b"]);
    let mut m = TextMap::new();
    m.insert("k".into(), "1".into());
    m.insert("k".into(), "2".into());
    assert_eq!(m.get("k").map(String::as_str), Some("2"));
    assert_eq!(m.len(), 1);
    assert!(m.get("x").is_none());
}

#[test]
fn appending_skips_what_is_there() {
    let mut out = vec!["a".to_string(), "a".to_string()];
    let more = vec!["b".to_string(), "a".to_string(), "b".to_string()];
    append_new(&mut out, &more);
    assert_eq!(out, ["a", "a", "b"]);
}

#[test]
fn color_names_resolve_to_their_hex() {
    for (name, hex) in ACCENT_PALETTE {
        assert!(valid_color(hex));
        assert_eq!(color_name(&hex.to_lowercase()), Some(name));
        assert_eq!(resolve_color(name).as_deref(), Ok(hex));
        assert_eq!(resolve_color(&hex[1..].to_lowercase()).as_deref(), Ok(hex));
    }
    assert_eq!(
        resolve_color(" ").unwrap_err(),
        "invalid color: empty color"
    );
    assert!(resolve_color("Default").unwrap_err().contains("calendar color"));
    assert_eq!(
        resolve_color("gr\"un").unwrap_err(),
        "invalid color \"gr\\\"un\"; use a palette hex or name"
    );
}
