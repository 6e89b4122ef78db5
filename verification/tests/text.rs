use xiaozhi_server::firmware::{select_firmware, version_lt};
use xiaozhi_server::json::{extract_payload, parse_json_string, parse_nested_json_string};
use xiaozhi_server::map::StringMap;
use xiaozhi_server::text::{
    ascii_lowercase, begins, chars_of, find_from, has_text, parse_number, push_decimal, push_hex,
    same, sanitize, strip_prefix, trim, whitespace,
};

const SAMPLES: [&str; 12] = [
    "",
    " ",
    "a",
    " a ",
    "\t\r\n",
    "\u{a0}x\u{3000}",
    "Hello, World",
    "  two words\r\n",
    "\u{200b}zero",
    "你好 小智\u{2028}",
    "ÀÉ Z",
    "a\u{85}b",
];

#[test]
fn white_space_is_that_of_std() {
    for code in 0..=0x10ffffu32 {
        if let Some(c) = char::from_u32(code) {
            assert_eq!(whitespace(c), c.is_whitespace());
        }
    }
}

#[test]
fn trimming_is_that_of_std() {
    for text in SAMPLES {
        assert_eq!(trim(text), text.trim());
    }
}

#[test]
fn padding_makes_no_difference() {
    for text in SAMPLES {
        assert_eq!(trim(&format!(" \t{text}\r\n")), trim(text));
    }
}

#[test]
fn small_letters_are_those_of_std() {
    for text in SAMPLES {
        let lower = ascii_lowercase(text);
        assert_eq!(lower, text.to_ascii_lowercase());
        assert_eq!(ascii_lowercase(&lower), lower);
    }
}

#[test]
fn sanitized_text_holds_letters_and_digits() {
    assert_eq!(sanitize("11:22-Aa_é z"), "1122Aaz");
    assert_eq!(sanitize("Abc123"), "Abc123");
    assert_eq!(sanitize("你好"), "");
    let once = sanitize("a.b.c");
    assert_eq!(sanitize(&once), once);
}

#[test]
fn texts_are_compared_and_searched() {
    for a in SAMPLES {
        for b in SAMPLES {
            assert_eq!(same(a, b), a == b);
            assert_eq!(has_text(a, b), a.contains(b));
            assert_eq!(begins(a, b), a.starts_with(b));
        }
    }
}

#[test]
fn first_position_counts_characters() {
    let hay = chars_of("你好x好x");
    assert_eq!(find_from(&hay, &['x'], 0), Some(2));
    assert_eq!(find_from(&hay, &['x'], 3), Some(4));
    assert_eq!(find_from(&hay, &['x'], 5), None);
    assert_eq!(find_from(&hay, &['好', 'x'], 0), Some(1));
    assert_eq!(find_from(&hay, &[], 5), Some(5));
    assert_eq!(find_from(&hay, &['y'], 0), None);
}

#[test]
fn repeated_prefixes_are_dropped() {
    assert_eq!(strip_prefix("/ws/abc", "/ws/"), "abc");
    assert_eq!(strip_prefix("/ws//ws/abc", "/ws/"), "abc");
    assert_eq!(strip_prefix("/ws/", "/ws/"), "");
    assert_eq!(strip_prefix("/ws/a/ws/", "/ws/"), "a/ws/");
    assert_eq!(strip_prefix("/wsx", "/ws/"), "/wsx");
}

#[test]
fn numbers_are_read_as_by_std() {
    let samples = [
        "", "0", "7", "+7", "-7", "+", "++7", "007", "4294967295", "4294967296", "1e3", " 1", "1 ",
        "99999999999999999999", "٣", "1_000",
    ];
    for text in samples {
        let digits = chars_of(text);
        assert_eq!(
            parse_number(&digits, 0, digits.len(), u32::MAX as u64),
            text.parse::<u32>().ok().map(|n| n as u64)
        );
        assert_eq!(
            parse_number(&digits, 0, digits.len(), u64::MAX),
            text.parse::<u64>().ok()
        );
    }
}

#[test]
fn numbers_are_written_and_read_back() {
    for n in [0u64, 9, 10, 65_536, u64::MAX] {
        let mut text = String::from("n=");
        push_decimal(&mut text, n as u128);
        assert_eq!(text, format!("n={n}"));
        let digits = chars_of(&text);
        assert_eq!(parse_number(&digits, 2, digits.len(), u64::MAX), Some(n));
    }
    let mut large = String::new();
    push_decimal(&mut large, u128::MAX);
    assert_eq!(large, u128::MAX.to_string());
}

#[test]
fn hexadecimal_digits_are_padded() {
    let mut text = String::new();
    push_hex(&mut text, 0xbeef, 6);
    assert_eq!(text, "00beef");
}

#[test]
fn map_keeps_one_value_for_a_key() {
    let mut map: StringMap<String> = StringMap::new();
    assert_eq!(map.len(), 0);
    assert!(map.get("a").is_none());
    map.insert("a".to_string(), "1".to_string());
    map.insert("b".to_string(), "2".to_string());
    map.insert("a".to_string(), "3".to_string());
    assert_eq!(map.len(), 2);
    assert_eq!(map.get("a").map(String::as_str), Some("3"));
    assert_eq!(map.get("b").map(String::as_str), Some("2"));
    assert_eq!(map.entry(0).0, "a");
    assert_eq!(map.entry(1).1, "2");
    map.remove("c");
    assert_eq!(map.len(), 2);
    map.remove("a");
    assert_eq!(map.len(), 1);
    assert!(map.get("a").is_none());
    assert_eq!(map.get("b").map(String::as_str), Some("2"));
}

#[test]
fn fields_are_looked_for_in_text() {
    assert_eq!(parse_json_string("{}", "a"), None);
    assert_eq!(parse_json_string(r#"{"a"}"#, "a"), None);
    assert_eq!(parse_json_string(r#"{"a":1}"#, "a"), None);
    assert_eq!(parse_json_string(r#"{"a":"open}"#, "a"), None);
    assert_eq!(parse_json_string(r#"{"a":"#, "a"), None);
    assert_eq!(
        parse_json_string("{\"a\" , :\n\t\"x y\"}", "a").as_deref(),
        Some("x y")
    );
    assert_eq!(
        parse_json_string(r#"{"b":"a","a":"你好"}"#, "b").as_deref(),
        Some("a")
    );
    assert_eq!(
        parse_json_string(r#"{"x":"a","a":"你好"}"#, "a").as_deref(),
        Some("你好")
    );
    assert_eq!(parse_json_string(r#"{"a":""}"#, "a").as_deref(), Some(""));
    assert_eq!(
        parse_json_string(r#"{"a":"x\"y"}"#, "a").as_deref(),
        Some("x\\")
    );
}

#[test]
fn one_field_is_read_back() {
    for value in ["", "esp32-001", "a:b", "你好", "{}"] {
        let body = format!("{{\"device_id\":\"{value}\"}}");
        assert_eq!(
            parse_json_string(&body, "device_id").as_deref(),
            Some(value)
        );
    }
}

#[test]
fn nested_fields_start_at_the_object() {
    let body = r#"{"name":"outer","application":{"version":"1.2"},"board":{"name":"bread"}}"#;
    assert_eq!(
        parse_nested_json_string(body, "board", "name").as_deref(),
        Some("bread")
    );
    assert_eq!(
        parse_nested_json_string(body, "application", "version").as_deref(),
        Some("1.2")
    );
    assert_eq!(parse_nested_json_string(body, "board", "version"), None);
    assert_eq!(parse_nested_json_string(body, "other", "name"), None);
}

#[test]
fn payload_runs_up_to_the_last_character() {
    assert_eq!(extract_payload("{}"), "{}");
    assert_eq!(
        extract_payload(r#"{"type":"mcp","payload":{"x":1}}"#),
        r#"{"x":1}"#
    );
    assert_eq!(
        extract_payload(r#"{"payload":1,"payload":2}"#),
        r#"1,"payload":2"#
    );
    assert_eq!(extract_payload(r#""payload":"#), "{}");
    assert_eq!(extract_payload(r#""payload":}"#), "");
    assert_eq!(extract_payload(r#""payload":你好}"#), "你好");
    assert_eq!(extract_payload(r#""payload":1你"#), "{}");
}

#[test]
fn versions_are_ordered_number_by_number() {
    assert!(version_lt("0.9.8", "1.0.2"));
    assert!(version_lt("1.0", "1.0.2"));
    assert!(version_lt("1.0.1", "1.0.2"));
    assert!(version_lt("1.0.1.9", "1.0.2"));
    assert!(version_lt("", "1.0.2"));
    assert!(version_lt("x.y", "1.0.2"));
    assert!(version_lt("+1.0.1", "1.0.2"));
    assert!(version_lt("4294967296", "1.0.2"));
    assert!(!version_lt("1.0.2", "1.0.2"));
    assert!(!version_lt("1.0.2.0", "1.0.2"));
    assert!(!version_lt("1.0.10", "1.0.2"));
    assert!(!version_lt("1.00.02", "1.0.2"));
    assert!(!version_lt("4294967295", "1.0.2"));
    assert!(version_lt("1", "1."));
}

#[test]
fn version_order_is_strict_and_total() {
    let versions = ["", "0.9", "1", "1.", "1.0.2", "1.0.10", "2.0"];
    for (i, a) in versions.iter().enumerate() {
        for (j, b) in versions.iter().enumerate() {
            assert_eq!(version_lt(a, b), i < j);
        }
    }
}

#[test]
fn firmware_is_offered_for_earlier_versions() {
    let old = select_firmware("esp-box", "1.0.1");
    assert_eq!(old.version, "1.0.2");
    assert_eq!(old.url, "https://example.com/firmware/1.0.2.bin");

    let same_version = select_firmware("bread-compact", "1.0.2");
    assert_eq!(same_version.version, "1.0.2");
    assert_eq!(same_version.url, "");

    let newer = select_firmware("bread-compact", "2.0");
    assert_eq!(newer.version, "2.0");
    assert_eq!(newer.url, "");
}

#[test]
fn offered_firmware_is_not_offered_again() {
    for current in ["0.9.8", "1.0.2", "3.1", "nonsense"] {
        let offer = select_firmware("bread-x", current);
        let again = select_firmware("bread-x", &offer.version);
        assert_eq!(again.version, offer.version);
        assert_eq!(again.url, "");
    }
}
