use nibdex::json::{as_i64, as_u64, Json, JsonNumber};
use nibdex::keys::insert_key;
use nibdex::text::{
    from_chars, is_white_space, less, split_lines, split_words, str_eq, to_ascii_lower, to_chars,
    trim,
};

#[test]
fn white_space_is_what_unicode_says() {
    for u in 0..=0x10ffffu32 {
        if let Some(c) = char::from_u32(u) {
            assert_eq!(is_white_space(c), c.is_whitespace(), "{u:x}");
        }
    }
}

const SAMPLES: [&str; 12] = [
    "", " ", "a", "a b", "\n", "a\nb\n", "a\r\nb\r", "\r\n\r\n", "äö ü\u{3000}x", "Aé", "a\n\nb", "\u{10ffff}",
];

#[test]
fn text_agrees_with_the_standard_library() {
    for s in SAMPLES {
        assert_eq!(trim(s), s.trim());
        assert_eq!(split_lines(s), s.lines().map(str::to_string).collect::<Vec<_>>(), "{s:?}");
        let words: Vec<String> = split_words(s).iter().map(|w| from_chars(w)).collect();
        assert_eq!(words, s.split_whitespace().map(str::to_string).collect::<Vec<_>>());
        assert_eq!(from_chars(&to_ascii_lower(&to_chars(s))), s.to_ascii_lowercase());
        for t in SAMPLES {
            assert_eq!(str_eq(s, t), s == t);
            assert_eq!(less(s, t), s < t, "{s:?} {t:?}");
        }
    }
}

#[test]
fn keys_are_kept_in_order() {
    let mut keys = Vec::new();
    for k in ["b", "a", "ab", "b", "", "B"] {
        insert_key(&mut keys, k);
    }
    assert_eq!(keys, vec!["", "B", "a", "ab", "b"]);
}

#[test]
fn documents_are_read_with_their_numbers() {
    let j = Json::parse(
        r#"{"a": 1, "b": -2, "c": 1.5, "d": 18446744073709551615, "e": [true, null, "x"], "a": 3}"#,
    )
    .unwrap();
    assert_eq!(as_i64(j.get("a")), Some(3), "the last of two members counts");
    assert_eq!(as_i64(j.get("b")), Some(-2));
    assert_eq!(as_u64(j.get("b")), None);
    assert_eq!(as_i64(j.get("d")), None);
    assert_eq!(as_u64(j.get("d")), Some(u64::MAX));
    assert!(matches!(j.get("c"), Some(Json::Num(JsonNumber::Float(b))) if *b == 1.5f64.to_bits()));
    assert!(matches!(j.get("e"), Some(Json::Arr(v)) if v.len() == 3));
    assert!(j.get("z").is_none());
    assert!(j.get2("e", "x").is_none());
    for bad in ["", "{", "[1,]", "nul", "1 2"] {
        assert!(Json::parse(bad).is_none(), "{bad}");
    }
}
