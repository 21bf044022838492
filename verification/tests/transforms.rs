use text_transform::transforms::{capitalize, lowercase, reverse};

#[test]
fn reverse_turns_the_characters_round() {
    assert_eq!(reverse("abc"), "cba");
    assert_eq!(reverse(""), "");
    assert_eq!(reverse("a"), "a");
}

#[test]
fn reverse_goes_by_code_point_not_by_byte() {
    assert_eq!(reverse("añb"), "bña");
    assert_eq!(reverse("日本語"), "語本日");
    assert_eq!(reverse("e\u{301}x"), "x\u{301}e");
}

#[test]
fn reverse_twice_is_the_text_again() {
    for s in ["", "a", "abc", "Hello, World!", "añb 日本語", "  spaced  "] {
        assert_eq!(reverse(&reverse(s)), s);
    }
}

#[test]
fn reverse_matches_std() {
    for s in ["stressed", "añb", "a\u{1F600}b", "\n\t"] {
        let expected: String = s.chars().rev().collect();
        assert_eq!(reverse(s), expected);
    }
}

#[test]
fn capitalize_ascii() {
    assert_eq!(capitalize("sos"), "SOS");
    assert_eq!(capitalize("Hello, World! 123"), "HELLO, WORLD! 123");
    assert_eq!(capitalize(""), "");
    assert_eq!(capitalize("`az{"), "`AZ{");
}

#[test]
fn lowercase_ascii() {
    assert_eq!(lowercase("SOS"), "sos");
    assert_eq!(lowercase("Hello, World! 123"), "hello, world! 123");
    assert_eq!(lowercase(""), "");
    assert_eq!(lowercase("@AZ["), "@az[");
}

#[test]
fn capitalize_beyond_ascii() {
    assert_eq!(capitalize("é"), "É");
    assert_eq!(capitalize("straße"), "STRASSE");
    assert_eq!(capitalize("привет"), "ПРИВЕТ");
}

#[test]
fn lowercase_beyond_ascii() {
    assert_eq!(lowercase("É"), "é");
    assert_eq!(lowercase("ПРИВЕТ Z"), "привет z");
    assert_eq!(lowercase("ὈΔΥΣΣΕΎΣ"), "ὀδυσσεύς");
}

#[test]
fn casing_matches_std_on_every_ascii_character() {
    for b in 0u8..128 {
        let s = (b as char).to_string();
        assert_eq!(capitalize(&s), s.to_uppercase());
        assert_eq!(lowercase(&s), s.to_lowercase());
    }
    let mut all = String::new();
    for b in 0u8..128 {
        all.push(b as char);
    }
    assert_eq!(capitalize(&all), all.to_uppercase());
    assert_eq!(lowercase(&all), all.to_lowercase());
}

#[test]
fn casing_matches_std_on_mixed_text() {
    for s in ["MiXed Case", "ǅ", "ŉ", "İstanbul", "ﬁn", "Ωmega", "tschüß"] {
        assert_eq!(capitalize(s), s.to_uppercase());
        assert_eq!(lowercase(s), s.to_lowercase());
    }
}

#[test]
fn capitalize_then_lowercase_is_lowercase() {
    for s in ["MiXed", "ALL CAPS", "no caps", "Hello, World! 123", ""] {
        let out = lowercase(&capitalize(s));
        assert_eq!(out, lowercase(s));
        assert!(!out.chars().any(|c| c.is_ascii_uppercase()));
        assert_eq!(lowercase(&out), out);
    }
    assert_eq!(lowercase(&capitalize("MiXed")), "mixed");
}

#[test]
fn lowercase_then_capitalize_is_uppercase() {
    for s in ["MiXed", "ALL CAPS", "no caps", "Hello, World! 123", ""] {
        let out = capitalize(&lowercase(s));
        assert_eq!(out, capitalize(s));
        assert!(!out.chars().any(|c| c.is_ascii_lowercase()));
        assert_eq!(capitalize(&out), out);
    }
    assert_eq!(capitalize(&lowercase("MiXed")), "MIXED");
}

#[test]
fn the_transforms_are_at_hand_from_the_root() {
    assert_eq!(text_transform::reverse("abc"), "cba");
    assert_eq!(text_transform::to_binary("Hi"), "01001000 01101001");
    assert_eq!(text_transform::from_binary("01001000 01101001"), "Hi");
    assert_eq!(text_transform::capitalize("hi"), "HI");
    assert_eq!(text_transform::lowercase("HI"), "hi");
}

#[test]
fn a_capital_without_a_small_form_stays_capital() {
    let bold_a = "\u{1d400}";
    assert_eq!(lowercase(&capitalize(bold_a)), bold_a);
    assert!(bold_a.chars().all(|c| c.is_uppercase()));
}

#[test]
fn a_sharp_s_does_not_come_back() {
    assert_eq!(lowercase(&capitalize("ß")), "ss");
    assert_eq!(lowercase("ß"), "ß");
}
