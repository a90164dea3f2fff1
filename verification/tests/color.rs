use pso2_scraper::color::{
    background_of, hex_from_groups, hex_text, normal, normalize, rgb_to_hex, swatch,
};
use pso2_scraper::pattern::{capture, group, ARTICLE_PATTERN, BACKGROUND_PATTERN, TRIPLET_PATTERN};

#[test]
fn rgb_to_hex_pads_each_component() {
    assert_eq!(rgb_to_hex("rgb(255, 0, 0)"), Some("#ff0000".to_string()));
    assert_eq!(rgb_to_hex("rgb(1,2,3)"), Some("#010203".to_string()));
    assert_eq!(rgb_to_hex("rgb(0, 0, 0)"), Some("#000000".to_string()));
    assert_eq!(rgb_to_hex("rgb(171, 205, 239)"), Some("#abcdef".to_string()));
    assert_eq!(rgb_to_hex("rgb(16,15,255)"), Some("#100fff".to_string()));
}

#[test]
fn rgb_to_hex_is_seven_characters_in_lowercase() {
    let mut r: u32 = 0;
    while r < 256 {
        let text = format!("rgb({}, {}, {})", r, 255 - r, (r * 7) % 256);
        let hex = rgb_to_hex(&text).unwrap();
        assert_eq!(hex.len(), 7);
        assert!(hex.starts_with('#'));
        assert!(hex[1..].chars().all(|c| c.is_ascii_digit() || ('a'..='f').contains(&c)));
        assert_eq!(u32::from_str_radix(&hex[1..3], 16).unwrap(), r);
        assert_eq!(u32::from_str_radix(&hex[3..5], 16).unwrap(), 255 - r);
        assert_eq!(u32::from_str_radix(&hex[5..7], 16).unwrap(), (r * 7) % 256);
        r += 1;
    }
}

#[test]
fn rgb_to_hex_finds_no_triplet() {
    assert_eq!(rgb_to_hex(""), None);
    assert_eq!(rgb_to_hex("#ff0000"), None);
    assert_eq!(rgb_to_hex("red"), None);
    assert_eq!(rgb_to_hex("rgb(1, 2)"), None);
    assert_eq!(rgb_to_hex("rgb(1 2 3)"), None);
    assert_eq!(rgb_to_hex("rgba(1, 2, 3, 0.5)"), None);
    assert_eq!(rgb_to_hex("rgb(-1, 2, 3)"), None);
}

#[test]
fn rgb_to_hex_refuses_a_component_above_255() {
    assert_eq!(rgb_to_hex("rgb(256, 0, 0)"), None);
    assert_eq!(rgb_to_hex("rgb(0, 300, 0)"), None);
    assert_eq!(rgb_to_hex("rgb(0, 0, 99999999999999999999999999)"), None);
}

#[test]
fn rgb_to_hex_refuses_digits_outside_ascii() {
    assert_eq!(rgb_to_hex("rgb(\u{661}, 2, 3)"), None);
}

#[test]
fn rgb_to_hex_finds_a_triplet_inside_text() {
    assert_eq!(rgb_to_hex("color: rgb(10, 20, 30) !important"), Some("#0a141e".to_string()));
}

#[test]
fn hex_text_writes_two_digits_for_each_component() {
    assert_eq!(hex_text(0, 0, 0), "#000000");
    assert_eq!(hex_text(255, 255, 255), "#ffffff");
    assert_eq!(hex_text(18, 52, 86), "#123456");
    assert_eq!(hex_text(9, 10, 11), "#090a0b");
}

#[test]
fn hex_from_groups_needs_three_components() {
    let full = Some(vec![
        Some("rgb(1,2,3)".to_string()),
        Some("1".to_string()),
        Some("2".to_string()),
        Some("3".to_string()),
    ]);
    assert_eq!(hex_from_groups(&full), Some("#010203".to_string()));
    let short = Some(vec![Some("x".to_string()), Some("1".to_string()), Some("2".to_string())]);
    assert_eq!(hex_from_groups(&short), None);
    let absent = Some(vec![Some("x".to_string()), Some("1".to_string()), None, Some("3".to_string())]);
    assert_eq!(hex_from_groups(&absent), None);
    assert_eq!(hex_from_groups(&None), None);
}

#[test]
fn group_picks_a_capture() {
    let found = Some(vec![Some("ab".to_string()), None, Some("b".to_string())]);
    assert_eq!(group(&found, 0), Some("ab"));
    assert_eq!(group(&found, 1), None);
    assert_eq!(group(&found, 2), Some("b"));
    assert_eq!(group(&found, 3), None);
    assert_eq!(group(&None, 0), None);
}

#[test]
fn capture_searches_with_the_pattern() {
    assert_eq!(capture(TRIPLET_PATTERN, "rgb(12, 34, 56)", 2), Some("34".to_string()));
    assert_eq!(capture(TRIPLET_PATTERN, "rgb(12, 34, 56)", 0), Some("rgb(12, 34, 56)".to_string()));
    assert_eq!(capture(TRIPLET_PATTERN, "rgb(12, 34, 56)", 4), None);
    assert_eq!(capture(TRIPLET_PATTERN, "nothing", 1), None);
    assert_eq!(capture(ARTICLE_PATTERN, "ShowDetails('a-b', 'c')", 1), Some("a-b".to_string()));
    assert_eq!(capture(BACKGROUND_PATTERN, "background:red;", 1), Some("red".to_string()));
}

#[test]
fn capture_with_a_broken_pattern_finds_nothing() {
    assert_eq!(capture("(", "(", 0), None);
}

#[test]
fn background_of_reads_the_declared_colour() {
    assert_eq!(background_of("background: #ff0000;"), Some("#ff0000".to_string()));
    assert_eq!(background_of("color: red; background:   rgb(1, 2, 3); width: 1px"),
        Some("rgb(1, 2, 3)".to_string()));
    assert_eq!(background_of("background: #FFF ;"), Some("#FFF ".to_string()));
}

#[test]
fn background_of_needs_a_closed_declaration() {
    assert_eq!(background_of(""), None);
    assert_eq!(background_of("background: #ff0000"), None);
    assert_eq!(background_of("color: red;"), None);
    assert_eq!(background_of("background:;"), None);
}

#[test]
fn swatch_converts_a_triplet() {
    assert_eq!(swatch("rgb(255, 0, 0)"), "#ff0000");
    assert_eq!(swatch("red"), "red");
    assert_eq!(swatch("rgb(999, 0, 0)"), "rgb(999, 0, 0)");
    assert_eq!(swatch("#FF0000"), "#FF0000");
    assert_eq!(swatch(" rgb(255, 0, 0)"), " rgb(255, 0, 0)");
    assert_eq!(swatch(""), "");
}

#[test]
fn normalize_trims_and_lowers() {
    assert_eq!(normalize("  #FF0000 "), "#ff0000");
    assert_eq!(normalize("#ff0000"), "#ff0000");
    assert_eq!(normalize("RED"), "red");
    assert_eq!(normalize("\u{c9}"), "\u{e9}");
}

#[test]
fn normalize_is_idempotent() {
    let samples = ["  #FF0000 ", "Red", " rgb(1, 2, 3)", "", "\t#AbC\n"];
    for s in samples {
        let once = normalize(s);
        assert_eq!(normalize(&once), once);
    }
}

#[test]
fn normal_tells_settled_colours() {
    assert!(normal("#ff0000"));
    assert!(normal("rgb(1, 2, 3)"));
    assert!(normal(""));
    assert!(!normal("#FF0000"));
    assert!(!normal(" #ff0000"));
    assert!(!normal("#ff0000\n"));
    assert!(!normal("\u{c9}"));
}

#[test]
fn normalize_gives_settled_colours() {
    let samples = ["  #FF0000 ", "Red", " rgb(1, 2, 3)", "", "\t#AbC\n", "\u{130}x ", "\u{3a3}\u{3a3}"];
    for s in samples {
        assert!(normal(&normalize(s)));
    }
}
