use opening_stats::classify::{get_user_pieces, Side};
use opening_stats::opening::get_opening_name;
use opening_stats::tags::{parse_tags, ParsedPgnTags};

fn tags_of(text: &str) -> ParsedPgnTags {
    ParsedPgnTags::from_tag_map(&parse_tags(text)).expect("required tags present")
}

#[test]
fn parses_tag_lines_and_resolves_opening() {
    let text = "[Black \"foo\"]\n[White \"Bar Baz\"]\n[ECOUrl \"https://x/y/Italian-Game\"]";
    let tags = parse_tags(text);
    assert_eq!(tags.get("Black").map(String::as_str), Some("foo"));
    assert_eq!(tags.get("White").map(String::as_str), Some("Bar Baz"));
    assert_eq!(tags.get("ECOUrl").map(String::as_str), Some("https://x/y/Italian-Game"));
    let parsed = tags_of(text);
    assert_eq!(parsed.black, "foo");
    assert_eq!(parsed.white, "Bar Baz");
    assert_eq!(parsed.eco, "");
    assert_eq!(parsed.eco_url, "https://x/y/Italian-Game");
    assert_eq!(get_opening_name(&parsed).as_deref(), Some("Italian-Game"));
}

#[test]
fn missing_black_tag_identifies_no_side() {
    let text = "[White \"someone\"]\n[ECOUrl \"https://x/y/z\"]";
    let tags = parse_tags(text);
    assert!(ParsedPgnTags::from_tag_map(&tags).is_none());
}

#[test]
fn missing_white_tag_identifies_no_side() {
    let text = "[Black \"someone\"]\n[ECOUrl \"https://x/y/z\"]";
    let tags = parse_tags(text);
    assert!(ParsedPgnTags::from_tag_map(&tags).is_none());
}

#[test]
fn text_without_any_tags_identifies_no_side() {
    let tags = parse_tags("1. e4 e5 2. Nf3 Nc6 1-0");
    assert!(ParsedPgnTags::from_tag_map(&tags).is_none());
}

#[test]
fn username_match_is_case_insensitive() {
    let lower = tags_of("[Black \"foo\"]\n[White \"other\"]");
    assert_eq!(get_user_pieces("Foo", &lower), Some(Side::Black));
    let upper = tags_of("[Black \"FOO\"]\n[White \"other\"]");
    assert_eq!(get_user_pieces("Foo", &upper), Some(Side::Black));
    let white = tags_of("[Black \"other\"]\n[White \"fOo\"]");
    assert_eq!(get_user_pieces("Foo", &white), Some(Side::White));
    let neither = tags_of("[Black \"a\"]\n[White \"b\"]");
    assert_eq!(get_user_pieces("Foo", &neither), None);
}

#[test]
fn black_tag_takes_priority_over_white() {
    let both = tags_of("[Black \"foo\"]\n[White \"FOO\"]");
    assert_eq!(get_user_pieces("foo", &both), Some(Side::Black));
}

#[test]
fn malformed_lines_are_dropped_not_fatal() {
    let text = "[Black \"b\"]\nnot a tag line\n[broken\n[ \"no name\"]\n[White \"w\"]";
    let tags = parse_tags(text);
    assert_eq!(tags.get("Black").map(String::as_str), Some("b"));
    assert_eq!(tags.get("White").map(String::as_str), Some("w"));
    assert_eq!(tags.pairs.len(), 2);
}

#[test]
fn repeated_tag_keeps_last_occurrence() {
    let tags = parse_tags("[ECO \"A00\"]\n[ECO \"B10\"]");
    assert_eq!(tags.get("ECO").map(String::as_str), Some("B10"));
    assert_eq!(tags.pairs.len(), 1);
}

#[test]
fn empty_tag_value_is_kept_empty() {
    let tags = parse_tags("[ECO \"\"]");
    assert_eq!(tags.get("ECO").map(String::as_str), Some(""));
}

#[test]
fn parse_of_empty_text_yields_no_tags() {
    let tags = parse_tags("");
    assert!(tags.get("Black").is_none());
    assert_eq!(tags.pairs.len(), 0);
}

#[test]
fn crlf_line_endings_are_tolerated() {
    let tags = parse_tags("[Black \"b\"]\r\n[White \"w\"]\r\n");
    assert_eq!(tags.get("Black").map(String::as_str), Some("b"));
    assert_eq!(tags.get("White").map(String::as_str), Some("w"));
}

#[test]
fn opening_name_of_url_without_slash_is_whole_string() {
    let parsed = tags_of("[Black \"b\"]\n[White \"w\"]\n[ECOUrl \"Sicilian-Defense\"]");
    assert_eq!(get_opening_name(&parsed).as_deref(), Some("Sicilian-Defense"));
}

#[test]
fn opening_name_without_eco_url_is_none() {
    let parsed = tags_of("[Black \"b\"]\n[White \"w\"]");
    assert_eq!(parsed.eco_url, "");
    assert!(get_opening_name(&parsed).is_none());
}
