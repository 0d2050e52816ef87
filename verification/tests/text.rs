use mud_engine::text::{chars_vec, first_token_str};

#[test]
fn first_token_skips_leading_whitespace() {
    assert_eq!(first_token_str("  kick  me "), "kick");
    assert_eq!(first_token_str("\t\ntalk"), "talk");
    assert_eq!(first_token_str("say"), "say");
}

#[test]
fn first_token_of_blank_text_is_empty() {
    assert_eq!(first_token_str(""), "");
    assert_eq!(first_token_str("   \t  "), "");
}

#[test]
fn first_token_stops_at_the_first_gap() {
    assert_eq!(first_token_str("tail swipe"), "tail");
    assert_eq!(first_token_str("a b c"), "a");
}

#[test]
fn chars_round_trip() {
    let v = chars_vec("tail swipe");
    assert_eq!(v.iter().collect::<String>(), "tail swipe");
    assert!(chars_vec("").is_empty());
}
