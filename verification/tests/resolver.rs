use mud_engine::resolver::{distance_within, resolve, Command, TOLERANCE};

#[test]
fn distance_exact_values() {
    assert_eq!(distance_within("talk", "tal", 2), Some(1));
    assert_eq!(distance_within("talk", "talk", 2), Some(0));
    assert_eq!(distance_within("tell", "tal", 2), Some(2));
    assert_eq!(distance_within("say", "tal", 2), Some(2));
    assert_eq!(distance_within("kick", "ki", 2), Some(2));
    assert_eq!(distance_within("", "", 2), Some(0));
    assert_eq!(distance_within("abc", "", 2), None);
    assert_eq!(distance_within("ab", "", 2), Some(2));
}

#[test]
fn distance_budget_is_exact_at_the_bound() {
    assert_eq!(distance_within("kitten", "sitting", 3), Some(3));
    assert_eq!(distance_within("kitten", "sitting", 2), None);
}

#[test]
fn tolerance_is_two() {
    assert_eq!(TOLERANCE, 2);
}

#[test]
fn tal_resolves_to_talk() {
    assert_eq!(resolve("tal"), Some(Command::Talk));
}

#[test]
fn exact_keywords_resolve_to_themselves() {
    assert_eq!(resolve("say"), Some(Command::Say));
    assert_eq!(resolve("tail swipe"), Some(Command::TailSwipe));
    assert_eq!(resolve("kick"), Some(Command::Kick));
    assert_eq!(resolve("quit"), Some(Command::Quit));
    assert_eq!(resolve("score"), Some(Command::Score));
}

#[test]
fn distant_input_finds_no_match() {
    assert_eq!(resolve("xyzzyx"), None);
    assert_eq!(resolve("swipe tail"), None);
}

#[test]
fn closest_entry_wins() {
    // "kic" is one edit from "kick" and no entry is closer.
    assert_eq!(resolve("kic"), Some(Command::Kick));
    // "quie" is one edit from "quit".
    assert_eq!(resolve("quie"), Some(Command::Quit));
}

#[test]
fn declaration_order_breaks_ties() {
    // "t" is one edit from each single-letter keyword; "n" is declared
    // first among them and nothing is closer.
    assert_eq!(resolve("t"), Some(Command::North));
    // "ki" is two edits from both "kick" and "me"; "kick" is declared first.
    assert_eq!(resolve("ki"), Some(Command::Kick));
}
