use ptero_links::names::{link_name, safe};

#[test]
fn safe_keeps_letters_digits_and_the_four_marks() {
    assert_eq!(safe("abcXYZ019-_. "), "abcXYZ019-_. ");
}

#[test]
fn safe_masks_every_other_character() {
    assert_eq!(safe("My Server!"), "My Server_");
    assert_eq!(safe("a/b\\c:d"), "a_b_c_d");
    assert_eq!(safe("tab\there"), "tab_here");
}

#[test]
fn safe_masks_each_non_ascii_character_once() {
    assert_eq!(safe("caf\u{e9}"), "caf_");
    assert_eq!(safe("\u{1f600}x"), "_x");
}

#[test]
fn safe_of_empty_is_empty() {
    assert_eq!(safe(""), "");
}

#[test]
fn safe_is_repeatable_and_stable() {
    let once = safe("Weird*Name?");
    assert_eq!(once, safe("Weird*Name?"));
    assert_eq!(safe(&once), once);
}

#[test]
fn link_name_joins_safe_name_and_id_prefix() {
    assert_eq!(
        link_name("My Server!", "abcdefgh1234"),
        Some("My Server_-abcdefgh".to_string())
    );
}

#[test]
fn link_name_takes_an_id_of_exactly_eight() {
    assert_eq!(link_name("n", "12345678"), Some("n-12345678".to_string()));
}

#[test]
fn link_name_refuses_a_short_id() {
    assert_eq!(link_name("n", "1234567"), None);
    assert_eq!(link_name("n", ""), None);
}

#[test]
fn link_name_counts_characters_of_the_id() {
    assert_eq!(
        link_name("n", "\u{e9}\u{e9}\u{e9}\u{e9}\u{e9}\u{e9}\u{e9}\u{e9}z"),
        Some("n-\u{e9}\u{e9}\u{e9}\u{e9}\u{e9}\u{e9}\u{e9}\u{e9}".to_string())
    );
}
