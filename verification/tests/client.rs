use relay::client::{format_message, mentions};

#[test]
fn message_shape_is_name_colon_text_newline() {
    assert_eq!(format_message("alice", "hello"), "alice: hello\n");
    assert_eq!(format_message("", ""), ": \n");
    assert_eq!(format_message("b", "x y z"), "b: x y z\n");
}

#[test]
fn mention_is_tag_plus_name() {
    assert!(mentions("ping @bob now", "bob"));
    assert!(mentions("@bob", "bob"));
    assert!(mentions("tail case @bob", "bob"));
    assert!(!mentions("bob", "bob"));
    assert!(!mentions("ping bob", "bob"));
    assert!(!mentions("@bo", "bob"));
    assert!(!mentions("", "bob"));
}

#[test]
fn mention_matches_like_plain_substring_search() {
    assert!(mentions("x @bobby", "bob"));
    assert!(mentions("a@b", ""));
    assert!(!mentions("ab", ""));
    assert!(mentions("hi @h\u{f6}la!", "h\u{f6}la"));
}
