use mpdiscord::mastodon::compose_bio;

#[test]
fn bio_replaces_previous_notice() {
    assert_eq!(
        compose_bio("I like music.\n\nLast listening to: Old - X", "New - Y"),
        "I like music.\n\nLast listening to: New - Y"
    );
}

#[test]
fn bio_without_notice_gets_one() {
    assert_eq!(compose_bio("Hello \t\n", "N"), "Hello\n\nLast listening to: N");
    assert_eq!(compose_bio("", "N"), "\n\nLast listening to: N");
    assert_eq!(compose_bio("Last listening to: a", "N"), "\n\nLast listening to: N");
    assert_eq!(compose_bio("ends\u{3000}", "N"), "ends\n\nLast listening to: N");
}
