use vizzy::text::{decimal_text, project_slug, truncate};

#[test]
fn decimal_rendering() {
    assert_eq!(decimal_text(0), "0");
    assert_eq!(decimal_text(7), "7");
    assert_eq!(decimal_text(10), "10");
    assert_eq!(decimal_text(1234567890), "1234567890");
    assert_eq!(decimal_text(u64::MAX), "18446744073709551615");
}

#[test]
fn truncate_keeps_short_text() {
    assert_eq!(truncate("hello", 10), "hello");
    assert_eq!(truncate("hello", 5), "hello");
    assert_eq!(truncate("", 0), "");
}

#[test]
fn truncate_cuts_long_text() {
    assert_eq!(truncate("hello world", 8), "hello...");
    assert_eq!(truncate("hello world", 3), "...");
    assert_eq!(truncate("hello world", 2), "...");
}

#[test]
fn truncate_counts_characters() {
    assert_eq!(truncate("héllo wörld", 6), "hél...");
}

#[test]
fn slug_replaces_slashes() {
    assert_eq!(project_slug("/home/user/my-project"), "-home-user-my-project");
    assert_eq!(project_slug("plain"), "plain");
    assert_eq!(project_slug(""), "");
}
