//! Edge cases of the identity-mention grammar.

use review_gate::mention::parse_author_mention;

fn handle(s: &str) -> Option<String> {
    parse_author_mention(s)
}

#[test]
fn plain_mention_yields_handle() {
    assert_eq!(handle("Alice Dev (@alice)"), Some("alice".to_string()));
}

#[test]
fn handle_case_and_hyphens_are_kept() {
    assert_eq!(handle("Bob Smith Jr (@Bob-2)"), Some("Bob-2".to_string()));
}

#[test]
fn mention_with_email_yields_handle() {
    assert_eq!(
        handle("Alice Dev (@alice) <alice@example.com>"),
        Some("alice".to_string())
    );
}

#[test]
fn email_with_unusual_characters_is_accepted() {
    assert_eq!(
        handle("Alice (@alice) <a+filter@sub.example.co.uk>"),
        Some("alice".to_string())
    );
}

#[test]
fn name_without_handle_is_skipped() {
    assert_eq!(handle("Alice Dev"), None);
}

#[test]
fn empty_name_is_skipped() {
    assert_eq!(handle("(@alice)"), None);
    assert_eq!(handle(" (@alice)"), None);
}

#[test]
fn empty_handle_is_skipped() {
    assert_eq!(handle("Alice (@)"), None);
}

#[test]
fn handle_with_space_is_skipped() {
    assert_eq!(handle("Alice (@al ice)"), None);
}

#[test]
fn name_with_comma_or_at_is_skipped() {
    assert_eq!(handle("A,B (@ab)"), None);
    assert_eq!(handle("a@b (@ab)"), None);
}

#[test]
fn missing_space_before_parenthesis_is_skipped() {
    assert_eq!(handle("Alice(@alice)"), None);
}

#[test]
fn trailing_junk_after_handle_is_skipped() {
    assert_eq!(handle("Alice (@alice) x"), None);
    assert_eq!(handle("Alice (@alice) <alice@example.com> "), None);
}

#[test]
fn email_must_look_like_an_address() {
    assert_eq!(handle("Alice (@alice) <@example.com>"), None);
    assert_eq!(handle("Alice (@alice) <no-at-sign.com>"), None);
    assert_eq!(handle("Alice (@alice) <a@b>"), None);
    assert_eq!(handle("Alice (@alice) <a@b.>"), None);
    assert_eq!(handle("Alice (@alice) <a@.c>"), None);
}

#[test]
fn unicode_display_names_are_accepted() {
    assert_eq!(handle("Ælfric Öberg (@aelfric)"), Some("aelfric".to_string()));
}
