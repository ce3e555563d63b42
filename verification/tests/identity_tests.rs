use mailbox::identity::{deduplicate_emails, generate_email_id, truncate_content};
use mailbox::models::Email;

fn email(sender: &str, sent_date: &str, subject: &str, body: &str) -> Email {
    Email {
        id: 0,
        sender: sender.to_string(),
        sent_date: sent_date.to_string(),
        subject: subject.to_string(),
        body: body.to_string(),
        attachments: None,
        is_read: false,
    }
}

#[test]
fn truncate_short_body_is_unchanged() {
    assert_eq!(truncate_content("hello", 25), "hello");
}

#[test]
fn truncate_at_exact_length_is_unchanged() {
    let s = "abcdefghijklmnopqrstuvwxy";
    assert_eq!(s.chars().count(), 25);
    assert_eq!(truncate_content(s, 25), s);
}

#[test]
fn truncate_thirty_chars_keeps_first_twenty_five() {
    let s = "abcdefghijklmnopqrstuvwxyz1234";
    assert_eq!(s.chars().count(), 30);
    let t = truncate_content(s, 25);
    assert_eq!(t, "abcdefghijklmnopqrstuvwxy…");
}

#[test]
fn truncate_counts_characters_not_bytes() {
    let s = "ααα";
    assert_eq!(truncate_content(s, 2), "αα…");
}

#[test]
fn generate_email_id_joins_fields_with_bars() {
    let e = email("a@x.com", "Mon, 1 Jan 2024", "Hi", "Hello");
    assert_eq!(generate_email_id(&e), "a@x.com|Mon, 1 Jan 2024|Hi");
}

#[test]
fn identity_ignores_body_and_id_and_read_flag() {
    let e1 = email("a@x.com", "d", "s", "body one");
    let mut e2 = email("a@x.com", "d", "s", "a very different body");
    e2.id = 7;
    e2.is_read = true;
    assert_eq!(generate_email_id(&e1), generate_email_id(&e2));
}

#[test]
fn deduplicate_keeps_first_occurrence_in_order() {
    let emails = vec![
        email("a@x.com", "d1", "s1", "first"),
        email("b@y.com", "d2", "s2", "second"),
        email("a@x.com", "d1", "s1", "third, same identity as first"),
    ];
    let unique = deduplicate_emails(emails);
    assert_eq!(unique.len(), 2);
    assert_eq!(unique[0].sender, "a@x.com");
    assert_eq!(unique[0].body, "first");
    assert_eq!(unique[1].sender, "b@y.com");
}

#[test]
fn deduplicate_keeps_all_distinct_identities() {
    let emails = vec![
        email("a@x.com", "d", "s", ""),
        email("a@x.com", "d", "t", ""),
        email("a@x.com", "e", "s", ""),
    ];
    let unique = deduplicate_emails(emails);
    assert_eq!(unique.len(), 3);
}

#[test]
fn deduplicate_of_empty_list_is_empty() {
    let unique = deduplicate_emails(Vec::new());
    assert_eq!(unique.len(), 0);
}
