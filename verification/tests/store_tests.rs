use mailbox::models::{Email, EmailSettings, StoreError};
use mailbox::store::MailStore;

fn settings(address: &str, user: &str) -> EmailSettings {
    EmailSettings {
        email_address: address.to_string(),
        imap_server: "imap.example.org".to_string(),
        imap_port: 993,
        smtp_server: "smtp.example.org".to_string(),
        smtp_port: 465,
        smtp_username: user.to_string(),
        smtp_password: "SECRET-REDACTED".to_string(),
    }
}

fn email(sender: &str, sent_date: &str, subject: &str, body: &str) -> Email {
    Email {
        id: 0,
        sender: sender.to_string(),
        sent_date: sent_date.to_string(),
        subject: subject.to_string(),
        body: body.to_string(),
        attachments: None,
        is_read: false,
    }
}

#[test]
fn settings_missing_is_not_found() {
    let store = MailStore::new();
    assert_eq!(store.get_email_settings().unwrap_err(), StoreError::NotFound);
}

#[test]
fn settings_roundtrip() {
    let mut store = MailStore::new();
    store.save_email_settings(settings("a@x.com", "user-a"));
    let s = store.get_email_settings().unwrap();
    assert_eq!(s.email_address, "a@x.com");
    assert_eq!(s.imap_port, 993);
    assert_eq!(s.smtp_username, "user-a");
}

#[test]
fn saving_settings_twice_leaves_one_row_with_second_values() {
    let mut store = MailStore::new();
    store.save_email_settings(settings("a@x.com", "user-a"));
    store.save_email_settings(settings("b@y.com", "user-b"));
    let s = store.get_email_settings().unwrap();
    assert_eq!(s.email_address, "b@y.com");
    assert_eq!(s.smtp_username, "user-b");
}

#[test]
fn save_assigns_increasing_ids_starting_at_one() {
    let mut store = MailStore::new();
    store.save_email(email("a@x.com", "d1", "s1", "one"));
    store.save_email(email("b@y.com", "d2", "s2", "two"));
    let listed = store.get_email_list();
    assert_eq!(listed.len(), 2);
    assert_eq!(listed[0].id, 1);
    assert_eq!(listed[1].id, 2);
}

#[test]
fn listed_body_is_truncated_but_stored_body_is_full() {
    let mut store = MailStore::new();
    let body = "abcdefghijklmnopqrstuvwxyz1234";
    assert_eq!(body.chars().count(), 30);
    store.save_email(email("a@x.com", "d", "s", body));
    let listed = store.get_email_list();
    assert_eq!(listed[0].body, "abcdefghijklmnopqrstuvwxy…");
    let full = store.get_email_by_id(listed[0].id).unwrap();
    assert_eq!(full.body, body);
}

#[test]
fn short_listed_body_is_unchanged() {
    let mut store = MailStore::new();
    store.save_email(email("a@x.com", "d", "s", "short"));
    let listed = store.get_email_list();
    assert_eq!(listed[0].body, "short");
}

#[test]
fn get_by_unknown_id_is_not_found() {
    let store = MailStore::new();
    assert_eq!(store.get_email_by_id(1).unwrap_err(), StoreError::NotFound);
}

#[test]
fn delete_on_nonexistent_id_is_not_found() {
    let mut store = MailStore::new();
    store.save_email(email("a@x.com", "d", "s", "body"));
    let r = store.delete_email_by_id(42);
    assert_eq!(r.unwrap_err(), StoreError::NotFound);
    assert_eq!(store.get_email_list().len(), 1);
}

#[test]
fn delete_count_is_zero_for_nonexistent_and_one_for_existing() {
    let mut store = MailStore::new();
    assert_eq!(store.delete_email_by_id_from_db(1), 0);
    store.save_email(email("a@x.com", "d", "s", "body"));
    assert_eq!(store.delete_email_by_id_from_db(1), 1);
    assert_eq!(store.get_email_list().len(), 0);
}

#[test]
fn delete_removes_only_the_matching_row() {
    let mut store = MailStore::new();
    store.save_email(email("a@x.com", "d1", "s1", "one"));
    store.save_email(email("b@y.com", "d2", "s2", "two"));
    store.save_email(email("c@z.com", "d3", "s3", "three"));
    assert!(store.delete_email_by_id(2).is_ok());
    let listed = store.get_email_list();
    assert_eq!(listed.len(), 2);
    assert_eq!(listed[0].sender, "a@x.com");
    assert_eq!(listed[1].sender, "c@z.com");
}

#[test]
fn mark_read_sets_the_flag_on_the_matching_row() {
    let mut store = MailStore::new();
    store.save_email(email("a@x.com", "d1", "s1", "one"));
    store.save_email(email("b@y.com", "d2", "s2", "two"));
    store.mark_email_as_read(2);
    assert!(!store.get_email_by_id(1).unwrap().is_read);
    assert!(store.get_email_by_id(2).unwrap().is_read);
}

#[test]
fn mark_read_on_nonexistent_id_changes_nothing() {
    let mut store = MailStore::new();
    store.save_email(email("a@x.com", "d", "s", "body"));
    store.mark_email_as_read(5);
    let listed = store.get_email_list();
    assert_eq!(listed.len(), 1);
    assert!(!listed[0].is_read);
}

#[test]
fn existing_identity_keys_cover_all_rows() {
    let mut store = MailStore::new();
    store.save_email(email("a@x.com", "d1", "s1", "one"));
    store.save_email(email("b@y.com", "d2", "s2", "two"));
    let keys = store.existing_identity_keys();
    assert_eq!(keys, vec!["a@x.com|d1|s1".to_string(), "b@y.com|d2|s2".to_string()]);
}
