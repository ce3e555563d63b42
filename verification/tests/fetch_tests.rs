use mailbox::fetch::fetch_emails;
use mailbox::mime::{extract_body_from_parsed_mail, parse_email, MimeHeader, MimeMessage};
use mailbox::models::{EmailSettings, FetchError};
use mailbox::send::{build_outgoing_email, prepare_outgoing_email};
use mailbox::models::{Email, StoreError};
use mailbox::store::MailStore;

fn header(name: &str, value: &str) -> MimeHeader {
    MimeHeader { name: name.to_string(), value: value.to_string() }
}

fn simple_message(headers: Vec<MimeHeader>, body: &str) -> MimeMessage {
    MimeMessage {
        headers,
        top_body: Some(body.to_string()),
        sub_bodies: Vec::new(),
    }
}

fn settings() -> EmailSettings {
    EmailSettings {
        email_address: "me@example.org".to_string(),
        imap_server: "imap.example.org".to_string(),
        imap_port: 993,
        smtp_server: "smtp.example.org".to_string(),
        smtp_port: 465,
        smtp_username: "me".to_string(),
        smtp_password: "SECRET-REDACTED".to_string(),
    }
}

#[test]
fn parse_email_reads_headers_case_insensitively() {
    let m = simple_message(
        vec![header("FROM", "a@x.com"), header("SuBJect", "Hi"), header("Date", "Mon")],
        "Hello",
    );
    let e = parse_email(&m).unwrap();
    assert_eq!(e.sender, "a@x.com");
    assert_eq!(e.subject, "Hi");
    assert_eq!(e.sent_date, "Mon");
    assert_eq!(e.body, "Hello");
    assert_eq!(e.id, 0);
    assert!(!e.is_read);
    assert!(e.attachments.is_none());
}

#[test]
fn parse_email_defaults_subject_and_date_to_empty() {
    let m = simple_message(vec![header("From", "a@x.com")], "Hello");
    let e = parse_email(&m).unwrap();
    assert_eq!(e.subject, "");
    assert_eq!(e.sent_date, "");
}

#[test]
fn parse_email_last_duplicate_header_wins() {
    let m = simple_message(
        vec![header("From", "a@x.com"), header("Subject", "first"), header("subject", "second")],
        "Hello",
    );
    let e = parse_email(&m).unwrap();
    assert_eq!(e.subject, "second");
}

#[test]
fn parse_email_without_sender_fails() {
    let m = simple_message(vec![header("Subject", "Hi")], "Hello");
    assert_eq!(parse_email(&m).unwrap_err(), FetchError::MissingSender);
}

#[test]
fn body_of_multipart_message_is_first_decoded_subpart() {
    let m = MimeMessage {
        headers: vec![header("From", "a@x.com")],
        top_body: Some("top".to_string()),
        sub_bodies: vec![None, Some("part two".to_string()), Some("part three".to_string())],
    };
    assert_eq!(extract_body_from_parsed_mail(&m).unwrap(), "part two");
}

#[test]
fn message_without_any_decodable_body_fails() {
    let m = MimeMessage {
        headers: vec![header("From", "a@x.com")],
        top_body: None,
        sub_bodies: vec![None, None],
    };
    assert_eq!(extract_body_from_parsed_mail(&m).unwrap_err(), FetchError::NoBody);
    let whole = MimeMessage {
        headers: vec![header("From", "a@x.com")],
        top_body: None,
        sub_bodies: Vec::new(),
    };
    assert_eq!(parse_email(&whole).unwrap_err(), FetchError::NoBody);
}

#[test]
fn fetch_stores_one_unseen_message_and_a_second_fetch_adds_nothing() {
    let mut store = MailStore::new();
    store.save_email_settings(settings());
    let raw = b"From: a@x.com\r\nSubject: Hi\r\nDate: Mon, 1 Jan 2024\r\n\r\nHello".to_vec();
    let inbox = vec![raw];

    assert!(fetch_emails(&mut store, &inbox).is_ok());
    let listed = store.get_email_list();
    assert_eq!(listed.len(), 1);
    assert_eq!(listed[0].sender, "a@x.com");
    assert_eq!(listed[0].subject, "Hi");
    assert_eq!(listed[0].sent_date, "Mon, 1 Jan 2024");
    assert!(!listed[0].is_read);

    assert!(fetch_emails(&mut store, &inbox).is_ok());
    assert_eq!(store.get_email_list().len(), 1);
}

#[test]
fn fetch_reads_the_real_message_body() {
    let mut store = MailStore::new();
    let raw = b"From: a@x.com\r\nSubject: Hi\r\n\r\nHello".to_vec();
    assert!(fetch_emails(&mut store, &vec![raw]).is_ok());
    let full = store.get_email_by_id(1).unwrap();
    assert_eq!(full.body.trim_end(), "Hello");
}

#[test]
fn fetch_without_sender_header_aborts_and_stores_nothing() {
    let mut store = MailStore::new();
    let good = b"From: a@x.com\r\nSubject: ok\r\n\r\nfine".to_vec();
    let bad = b"Subject: no sender here\r\n\r\nbody".to_vec();
    let r = fetch_emails(&mut store, &vec![good, bad]);
    assert_eq!(r.unwrap_err(), FetchError::MissingSender);
    assert_eq!(store.get_email_list().len(), 0);
}

#[test]
fn fetch_keeps_distinct_messages_and_drops_already_stored_ones() {
    let mut store = MailStore::new();
    let first = b"From: a@x.com\r\nSubject: one\r\n\r\n1".to_vec();
    let second = b"From: b@y.com\r\nSubject: two\r\n\r\n2".to_vec();
    assert!(fetch_emails(&mut store, &vec![first.clone()]).is_ok());
    assert!(fetch_emails(&mut store, &vec![first, second]).is_ok());
    let listed = store.get_email_list();
    assert_eq!(listed.len(), 2);
    assert_eq!(listed[0].sender, "a@x.com");
    assert_eq!(listed[1].sender, "b@y.com");
}

#[test]
fn outgoing_message_maps_envelope_sender_to_recipient() {
    let e = Email {
        id: 0,
        sender: "rcpt@elsewhere.org".to_string(),
        sent_date: String::new(),
        subject: "Hi".to_string(),
        body: "Hello".to_string(),
        attachments: None,
        is_read: false,
    };
    let o = build_outgoing_email(&settings(), &e);
    assert_eq!(o.from, "me@example.org");
    assert_eq!(o.to, "rcpt@elsewhere.org");
    assert_eq!(o.subject, "Hi");
    assert_eq!(o.body, "Hello");
    assert_eq!(o.smtp_server, "smtp.example.org");
    assert_eq!(o.smtp_username, "me");
}

#[test]
fn preparing_an_outgoing_message_without_settings_fails() {
    let store = MailStore::new();
    let e = Email {
        id: 0,
        sender: "rcpt@elsewhere.org".to_string(),
        sent_date: String::new(),
        subject: "Hi".to_string(),
        body: "Hello".to_string(),
        attachments: None,
        is_read: false,
    };
    assert_eq!(prepare_outgoing_email(&store, &e).unwrap_err(), StoreError::NotFound);
}
