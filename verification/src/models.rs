//! The two records the client persists: the account settings singleton and a
//! stored message, together with their spec-level views and the error kinds
//! the store and the fetch pipeline report.

use vstd::prelude::*;

verus! {

/// Connection parameters of the one configured mail account.
#[derive(Debug)]
pub struct EmailSettings {
    pub email_address: String,
    pub imap_server: String,
    pub imap_port: u16,
    pub smtp_server: String,
    pub smtp_port: u16,
    pub smtp_username: String,
    pub smtp_password: String,
}

/// Spec-level image of `EmailSettings`: every string as a `Seq<char>`.
pub ghost struct SettingsView {
    pub email_address: Seq<char>,
    pub imap_server: Seq<char>,
    pub imap_port: u16,
    pub smtp_server: Seq<char>,
    pub smtp_port: u16,
    pub smtp_username: Seq<char>,
    pub smtp_password: Seq<char>,
}

impl View for EmailSettings {
    type V = SettingsView;

    open spec fn view(&self) -> SettingsView {
        SettingsView {
            email_address: self.email_address@,
            imap_server: self.imap_server@,
            imap_port: self.imap_port,
            smtp_server: self.smtp_server@,
            smtp_port: self.smtp_port,
            smtp_username: self.smtp_username@,
            smtp_password: self.smtp_password@,
        }
    }
}

/// One stored message. `id` is assigned by the store; `sender`, `sent_date`
/// and `subject` are raw header values; `attachments` is a placeholder that
/// the fetch pipeline never fills.
#[derive(Debug)]
pub struct Email {
    pub id: i32,
    pub sender: String,
    pub sent_date: String,
    pub subject: String,
    pub body: String,
    pub attachments: Option<String>,
    pub is_read: bool,
}

/// Spec-level image of an `Email`.
pub ghost struct EmailView {
    pub id: int,
    pub sender: Seq<char>,
    pub sent_date: Seq<char>,
    pub subject: Seq<char>,
    pub body: Seq<char>,
    pub attachments: Option<Seq<char>>,
    pub is_read: bool,
}

impl View for Email {
    type V = EmailView;

    open spec fn view(&self) -> EmailView {
        EmailView {
            id: self.id as int,
            sender: self.sender@,
            sent_date: self.sent_date@,
            subject: self.subject@,
            body: self.body@,
            attachments: match self.attachments {
                Some(a) => Some(a@),
                None => None,
            },
            is_read: self.is_read,
        }
    }
}

/// Failure of a read, delete or settings lookup against the store.
#[derive(Clone, Copy, PartialEq, Eq, Structural, Debug)]
pub enum StoreError {
    /// No row matches: the settings singleton is absent, or no message has
    /// the requested id.
    NotFound,
}

/// Failure of the fetch pipeline while turning one raw message into a row.
/// The first failing message aborts the whole batch.
#[derive(Clone, Copy, PartialEq, Eq, Structural, Debug)]
pub enum FetchError {
    /// The raw bytes could not be parsed as a MIME message at all.
    Malformed,
    /// The parsed message carries no `From` header.
    MissingSender,
    /// No body could be extracted from the message or any of its subparts.
    NoBody,
}

} // verus!
