//! The send pipeline's compute part: assembling, from the settings row and
//! the caller's envelope, everything the SMTP relay call needs. The
//! envelope reuses the stored-message shape, and its `sender` field is the
//! *recipient* of the outgoing message — a quirk kept as it stands.

use vstd::prelude::*;

use crate::models::{Email, EmailSettings, StoreError};
use crate::store::MailStore;

verus! {

/// Everything the relay call needs: the assembled message fields and the
/// relay's address and credentials.
#[derive(Debug)]
pub struct OutgoingEmail {
    pub from: String,
    pub to: String,
    pub subject: String,
    pub body: String,
    pub smtp_server: String,
    pub smtp_username: String,
    pub smtp_password: String,
}

/// Assembles the outgoing message: `From` is the configured account
/// address, `To` is the envelope's `sender` field, subject and body are
/// taken over, and the relay parameters come from the settings row.
pub fn build_outgoing_email(settings: &EmailSettings, email: &Email) -> (r: OutgoingEmail)
    ensures
        r.from@ == settings@.email_address,
        r.to@ == email@.sender,
        r.subject@ == email@.subject,
        r.body@ == email@.body,
        r.smtp_server@ == settings@.smtp_server,
        r.smtp_username@ == settings@.smtp_username,
        r.smtp_password@ == settings@.smtp_password,
{
    OutgoingEmail {
        from: settings.email_address.clone(),
        to: email.sender.clone(),
        subject: email.subject.clone(),
        body: email.body.clone(),
        smtp_server: settings.smtp_server.clone(),
        smtp_username: settings.smtp_username.clone(),
        smtp_password: settings.smtp_password.clone(),
    }
}

/// Looks the settings up and assembles the outgoing message; fails exactly
/// when no settings row was saved.
pub fn prepare_outgoing_email(store: &MailStore, email: &Email) -> (r: Result<
    OutgoingEmail,
    StoreError,
>)
    ensures
        match r {
            Ok(o) => store@.settings matches Some(s) && o.from@ == s.email_address && o.to@
                == email@.sender && o.subject@ == email@.subject && o.body@ == email@.body
                && o.smtp_server@ == s.smtp_server && o.smtp_username@ == s.smtp_username
                && o.smtp_password@ == s.smtp_password,
            Err(e) => store@.settings is None && e == StoreError::NotFound,
        },
{
    let settings = match store.get_email_settings() {
        Ok(s) => s,
        Err(e) => {
            return Err(e);
        },
    };
    Ok(build_outgoing_email(&settings, email))
}

} // verus!
