//! The in-memory mail store: one optional settings row and a sequence of
//! message rows with store-assigned, strictly increasing ids. Every
//! operation is stated against `StoreModel`, the spec-level image of the
//! store, through a small transition function.

use vstd::prelude::*;

use crate::identity::{clone_email, generate_email_id, identity_of, spec_truncate, truncate_content};
use crate::models::{Email, EmailSettings, EmailView, SettingsView, StoreError};

verus! {

/// Spec-level image of the whole store.
pub ghost struct StoreModel {
    pub settings: Option<SettingsView>,
    pub emails: Seq<EmailView>,
    pub next_id: int,
}

impl StoreModel {
    /// Well-formedness: ids are positive, below the next free id, and
    /// strictly increasing in storage order (so no two rows share an id).
    pub open spec fn wf(self) -> bool {
        &&& 1 <= self.next_id <= i32::MAX as int
        &&& forall|i: int|
            0 <= i < self.emails.len() ==> 1 <= (#[trigger] self.emails[i]).id < self.next_id
        &&& forall|i: int, j: int|
            0 <= i < j < self.emails.len() ==> (#[trigger] self.emails[i]).id
                < (#[trigger] self.emails[j]).id
    }
}

/// The identity keys of a sequence of stored rows, as a set.
pub open spec fn keys_of(emails: Seq<EmailView>) -> Set<Seq<char>> {
    Set::new(
        |k: Seq<char>|
            exists|i: int| 0 <= i < emails.len() && #[trigger] identity_of(emails[i]) == k,
    )
}

/// Saving settings: the singleton row now holds `s`, whether or not a row
/// existed before; messages and id counter are untouched.
pub open spec fn spec_save_settings(m: StoreModel, s: SettingsView) -> StoreModel {
    StoreModel { settings: Some(s), ..m }
}

/// A candidate row as the store keeps it: the caller's id is discarded and
/// the store-assigned one takes its place.
pub open spec fn stored_email(e: EmailView, id: int) -> EmailView {
    EmailView { id: id, ..e }
}

/// Appending a message: it is stored under the next free id, which then
/// advances.
pub open spec fn spec_save_email(m: StoreModel, e: EmailView) -> StoreModel {
    StoreModel {
        emails: m.emails.push(stored_email(e, m.next_id)),
        next_id: m.next_id + 1,
        ..m
    }
}

/// A row as the list view shows it: the body cut to 25 characters plus an
/// ellipsis marker; every other field untouched.
pub open spec fn listed_email(e: EmailView) -> EmailView {
    EmailView { body: spec_truncate(e.body, 25), ..e }
}

/// Marking a row read: rows with the given id get `is_read` set; every
/// other row, and a store without that id, are untouched.
pub open spec fn spec_mark_read(m: StoreModel, id: int) -> StoreModel {
    StoreModel {
        emails: m.emails.map_values(
            |e: EmailView|
                if e.id == id {
                    EmailView { is_read: true, ..e }
                } else {
                    e
                },
        ),
        ..m
    }
}

/// The persistent state of the client: the settings singleton and the
/// fetched messages.
pub struct MailStore {
    pub settings: Option<EmailSettings>,
    pub emails: Vec<Email>,
    pub next_id: i32,
}

impl View for MailStore {
    type V = StoreModel;

    open spec fn view(&self) -> StoreModel {
        StoreModel {
            settings: match self.settings {
                Some(s) => Some(s@),
                None => None,
            },
            emails: self.emails@.map_values(|e: Email| e@),
            next_id: self.next_id as int,
        }
    }
}

/// A field-by-field copy of the settings row.
pub fn clone_settings(s: &EmailSettings) -> (r: EmailSettings)
    ensures
        r@ == s@,
{
    EmailSettings {
        email_address: s.email_address.clone(),
        imap_server: s.imap_server.clone(),
        imap_port: s.imap_port,
        smtp_server: s.smtp_server.clone(),
        smtp_port: s.smtp_port,
        smtp_username: s.smtp_username.clone(),
        smtp_password: s.smtp_password.clone(),
    }
}

impl MailStore {
    /// Well-formedness of the stored ids; see `StoreModel::wf`.
    pub open spec fn wf(&self) -> bool {
        self@.wf()
    }

    /// An empty store: no settings row, no messages, ids start at 1.
    pub fn new() -> (r: MailStore)
        ensures
            r@ == (StoreModel { settings: None, emails: Seq::<EmailView>::empty(), next_id: 1 }),
            r.wf(),
    {
        let r = MailStore { settings: None, emails: Vec::new(), next_id: 1 };
        proof {
            assert(r@.emails =~= Seq::<EmailView>::empty());
        }
        r
    }

    /// Inserts the settings row if none exists, else overwrites the sole
    /// row: afterwards exactly one row exists and it holds `settings`.
    pub fn save_email_settings(&mut self, settings: EmailSettings)
        ensures
            final(self)@ == spec_save_settings(old(self)@, settings@),
            old(self).wf() ==> final(self).wf(),
    {
        self.settings = Some(settings);
    }

    /// Reads the settings singleton; fails exactly when none was saved.
    pub fn get_email_settings(&self) -> (r: Result<EmailSettings, StoreError>)
        ensures
            match r {
                Ok(s) => self@.settings == Some(s@),
                Err(e) => self@.settings is None && e == StoreError::NotFound,
            },
    {
        match &self.settings {
            Some(s) => Ok(clone_settings(s)),
            None => Err(StoreError::NotFound),
        }
    }

    /// Appends a message row. The id the caller put in `email` is ignored;
    /// the store assigns the next free id.
    pub fn save_email(&mut self, email: Email)
        requires
            old(self).wf(),
            old(self)@.next_id < i32::MAX as int,
        ensures
            final(self)@ == spec_save_email(old(self)@, email@),
            final(self).wf(),
    {
        let ghost m = old(self)@;
        let assigned = Email {
            id: self.next_id,
            sender: email.sender,
            sent_date: email.sent_date,
            subject: email.subject,
            body: email.body,
            attachments: email.attachments,
            is_read: email.is_read,
        };
        self.emails.push(assigned);
        self.next_id = self.next_id + 1;
        proof {
            assert(self@.emails =~= m.emails.push(stored_email(email@, m.next_id)));
        }
    }

    /// Returns all rows for display: each body truncated to 25 characters
    /// plus an ellipsis marker, all other fields as stored.
    pub fn get_email_list(&self) -> (r: Vec<Email>)
        ensures
            r@.len() == self@.emails.len(),
            forall|i: int| 0 <= i < r@.len() ==> r@[i]@ == listed_email(self@.emails[i]),
    {
        let mut out: Vec<Email> = Vec::new();
        let mut i: usize = 0;
        while i < self.emails.len()
            invariant
                0 <= i <= self.emails@.len(),
                out@.len() == i,
                forall|j: int| 0 <= j < i ==> out@[j]@ == listed_email(self@.emails[j]),
            decreases self.emails@.len() - i,
        {
            let e = &self.emails[i];
            let listed = Email {
                id: e.id,
                sender: e.sender.clone(),
                sent_date: e.sent_date.clone(),
                subject: e.subject.clone(),
                body: truncate_content(e.body.as_str(), 25),
                attachments: match &e.attachments {
                    Some(a) => Some(a.clone()),
                    None => None,
                },
                is_read: e.is_read,
            };
            out.push(listed);
            i += 1;
        }
        out
    }

    /// Returns the full, untruncated row with the given id; fails exactly
    /// when no row has it.
    pub fn get_email_by_id_from_db(&self, email_id: i32) -> (r: Result<Email, StoreError>)
        ensures
            match r {
                Ok(e) => exists|i: int|
                    0 <= i < self@.emails.len() && (#[trigger] self@.emails[i]).id == email_id as int
                        && e@ == self@.emails[i],
                Err(e) => e == StoreError::NotFound && forall|i: int|
                    0 <= i < self@.emails.len() ==> (#[trigger] self@.emails[i]).id != email_id as int,
            },
    {
        let mut i: usize = 0;
        while i < self.emails.len()
            invariant
                0 <= i <= self.emails@.len(),
                forall|j: int| 0 <= j < i ==> (#[trigger] self@.emails[j]).id != email_id as int,
            decreases self.emails@.len() - i,
        {
            if self.emails[i].id == email_id {
                let e = clone_email(&self.emails[i]);
                proof {
                    assert(self@.emails[i as int] == self.emails@[i as int]@);
                    assert(self@.emails[i as int].id == email_id as int
                        && e@ == self@.emails[i as int]);
                }
                return Ok(e);
            }
            i += 1;
        }
        Err(StoreError::NotFound)
    }

    /// The command-layer read: the same lookup with the same outcome.
    pub fn get_email_by_id(&self, email_id: i32) -> (r: Result<Email, StoreError>)
        ensures
            match r {
                Ok(e) => exists|i: int|
                    0 <= i < self@.emails.len() && (#[trigger] self@.emails[i]).id == email_id as int
                        && e@ == self@.emails[i],
                Err(e) => e == StoreError::NotFound && forall|i: int|
                    0 <= i < self@.emails.len() ==> (#[trigger] self@.emails[i]).id != email_id as int,
            },
    {
        self.get_email_by_id_from_db(email_id)
    }

    /// Sets `is_read` on the row with the given id. An absent id is no
    /// error: the store is then left exactly as it was, and no row appears.
    #[verifier::rlimit(60)]
    pub fn mark_email_as_read(&mut self, email_id: i32)
        requires
            old(self).wf(),
        ensures
            final(self)@ == spec_mark_read(old(self)@, email_id as int),
            final(self).wf(),
    {
        let ghost m = old(self)@;
        let mut i: usize = 0;
        while i < self.emails.len()
            invariant
                0 <= i <= self.emails@.len(),
                *self == *old(self),
                m == self@,
                m.wf(),
                m.emails.len() == self.emails@.len(),
                forall|j: int| 0 <= j < i ==> (#[trigger] m.emails[j]).id != email_id as int,
            decreases self.emails@.len() - i,
        {
            if self.emails[i].id == email_id {
                let ghost vs0 = self.emails@;
                let ghost gi = i as int;
                proof {
                    assert(m == self@);
                    assert(m.emails.len() == vs0.len());
                    assert forall|j: int| 0 <= j < vs0.len() implies #[trigger] m.emails[j]
                        == vs0[j]@ by {}
                    assert(m.emails[gi].id == email_id as int);
                }
                let mut e = self.emails.remove(i);
                e.is_read = true;
                let ghost ev = e;
                self.emails.insert(i, e);
                proof {
                    vs0.remove_ensures(gi);
                    vs0.remove(gi).insert_ensures(gi, ev);
                    assert(self.emails@.len() == vs0.len());
                    assert forall|j: int|
                        0 <= j < self@.emails.len() implies self@.emails[j] == spec_mark_read(
                        m,
                        email_id as int,
                    ).emails[j] by {
                        assert(self@.emails[j] == self.emails@[j]@);
                        if j < gi {
                            assert(self.emails@[j] == vs0[j]);
                            assert(m.emails[j].id != email_id as int);
                        } else if j == gi {
                            assert(self.emails@[gi] == ev);
                            assert(ev@ == (EmailView { is_read: true, ..vs0[gi]@ }));
                        } else {
                            assert(self.emails@[j] == vs0.remove(gi)[j - 1]);
                            assert(self.emails@[j] == vs0[j]);
                            assert(m.emails[gi].id < m.emails[j].id);
                        }
                    }
                    assert(self@.emails =~= spec_mark_read(m, email_id as int).emails);
                    assert forall|a: int, b: int|
                        0 <= a < b < self@.emails.len() implies (#[trigger] self@.emails[a]).id
                        < (#[trigger] self@.emails[b]).id by {
                        assert(self@.emails[a].id == m.emails[a].id);
                        assert(self@.emails[b].id == m.emails[b].id);
                    }
                    assert forall|a: int|
                        0 <= a < self@.emails.len() implies 1 <= (#[trigger] self@.emails[a]).id
                        < self@.next_id by {
                        assert(self@.emails[a].id == m.emails[a].id);
                    }
                }
                return;
            }
            i += 1;
        }
        proof {
            assert forall|j: int|
                0 <= j < self@.emails.len() implies self@.emails[j] == spec_mark_read(
                m,
                email_id as int,
            ).emails[j] by {
                assert(m.emails[j].id != email_id as int);
            }
            assert(self@.emails =~= spec_mark_read(m, email_id as int).emails);
        }
    }

    /// Removes the row with the given id, reporting how many rows went:
    /// 1 exactly when a row had the id, else 0 with the store untouched.
    #[verifier::rlimit(60)]
    pub fn delete_email_by_id_from_db(&mut self, email_id: i32) -> (r: usize)
        requires
            old(self).wf(),
        ensures
            final(self)@.settings == old(self)@.settings,
            final(self)@.next_id == old(self)@.next_id,
            r == 1 || r == 0,
            (r == 1) == exists|i: int|
                0 <= i < old(self)@.emails.len()
                    && (#[trigger] old(self)@.emails[i]).id == email_id as int,
            r == 1 ==> exists|i: int|
                0 <= i < old(self)@.emails.len()
                    && (#[trigger] old(self)@.emails[i]).id == email_id as int
                    && final(self)@.emails == old(self)@.emails.remove(i),
            r == 0 ==> final(self)@ == old(self)@,
            final(self).wf(),
    {
        let ghost m = old(self)@;
        let mut i: usize = 0;
        while i < self.emails.len()
            invariant
                0 <= i <= self.emails@.len(),
                *self == *old(self),
                m == self@,
                m.wf(),
                m.emails.len() == self.emails@.len(),
                forall|j: int| 0 <= j < i ==> (#[trigger] m.emails[j]).id != email_id as int,
            decreases self.emails@.len() - i,
        {
            if self.emails[i].id == email_id {
                let ghost vs0 = self.emails@;
                let ghost gi = i as int;
                proof {
                    assert(m == self@);
                    assert(m.emails.len() == vs0.len());
                    assert forall|j: int| 0 <= j < vs0.len() implies #[trigger] m.emails[j]
                        == vs0[j]@ by {}
                    assert(m.emails[gi].id == email_id as int);
                }
                self.emails.remove(i);
                proof {
                    vs0.remove_ensures(gi);
                    m.emails.remove_ensures(gi);
                    assert(self.emails@.len() == vs0.len() - 1);
                    assert forall|j: int|
                        0 <= j < self@.emails.len() implies self@.emails[j] == m.emails.remove(
                        gi,
                    )[j] by {
                        assert(self@.emails[j] == self.emails@[j]@);
                        if j < gi {
                            assert(self.emails@[j] == vs0[j]);
                            assert(m.emails.remove(gi)[j] == m.emails[j]);
                        } else {
                            assert(self.emails@[j] == vs0[j + 1]);
                            assert(m.emails.remove(gi)[j] == m.emails[j + 1]);
                        }
                    }
                    assert(self@.emails =~= m.emails.remove(gi));
                    assert forall|a: int, b: int|
                        0 <= a < b < self@.emails.len() implies (#[trigger] self@.emails[a]).id
                        < (#[trigger] self@.emails[b]).id by {
                        assert(self@.emails[a] == m.emails.remove(gi)[a]);
                        assert(self@.emails[b] == m.emails.remove(gi)[b]);
                        if b < gi {
                            assert(m.emails[a].id < m.emails[b].id);
                        } else if a < gi {
                            assert(m.emails[a].id < m.emails[b + 1].id);
                        } else {
                            assert(m.emails[a + 1].id < m.emails[b + 1].id);
                        }
                    }
                }
                return 1;
            }
            i += 1;
        }
        0
    }

    /// Deletes the row with the given id, telling a successful delete apart
    /// from an absent id.
    pub fn delete_email_by_id(&mut self, email_id: i32) -> (r: Result<(), StoreError>)
        requires
            old(self).wf(),
        ensures
            final(self)@.settings == old(self)@.settings,
            final(self)@.next_id == old(self)@.next_id,
            match r {
                Ok(()) => exists|i: int|
                    0 <= i < old(self)@.emails.len()
                        && (#[trigger] old(self)@.emails[i]).id == email_id as int
                        && final(self)@.emails == old(self)@.emails.remove(i),
                Err(e) => e == StoreError::NotFound && final(self)@ == old(self)@
                    && forall|i: int|
                    0 <= i < old(self)@.emails.len()
                        ==> (#[trigger] old(self)@.emails[i]).id != email_id as int,
            },
            final(self).wf(),
    {
        let rows_affected = self.delete_email_by_id_from_db(email_id);
        if rows_affected > 0 {
            Ok(())
        } else {
            Err(StoreError::NotFound)
        }
    }

    /// The identity key of every stored row, in storage order; what the
    /// fetch pipeline diffs incoming messages against.
    pub fn existing_identity_keys(&self) -> (r: Vec<String>)
        ensures
            r@.len() == self@.emails.len(),
            forall|i: int| 0 <= i < r@.len() ==> r@[i]@ == identity_of(self@.emails[i]),
    {
        let mut out: Vec<String> = Vec::new();
        let mut i: usize = 0;
        while i < self.emails.len()
            invariant
                0 <= i <= self.emails@.len(),
                out@.len() == i,
                forall|j: int| 0 <= j < i ==> out@[j]@ == identity_of(self@.emails[j]),
            decreases self.emails@.len() - i,
        {
            out.push(generate_email_id(&self.emails[i]));
            i += 1;
        }
        out
    }
}

/// Two consecutive settings saves leave exactly one settings row, holding
/// the second call's values; messages and the id counter are untouched, and
/// the pair of saves comes to the same as the second save alone.
pub proof fn lemma_settings_singleton(m: StoreModel, s1: SettingsView, s2: SettingsView)
    ensures
        spec_save_settings(spec_save_settings(m, s1), s2).settings == Some(s2),
        spec_save_settings(spec_save_settings(m, s1), s2).emails == m.emails,
        spec_save_settings(spec_save_settings(m, s1), s2).next_id == m.next_id,
        spec_save_settings(spec_save_settings(m, s1), s2) == spec_save_settings(m, s2),
{
}

/// Marking an absent id as read is a no-op: it raises no error, creates no
/// row, and leaves the store exactly as it was.
pub proof fn lemma_mark_read_absent(m: StoreModel, id: int)
    requires
        forall|i: int| 0 <= i < m.emails.len() ==> (#[trigger] m.emails[i]).id != id,
    ensures
        spec_mark_read(m, id) == m,
{
    assert(spec_mark_read(m, id).emails =~= m.emails);
}

} // verus!
