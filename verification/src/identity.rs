//! The identity key of a message and the helpers built on it: display
//! truncation, key generation, and first-occurrence deduplication.
//!
//! The key deliberately ignores the body: re-fetching a message can change
//! whitespace after re-parsing, while the header fields are assumed stable.

use vstd::prelude::*;
use vstd::string::StrSliceExecFns;
use vstd::string::StringExecFns;

use crate::models::{Email, EmailView};

verus! {

/// A body shown in a list view: cut to `max_length` characters and marked
/// with an ellipsis when it is longer, returned whole otherwise.
pub open spec fn spec_truncate(content: Seq<char>, max_length: nat) -> Seq<char> {
    if content.len() > max_length {
        content.subrange(0, max_length as int).push('…')
    } else {
        content
    }
}

/// Cuts `content` to at most `max_length` characters, appending an ellipsis
/// marker when anything was cut.
pub fn truncate_content(content: &str, max_length: usize) -> (r: String)
    ensures
        r@ == spec_truncate(content@, max_length as nat),
{
    let n = content.unicode_len();
    if n > max_length {
        let head = content.substring_char(0, max_length);
        let mut out = head.to_owned();
        out.append("…");
        proof {
            reveal_strlit("…");
            assert(out@ =~= spec_truncate(content@, max_length as nat));
        }
        out
    } else {
        content.to_owned()
    }
}

/// The deduplication key of a message: sender, sent date and subject joined
/// by `|`. The body takes no part in it.
pub open spec fn identity_key(sender: Seq<char>, sent_date: Seq<char>, subject: Seq<char>) -> Seq<char> {
    sender + "|"@ + sent_date + "|"@ + subject
}

/// The identity key of a message record.
pub open spec fn identity_of(e: EmailView) -> Seq<char> {
    identity_key(e.sender, e.sent_date, e.subject)
}

/// Builds the deduplication key of `email`.
pub fn generate_email_id(email: &Email) -> (r: String)
    ensures
        r@ == identity_of(email@),
{
    let mut id = email.sender.clone();
    id.append("|");
    id.append(email.sent_date.as_str());
    id.append("|");
    id.append(email.subject.as_str());
    id
}

/// The identity of a message depends only on its sender, sent date and
/// subject: two messages that agree on those three fields share one identity
/// key, whatever their bodies, ids, read flags or attachments.
pub proof fn lemma_identity_ignores_body(e1: EmailView, e2: EmailView)
    requires
        e1.sender == e2.sender,
        e1.sent_date == e2.sent_date,
        e1.subject == e2.subject,
    ensures
        identity_of(e1) == identity_of(e2),
{
}

/// The set of identity keys occurring in a sequence of already-built keys.
pub open spec fn seen_keys(keys: Seq<String>) -> Set<Seq<char>> {
    Set::new(|k: Seq<char>| exists|j: int| 0 <= j < keys.len() && #[trigger] keys[j]@ == k)
}

/// First-occurrence deduplication of the part of a message list that is
/// still to be walked, given the keys already seen.
pub open spec fn spec_dedup_from(emails: Seq<EmailView>, seen: Set<Seq<char>>) -> Seq<EmailView>
    decreases emails.len(),
{
    if emails.len() == 0 {
        Seq::empty()
    } else if seen.contains(identity_of(emails[0])) {
        spec_dedup_from(emails.drop_first(), seen)
    } else {
        seq![emails[0]] + spec_dedup_from(emails.drop_first(), seen.insert(identity_of(emails[0])))
    }
}

/// First-occurrence deduplication of a message list by identity key.
pub open spec fn spec_dedup(emails: Seq<EmailView>) -> Seq<EmailView> {
    spec_dedup_from(emails, Set::empty())
}

/// A field-by-field copy of a message record.
pub fn clone_email(e: &Email) -> (r: Email)
    ensures
        r@ == e@,
{
    Email {
        id: e.id,
        sender: e.sender.clone(),
        sent_date: e.sent_date.clone(),
        subject: e.subject.clone(),
        body: e.body.clone(),
        attachments: match &e.attachments {
            Some(a) => Some(a.clone()),
            None => None,
        },
        is_read: e.is_read,
    }
}

/// Whether one of `keys` equals `key`, compared by contents.
pub(crate) fn contains_key(keys: &Vec<String>, key: &String) -> (r: bool)
    ensures
        r == seen_keys(keys@).contains(key@),
{
    let mut j: usize = 0;
    while j < keys.len()
        invariant
            0 <= j <= keys@.len(),
            forall|t: int| 0 <= t < j ==> #[trigger] keys@[t]@ != key@,
        decreases keys@.len() - j,
    {
        if keys[j].eq(key) {
            return true;
        }
        j += 1;
    }
    false
}

/// Keeps the first occurrence of each identity key, in order of first sight,
/// and drops every later message carrying a key already kept.
pub fn deduplicate_emails(emails: Vec<Email>) -> (r: Vec<Email>)
    ensures
        r@.map_values(|e: Email| e@) == spec_dedup(emails@.map_values(|e: Email| e@)),
{
    let ghost all: Seq<EmailView> = emails@.map_values(|e: Email| e@);
    let mut seen: Vec<String> = Vec::new();
    let mut unique_emails: Vec<Email> = Vec::new();
    let mut i: usize = 0;
    proof {
        assert(seen_keys(seen@) =~= Set::<Seq<char>>::empty());
        assert(all.skip(0) =~= all);
        assert(unique_emails@.map_values(|e: Email| e@) + spec_dedup_from(all, Set::empty())
            =~= spec_dedup_from(all, Set::empty()));
    }
    while i < emails.len()
        invariant
            0 <= i <= emails@.len(),
            all == emails@.map_values(|e: Email| e@),
            spec_dedup(all) == unique_emails@.map_values(|e: Email| e@)
                + spec_dedup_from(all.skip(i as int), seen_keys(seen@)),
        decreases emails@.len() - i,
    {
        let ghost rest = all.skip(i as int);
        proof {
            assert(rest[0] == all[i as int]);
            assert(rest.drop_first() =~= all.skip(i as int + 1));
        }
        let email = clone_email(&emails[i]);
        let email_id = generate_email_id(&email);
        proof {
            assert(email@ == all[i as int]);
            assert(email_id@ == identity_of(rest[0]));
        }
        if !contains_key(&seen, &email_id) {
            let ghost old_seen = seen@;
            let ghost old_unique = unique_emails@.map_values(|e: Email| e@);
            let ghost key = identity_of(all[i as int]);
            seen.push(email_id);
            unique_emails.push(email);
            proof {
                assert forall|k: Seq<char>|
                    seen_keys(seen@).contains(k)
                        == seen_keys(old_seen).insert(key).contains(k) by {
                    if seen_keys(seen@).contains(k) {
                        let j = choose|j: int| 0 <= j < seen@.len() && #[trigger] seen@[j]@ == k;
                        if j < old_seen.len() {
                            assert(old_seen[j]@ == k);
                        } else {
                            assert(k == key);
                        }
                    }
                    if seen_keys(old_seen).contains(k) {
                        let j = choose|j: int| 0 <= j < old_seen.len()
                            && #[trigger] old_seen[j]@ == k;
                        assert(seen@[j]@ == k);
                    }
                    if k == key {
                        assert(seen@[old_seen.len() as int]@ == k);
                    }
                }
                assert(seen_keys(seen@) =~= seen_keys(old_seen).insert(key));
                assert(unique_emails@.map_values(|e: Email| e@)
                    =~= old_unique.push(all[i as int]));
                assert(spec_dedup_from(rest, seen_keys(old_seen))
                    == seq![rest[0]] + spec_dedup_from(rest.drop_first(), seen_keys(seen@)));
                assert(old_unique + (seq![all[i as int]]
                    + spec_dedup_from(all.skip(i as int + 1), seen_keys(seen@)))
                    =~= unique_emails@.map_values(|e: Email| e@)
                        + spec_dedup_from(all.skip(i as int + 1), seen_keys(seen@)));
            }
        } else {
            proof {
                assert(seen_keys(seen@).contains(identity_of(rest[0])));
                assert(spec_dedup_from(rest, seen_keys(seen@))
                    == spec_dedup_from(all.skip(i as int + 1), seen_keys(seen@)));
            }
        }
        i += 1;
    }
    proof {
        assert(all.skip(i as int) =~= Seq::<EmailView>::empty());
        assert(unique_emails@.map_values(|e: Email| e@)
            + spec_dedup_from(all.skip(i as int), seen_keys(seen@))
            =~= unique_emails@.map_values(|e: Email| e@));
    }
    unique_emails
}

} // verus!
