//! The fetch pipeline's decision logic: parse a batch of raw messages, drop
//! every candidate whose identity key is already stored, and append the
//! rest. The first message that fails to parse aborts the whole batch
//! before anything is stored; candidates are filtered against the keys the
//! store held when the batch began, not against each other.

use vstd::prelude::*;

use crate::identity::{clone_email, contains_key, generate_email_id, identity_of, seen_keys};
use crate::mime::{mime_of, parse_email, parse_email_spec, parse_mime};
use crate::models::{Email, EmailView, FetchError};
use crate::store::{keys_of, spec_save_email, MailStore, StoreModel};

verus! {

/// The parse of a whole batch, in inbox order: the candidate rows, or the
/// first error met, which aborts the batch.
pub open spec fn parse_batch(raws: Seq<Seq<u8>>) -> Result<Seq<EmailView>, FetchError>
    decreases raws.len(),
{
    if raws.len() == 0 {
        Ok(Seq::empty())
    } else {
        match parse_batch(raws.drop_last()) {
            Err(e) => Err(e),
            Ok(rest) => match mime_of(raws.last()) {
                None => Err(FetchError::Malformed),
                Some(m) => match parse_email_spec(m) {
                    Err(e) => Err(e),
                    Ok(ev) => Ok(rest.push(ev)),
                },
            },
        }
    }
}

/// Once a prefix of the batch fails, the whole batch fails with that same
/// first error.
proof fn lemma_parse_batch_error_persists(raws: Seq<Seq<u8>>, k: int)
    requires
        0 <= k <= raws.len(),
        parse_batch(raws.take(k)) is Err,
    ensures
        parse_batch(raws) == parse_batch(raws.take(k)),
    decreases raws.len(),
{
    if raws.len() > k {
        assert(raws.drop_last().take(k) =~= raws.take(k));
        lemma_parse_batch_error_persists(raws.drop_last(), k);
    } else {
        assert(raws.take(k) =~= raws);
    }
}

/// The dedup-and-store step over the candidates still to be walked: a
/// candidate whose key is among `known` is dropped, any other is appended
/// under the next free id.
pub open spec fn ingest_rec(m: StoreModel, known: Set<Seq<char>>, parsed: Seq<EmailView>) -> StoreModel
    decreases parsed.len(),
{
    if parsed.len() == 0 {
        m
    } else {
        let m1 = if known.contains(identity_of(parsed[0])) {
            m
        } else {
            spec_save_email(m, parsed[0])
        };
        ingest_rec(m1, known, parsed.drop_first())
    }
}

/// The whole ingest: candidates are filtered against the keys stored when
/// the batch began — not against each other — and the kept ones appended in
/// inbox order.
pub open spec fn spec_ingest(m: StoreModel, parsed: Seq<EmailView>) -> StoreModel {
    ingest_rec(m, keys_of(m.emails), parsed)
}

/// Walking one more candidate appends it, or not, at the end of the walk
/// made so far.
proof fn lemma_ingest_rec_push(
    m: StoreModel,
    known: Set<Seq<char>>,
    parsed: Seq<EmailView>,
    x: EmailView,
)
    ensures
        known.contains(identity_of(x)) ==> ingest_rec(m, known, parsed.push(x)) == ingest_rec(
            m,
            known,
            parsed,
        ),
        !known.contains(identity_of(x)) ==> ingest_rec(m, known, parsed.push(x))
            == spec_save_email(ingest_rec(m, known, parsed), x),
    decreases parsed.len(),
{
    if parsed.len() == 0 {
        let m1x = if known.contains(identity_of(x)) {
            m
        } else {
            spec_save_email(m, x)
        };
        assert(parsed.push(x)[0] == x);
        assert(parsed.push(x).drop_first().len() == 0);
        assert(ingest_rec(m1x, known, parsed.push(x).drop_first()) == m1x);
        assert(ingest_rec(m, known, parsed) == m);
        assert(ingest_rec(m, known, parsed.push(x)) == m1x);
    } else {
        assert(parsed.push(x)[0] == parsed[0]);
        assert(parsed.push(x).drop_first() =~= parsed.drop_first().push(x));
        let m1 = if known.contains(identity_of(parsed[0])) {
            m
        } else {
            spec_save_email(m, parsed[0])
        };
        lemma_ingest_rec_push(m1, known, parsed.drop_first(), x);
        assert(ingest_rec(m, known, parsed.push(x)) == ingest_rec(
            m1,
            known,
            parsed.drop_first().push(x),
        ));
        assert(ingest_rec(m, known, parsed) == ingest_rec(m1, known, parsed.drop_first()));
    }
}

/// Fetches a batch handed over as raw RFC822 messages: parses each, keeps
/// the candidates whose identity key the store does not hold yet, and
/// appends them in order. One failing message aborts the whole batch with
/// the store untouched; a batch that parses leaves the store ingested,
/// duplicates and all-known batches included (then nothing is appended).
#[verifier::rlimit(60)]
pub fn fetch_emails(store: &mut MailStore, raw_messages: &Vec<Vec<u8>>) -> (r: Result<
    (),
    FetchError,
>)
    requires
        old(store).wf(),
        old(store)@.next_id + raw_messages@.len() <= i32::MAX as int,
    ensures
        match r {
            Ok(()) => parse_batch(raw_messages@.map_values(|v: Vec<u8>| v@)) is Ok
                && final(store)@ == spec_ingest(
                old(store)@,
                parse_batch(raw_messages@.map_values(|v: Vec<u8>| v@))->Ok_0,
            ),
            Err(e) => parse_batch(raw_messages@.map_values(|v: Vec<u8>| v@)) == Err::<
                Seq<EmailView>,
                FetchError,
            >(e) && final(store)@ == old(store)@,
        },
        final(store).wf(),
{
    let ghost rviews = raw_messages@.map_values(|v: Vec<u8>| v@);
    let mut email_list: Vec<Email> = Vec::new();
    let mut i: usize = 0;
    proof {
        assert(rviews.take(0) =~= Seq::<Seq<u8>>::empty());
        assert(email_list@.map_values(|e: Email| e@) =~= Seq::<EmailView>::empty());
    }
    while i < raw_messages.len()
        invariant
            0 <= i <= raw_messages@.len(),
            rviews == raw_messages@.map_values(|v: Vec<u8>| v@),
            rviews.len() == raw_messages@.len(),
            *store == *old(store),
            old(store).wf(),
            email_list@.len() == i,
            parse_batch(rviews.take(i as int)) == Ok::<Seq<EmailView>, FetchError>(
                email_list@.map_values(|e: Email| e@),
            ),
        decreases raw_messages@.len() - i,
    {
        proof {
            assert(rviews.take(i as int + 1).drop_last() =~= rviews.take(i as int));
            assert(rviews.take(i as int + 1).last() == rviews[i as int]);
            assert(rviews[i as int] == raw_messages@[i as int]@);
        }
        let parsed = match parse_mime(&raw_messages[i]) {
            Some(m) => m,
            None => {
                proof {
                    assert(parse_batch(rviews.take(i as int + 1)) == Err::<
                        Seq<EmailView>,
                        FetchError,
                    >(FetchError::Malformed));
                    lemma_parse_batch_error_persists(rviews, i as int + 1);
                }
                return Err(FetchError::Malformed);
            },
        };
        let email = match parse_email(&parsed) {
            Ok(e) => e,
            Err(e) => {
                proof {
                    assert(parse_batch(rviews.take(i as int + 1)) == Err::<
                        Seq<EmailView>,
                        FetchError,
                    >(e));
                    lemma_parse_batch_error_persists(rviews, i as int + 1);
                }
                return Err(e);
            },
        };
        let ghost old_list = email_list@.map_values(|e: Email| e@);
        email_list.push(email);
        proof {
            assert(email_list@.map_values(|e: Email| e@) =~= old_list.push(email@));
        }
        i += 1;
    }
    proof {
        assert(rviews.take(i as int) =~= rviews);
    }
    let existing_ids = store.existing_identity_keys();
    let ghost m0 = store@;
    let ghost known = keys_of(m0.emails);
    let ghost parsed_all = email_list@.map_values(|e: Email| e@);
    proof {
        assert forall|k: Seq<char>| seen_keys(existing_ids@).contains(k) == known.contains(
            k,
        ) by {
            if seen_keys(existing_ids@).contains(k) {
                let j = choose|j: int| 0 <= j < existing_ids@.len() && #[trigger] existing_ids@[j]@
                    == k;
                assert(identity_of(m0.emails[j]) == k);
            }
            if known.contains(k) {
                let j = choose|j: int| 0 <= j < m0.emails.len() && #[trigger] identity_of(
                    m0.emails[j],
                ) == k;
                assert(existing_ids@[j]@ == k);
            }
        }
        assert(seen_keys(existing_ids@) =~= known);
        assert(parsed_all.take(0) =~= Seq::<EmailView>::empty());
        assert(parsed_all.len() == rviews.len());
        assert(m0.next_id + parsed_all.len() <= i32::MAX as int);
    }
    let mut j: usize = 0;
    while j < email_list.len()
        invariant
            0 <= j <= email_list@.len(),
            parsed_all == email_list@.map_values(|e: Email| e@),
            parsed_all.len() == email_list@.len(),
            known == keys_of(m0.emails),
            seen_keys(existing_ids@) == known,
            store.wf(),
            store@ == ingest_rec(m0, known, parsed_all.take(j as int)),
            store@.next_id <= m0.next_id + j,
            m0.next_id + parsed_all.len() <= i32::MAX as int,
        decreases email_list@.len() - j,
    {
        let email = clone_email(&email_list[j]);
        let email_id = generate_email_id(&email);
        proof {
            assert(email@ == parsed_all[j as int]);
            assert(parsed_all.take(j as int).push(parsed_all[j as int]) =~= parsed_all.take(
                j as int + 1,
            ));
            lemma_ingest_rec_push(m0, known, parsed_all.take(j as int), parsed_all[j as int]);
        }
        if !contains_key(&existing_ids, &email_id) {
            store.save_email(email);
        }
        j += 1;
    }
    proof {
        assert(parsed_all.take(j as int) =~= parsed_all);
    }
    Ok(())
}

/// Appending a row adds exactly its identity key to the stored key set.
proof fn lemma_keys_of_push(emails: Seq<EmailView>, e: EmailView, id: int)
    ensures
        keys_of(emails.push(crate::store::stored_email(e, id))) == keys_of(emails).insert(
            identity_of(e),
        ),
{
    let pushed = emails.push(crate::store::stored_email(e, id));
    assert(identity_of(crate::store::stored_email(e, id)) == identity_of(e));
    assert forall|k: Seq<char>| keys_of(pushed).contains(k) == keys_of(emails).insert(
        identity_of(e),
    ).contains(k) by {
        if keys_of(pushed).contains(k) {
            let i = choose|i: int| 0 <= i < pushed.len() && #[trigger] identity_of(pushed[i]) == k;
            if i < emails.len() {
                assert(identity_of(emails[i]) == k);
            } else {
                assert(k == identity_of(e));
            }
        }
        if keys_of(emails).contains(k) {
            let i = choose|i: int| 0 <= i < emails.len() && #[trigger] identity_of(emails[i]) == k;
            assert(identity_of(pushed[i]) == k);
        }
        if k == identity_of(e) {
            assert(identity_of(pushed[emails.len() as int]) == k);
        }
    }
    assert(keys_of(pushed) =~= keys_of(emails).insert(identity_of(e)));
}

/// After a walk, the stored key set still holds every key it held before,
/// and holds the key of every walked candidate that `known` did not cover.
proof fn lemma_ingest_rec_keys(m: StoreModel, known: Set<Seq<char>>, parsed: Seq<EmailView>)
    ensures
        keys_of(m.emails).subset_of(keys_of(ingest_rec(m, known, parsed).emails)),
        forall|i: int|
            0 <= i < parsed.len() ==> known.contains(identity_of(#[trigger] parsed[i]))
                || keys_of(ingest_rec(m, known, parsed).emails).contains(identity_of(parsed[i])),
    decreases parsed.len(),
{
    if parsed.len() > 0 {
        let m1 = if known.contains(identity_of(parsed[0])) {
            m
        } else {
            spec_save_email(m, parsed[0])
        };
        if !known.contains(identity_of(parsed[0])) {
            lemma_keys_of_push(m.emails, parsed[0], m.next_id);
        }
        lemma_ingest_rec_keys(m1, known, parsed.drop_first());
        assert(ingest_rec(m, known, parsed) == ingest_rec(m1, known, parsed.drop_first()));
        assert(keys_of(m.emails).subset_of(keys_of(m1.emails)));
        assert forall|i: int|
            0 <= i < parsed.len() implies known.contains(identity_of(#[trigger] parsed[i]))
            || keys_of(ingest_rec(m, known, parsed).emails).contains(
            identity_of(parsed[i]),
        ) by {
            if i == 0 {
                if !known.contains(identity_of(parsed[0])) {
                    assert(keys_of(m1.emails).contains(identity_of(parsed[0])));
                }
            } else {
                assert(parsed.drop_first()[i - 1] == parsed[i]);
            }
        }
    }
}

/// A walk whose candidates all carry known keys stores nothing.
proof fn lemma_ingest_rec_noop(m: StoreModel, known: Set<Seq<char>>, parsed: Seq<EmailView>)
    requires
        forall|i: int| 0 <= i < parsed.len() ==> known.contains(identity_of(#[trigger] parsed[i])),
    ensures
        ingest_rec(m, known, parsed) == m,
    decreases parsed.len(),
{
    if parsed.len() > 0 {
        assert(known.contains(identity_of(parsed[0])));
        assert forall|i: int|
            0 <= i < parsed.drop_first().len() implies known.contains(
            identity_of(#[trigger] parsed.drop_first()[i]),
        ) by {
            assert(parsed.drop_first()[i] == parsed[i + 1]);
        }
        lemma_ingest_rec_noop(m, known, parsed.drop_first());
    }
}

/// Fetching twice against an unchanged inbox stores nothing the second
/// time: ingesting the same parsed batch again leaves the store exactly as
/// the first ingest left it. Since `fetch_emails` parses a given raw batch
/// to the same candidates each run, its second run over the same unseen
/// messages changes nothing.
pub proof fn lemma_fetch_idempotent(m: StoreModel, parsed: Seq<EmailView>)
    ensures
        spec_ingest(spec_ingest(m, parsed), parsed) == spec_ingest(m, parsed),
{
    let m1 = spec_ingest(m, parsed);
    lemma_ingest_rec_keys(m, keys_of(m.emails), parsed);
    assert forall|i: int|
        0 <= i < parsed.len() implies keys_of(m1.emails).contains(
        identity_of(#[trigger] parsed[i]),
    ) by {
        if keys_of(m.emails).contains(identity_of(parsed[i])) {
            assert(keys_of(m.emails).subset_of(keys_of(m1.emails)));
        }
    }
    lemma_ingest_rec_noop(m1, keys_of(m1.emails), parsed);
}

} // verus!
