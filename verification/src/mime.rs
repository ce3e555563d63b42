//! A parsed MIME message reduced to what the extraction logic reads, the
//! trusted parse call producing it, and the verified header and body
//! extraction the fetch pipeline runs on it: the `From` header is required,
//! `Subject` and `Date` default to empty, header names match
//! case-insensitively with the last occurrence winning, and the body is the
//! top-level one when there are no subparts, else the first subpart body
//! that decoded.

use vstd::prelude::*;
use vstd::string::StrSliceExecFns;

use crate::models::{Email, EmailView, FetchError};

verus! {

/// One raw header: the name as it stands in the message, and the decoded
/// value.
pub struct MimeHeader {
    pub name: String,
    pub value: String,
}

/// Spec-level image of a header.
pub ghost struct MimeHeaderView {
    pub name: Seq<char>,
    pub value: Seq<char>,
}

impl View for MimeHeader {
    type V = MimeHeaderView;

    open spec fn view(&self) -> MimeHeaderView {
        MimeHeaderView { name: self.name@, value: self.value@ }
    }
}

/// A parsed message, reduced to plain values: its headers, the decoded
/// top-level body where one could be decoded, and for each direct subpart
/// its decoded body where one could be decoded.
pub struct MimeMessage {
    pub headers: Vec<MimeHeader>,
    pub top_body: Option<String>,
    pub sub_bodies: Vec<Option<String>>,
}

/// Spec-level image of a parsed message.
pub ghost struct MimeView {
    pub headers: Seq<MimeHeaderView>,
    pub top_body: Option<Seq<char>>,
    pub sub_bodies: Seq<Option<Seq<char>>>,
}

impl View for MimeMessage {
    type V = MimeView;

    open spec fn view(&self) -> MimeView {
        MimeView {
            headers: self.headers@.map_values(|h: MimeHeader| h@),
            top_body: match self.top_body {
                Some(b) => Some(b@),
                None => None,
            },
            sub_bodies: self.sub_bodies@.map_values(
                |b: Option<String>|
                    match b {
                        Some(s) => Some(s@),
                        None => None,
                    },
            ),
        }
    }
}

/// What a raw RFC822 message parses to, reduced to headers and decodable
/// bodies: a function of the bytes alone. `None` stands for bytes that do
/// not parse as a MIME message at all.
pub uninterp spec fn mime_of(raw: Seq<u8>) -> Option<MimeView>;

/// Relies on mailparse::parse_mail for the parse, and on
/// MailHeader::get_key, MailHeader::get_value and ParsedMail::get_body to
/// read out the parsed structure; all of them compute from the given bytes
/// alone, so the result is named by `mime_of`.
#[verifier::external_body]
pub(crate) fn parse_mime(raw: &Vec<u8>) -> (r: Option<MimeMessage>)
    ensures
        match r {
            Some(m) => mime_of(raw@) == Some(m@),
            None => mime_of(raw@) is None,
        },
{
    let parsed = match mailparse::parse_mail(raw.as_slice()) {
        Ok(p) => p,
        Err(_) => return None,
    };
    Some(MimeMessage {
        headers: parsed.headers.iter().map(
            |h| MimeHeader { name: h.get_key(), value: h.get_value() },
        ).collect(),
        top_body: parsed.get_body().ok(),
        sub_bodies: parsed.subparts.iter().map(|p| p.get_body().ok()).collect(),
    })
}

/// ASCII lowercase of one character; anything outside `A`..`Z` is kept.
pub open spec fn lower_char(c: char) -> char {
    if 65 <= c as u32 && c as u32 <= 90 {
        (((c as u32) + 32) as u8) as char
    } else {
        c
    }
}

/// ASCII lowercase of a whole header name.
pub open spec fn lower_seq(s: Seq<char>) -> Seq<char> {
    s.map_values(|c: char| lower_char(c))
}

/// ASCII lowercase of one character.
fn lower_char_exec(c: char) -> (r: char)
    ensures
        r == lower_char(c),
{
    let u = c as u32;
    if 65 <= u && u <= 90 {
        ((u + 32) as u8) as char
    } else {
        c
    }
}

/// Whether two names are the same header name, compared ASCII
/// case-insensitively.
fn eq_ignore_ascii_case(name: &str, target: &str) -> (r: bool)
    ensures
        r == (lower_seq(name@) == lower_seq(target@)),
{
    let n = name.unicode_len();
    if n != target.unicode_len() {
        proof {
            assert(lower_seq(name@).len() == name@.len());
            assert(lower_seq(target@).len() == target@.len());
        }
        return false;
    }
    let mut i: usize = 0;
    while i < n
        invariant
            0 <= i <= n,
            n == name@.len(),
            n == target@.len(),
            forall|j: int| 0 <= j < i ==> lower_char(name@[j]) == lower_char(target@[j]),
        decreases n - i,
    {
        if lower_char_exec(name.get_char(i)) != lower_char_exec(target.get_char(i)) {
            proof {
                assert(lower_seq(name@)[i as int] != lower_seq(target@)[i as int]);
            }
            return false;
        }
        i += 1;
    }
    proof {
        assert(lower_seq(name@) =~= lower_seq(target@));
    }
    true
}

/// The value of the last header whose lowercased name is `target` (given
/// already lowercased), or `None` when no header has that name. The last
/// occurrence wins, as collecting headers into a map makes it.
pub open spec fn header_lookup(headers: Seq<MimeHeaderView>, target: Seq<char>) -> Option<
    Seq<char>,
>
    decreases headers.len(),
{
    if headers.len() == 0 {
        None
    } else if lower_seq(headers.last().name) == target {
        Some(headers.last().value)
    } else {
        header_lookup(headers.drop_last(), target)
    }
}

/// Finds the last header named `target`, compared case-insensitively.
fn find_header(headers: &Vec<MimeHeader>, target: &str) -> (r: Option<String>)
    ensures
        match r {
            Some(v) => header_lookup(
                headers@.map_values(|h: MimeHeader| h@),
                lower_seq(target@),
            ) == Some(v@),
            None => header_lookup(
                headers@.map_values(|h: MimeHeader| h@),
                lower_seq(target@),
            ) is None,
        },
{
    let ghost hviews = headers@.map_values(|h: MimeHeader| h@);
    let ghost tgt = lower_seq(target@);
    let mut i: usize = headers.len();
    proof {
        assert(hviews.take(i as int) =~= hviews);
    }
    while i > 0
        invariant
            0 <= i <= headers@.len(),
            hviews == headers@.map_values(|h: MimeHeader| h@),
            tgt == lower_seq(target@),
            header_lookup(hviews, tgt) == header_lookup(hviews.take(i as int), tgt),
        decreases i,
    {
        let idx = i - 1;
        let h = &headers[idx];
        proof {
            assert(hviews.take(i as int).len() == i);
            assert(hviews.take(i as int).last() == hviews[idx as int]);
            assert(hviews[idx as int] == h@);
            assert(hviews.take(i as int).drop_last() =~= hviews.take(idx as int));
        }
        if eq_ignore_ascii_case(h.name.as_str(), target) {
            return Some(h.value.clone());
        }
        i = idx;
    }
    proof {
        assert(hviews.take(0) =~= Seq::<MimeHeaderView>::empty());
    }
    None
}

/// The first decoded body among the subpart bodies still to be walked.
pub open spec fn first_sub_body(bodies: Seq<Option<Seq<char>>>) -> Option<Seq<char>>
    decreases bodies.len(),
{
    if bodies.len() == 0 {
        None
    } else {
        match bodies[0] {
            Some(b) => Some(b),
            None => first_sub_body(bodies.drop_first()),
        }
    }
}

/// The body the pipeline keeps: the top-level body when the message has no
/// subparts, else the body of the first subpart that decoded.
pub open spec fn body_of(m: MimeView) -> Option<Seq<char>> {
    if m.sub_bodies.len() == 0 {
        m.top_body
    } else {
        first_sub_body(m.sub_bodies)
    }
}

/// Extracts the body the pipeline keeps; fails exactly when no part of the
/// message yields one.
pub fn extract_body_from_parsed_mail(m: &MimeMessage) -> (r: Result<String, FetchError>)
    ensures
        match r {
            Ok(b) => body_of(m@) == Some(b@),
            Err(e) => body_of(m@) is None && e == FetchError::NoBody,
        },
{
    if m.sub_bodies.len() == 0 {
        match &m.top_body {
            Some(b) => Ok(b.clone()),
            None => Err(FetchError::NoBody),
        }
    } else {
        let ghost bodies = m@.sub_bodies;
        let mut i: usize = 0;
        proof {
            assert(bodies.skip(0) =~= bodies);
        }
        while i < m.sub_bodies.len()
            invariant
                0 <= i <= m.sub_bodies@.len(),
                bodies == m@.sub_bodies,
                bodies.len() == m.sub_bodies@.len(),
                first_sub_body(bodies) == first_sub_body(bodies.skip(i as int)),
            decreases m.sub_bodies@.len() - i,
        {
            proof {
                assert(bodies.skip(i as int)[0] == bodies[i as int]);
                assert(bodies.skip(i as int).drop_first() =~= bodies.skip(i as int + 1));
            }
            match &m.sub_bodies[i] {
                Some(b) => {
                    return Ok(b.clone());
                },
                None => {},
            }
            i += 1;
        }
        proof {
            assert(bodies.skip(i as int) =~= Seq::<Option<Seq<char>>>::empty());
        }
        Err(FetchError::NoBody)
    }
}

/// What one parsed message becomes: a candidate row, or the error that
/// aborts the batch. The sender is required; subject and date default to
/// empty; the candidate is unread, carries no attachments, and has no id
/// yet.
pub open spec fn parse_email_spec(m: MimeView) -> Result<EmailView, FetchError> {
    if header_lookup(m.headers, "from"@) is None {
        Err(FetchError::MissingSender)
    } else if body_of(m) is None {
        Err(FetchError::NoBody)
    } else {
        Ok(
            EmailView {
                id: 0,
                sender: header_lookup(m.headers, "from"@)->Some_0,
                sent_date: match header_lookup(m.headers, "date"@) {
                    Some(v) => v,
                    None => Seq::empty(),
                },
                subject: match header_lookup(m.headers, "subject"@) {
                    Some(v) => v,
                    None => Seq::empty(),
                },
                body: body_of(m)->Some_0,
                attachments: None,
                is_read: false,
            },
        )
    }
}

/// The literal header names the pipeline looks up are already lowercase.
proof fn lemma_targets_lowercase()
    ensures
        lower_seq("from"@) == "from"@,
        lower_seq("date"@) == "date"@,
        lower_seq("subject"@) == "subject"@,
{
    reveal_strlit("from");
    reveal_strlit("date");
    reveal_strlit("subject");
    assert(lower_seq("from"@) =~= "from"@);
    assert(lower_seq("date"@) =~= "date"@);
    assert(lower_seq("subject"@) =~= "subject"@);
}

/// Turns one parsed message into a candidate row, exactly as
/// `parse_email_spec` says.
pub fn parse_email(m: &MimeMessage) -> (r: Result<Email, FetchError>)
    ensures
        match r {
            Ok(e) => parse_email_spec(m@) == Ok::<EmailView, FetchError>(e@),
            Err(e) => parse_email_spec(m@) == Err::<EmailView, FetchError>(e),
        },
{
    proof {
        lemma_targets_lowercase();
    }
    let sender = match find_header(&m.headers, "from") {
        Some(v) => v,
        None => {
            return Err(FetchError::MissingSender);
        },
    };
    let sent_date = match find_header(&m.headers, "date") {
        Some(v) => v,
        None => String::new(),
    };
    let subject = match find_header(&m.headers, "subject") {
        Some(v) => v,
        None => String::new(),
    };
    let body = match extract_body_from_parsed_mail(m) {
        Ok(b) => b,
        Err(e) => {
            return Err(e);
        },
    };
    Ok(Email { id: 0, sender, sent_date, subject, body, attachments: None, is_read: false })
}

} // verus!
