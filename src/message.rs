//! Turning a raw message into a structured record.
use crate::index::{Location, MessageIndex};
use crate::text::{address_list, same_text, split_addresses};
use mailparse::MailHeaderMap;
use vstd::prelude::*;

verus! {

/// Why a raw message could not become a record.
#[derive(Debug, Clone, Copy, PartialEq, Eq, Structural)]
pub enum ParseError {
    /// The bytes are not a MIME message.
    Unparsable,
    /// The Date field is missing or is not an RFC 2822 date.
    MalformedDate,
}

/// A point in time with the offset it was written in.
#[derive(Debug, Clone, Copy, PartialEq, Eq, Structural)]
pub struct Timestamp {
    /// Seconds since the Unix epoch, in UTC.
    pub seconds: i64,
    /// Seconds east of UTC of the writer's offset.
    pub offset: i32,
}

/// One part of a message: its media type and its decoded body.
pub struct MimePart {
    pub mimetype: String,
    pub body: String,
}

impl View for MimePart {
    type V = (Seq<char>, Seq<char>);

    open spec fn view(&self) -> (Seq<char>, Seq<char>) {
        (self.mimetype@, self.body@)
    }
}

/// What the logic reads of a parsed message: the first value of each field
/// it uses, and the direct subparts followed by the message itself.
pub struct MimeMessage {
    pub from: Option<String>,
    pub to: Option<String>,
    pub cc: Option<String>,
    pub bcc: Option<String>,
    pub subject: Option<String>,
    pub in_reply_to: Option<String>,
    pub date: Option<String>,
    pub parts: Vec<MimePart>,
}

/// What the logic reads of a parsed message, as mathematical values.
pub ghost struct MessageView {
    pub from: Option<Seq<char>>,
    pub to: Option<Seq<char>>,
    pub cc: Option<Seq<char>>,
    pub bcc: Option<Seq<char>>,
    pub subject: Option<Seq<char>>,
    pub in_reply_to: Option<Seq<char>>,
    pub date: Option<Seq<char>>,
    pub parts: Seq<(Seq<char>, Seq<char>)>,
}

/// An optional string seen as an optional sequence of characters.
pub open spec fn opt_view(o: Option<String>) -> Option<Seq<char>> {
    match o {
        Some(s) => Some(s@),
        None => None,
    }
}

impl View for MimeMessage {
    type V = MessageView;

    open spec fn view(&self) -> MessageView {
        MessageView {
            from: opt_view(self.from),
            to: opt_view(self.to),
            cc: opt_view(self.cc),
            bcc: opt_view(self.bcc),
            subject: opt_view(self.subject),
            in_reply_to: opt_view(self.in_reply_to),
            date: opt_view(self.date),
            parts: self.parts@.map_values(|p: MimePart| p@),
        }
    }
}

/// Whether `mailparse::parse_mail` accepts the bytes.
pub uninterp spec fn mail_parses(raw: Seq<u8>) -> bool;

/// The first value of field `key` that mailparse finds in the message.
pub uninterp spec fn header_value_of(raw: Seq<u8>, key: Seq<char>) -> Option<Seq<char>>;

/// Media type and decoded body of the direct subparts and then of the message itself.
pub uninterp spec fn mime_parts_of(raw: Seq<u8>) -> Seq<(Seq<char>, Seq<char>)>;

/// What the parser makes of `raw`, when it parses.
pub open spec fn message_view_of(raw: Seq<u8>) -> MessageView {
    MessageView {
        from: header_value_of(raw, "From"@),
        to: header_value_of(raw, "To"@),
        cc: header_value_of(raw, "Cc"@),
        bcc: header_value_of(raw, "Bcc"@),
        subject: header_value_of(raw, "Subject"@),
        in_reply_to: header_value_of(raw, "In-Reply-To"@),
        date: header_value_of(raw, "Date"@),
        parts: mime_parts_of(raw),
    }
}

/// Relies on `mailparse::parse_mail`, `MailHeaderMap::get_first_value` (a
/// case-insensitive field lookup that decodes the value) and
/// `ParsedMail::get_body`; a body that cannot be decoded reads as empty.
#[verifier::external_body]
fn parse_mime(raw: &[u8]) -> (r: Option<MimeMessage>)
    ensures
        r is Some <==> mail_parses(raw@),
        r is Some ==> r->Some_0@ == message_view_of(raw@),
        r is Some ==> opt_view(r->Some_0.from) == header_value_of(raw@, "From"@),
        r is Some ==> opt_view(r->Some_0.to) == header_value_of(raw@, "To"@),
        r is Some ==> opt_view(r->Some_0.cc) == header_value_of(raw@, "Cc"@),
        r is Some ==> opt_view(r->Some_0.bcc) == header_value_of(raw@, "Bcc"@),
        r is Some ==> opt_view(r->Some_0.subject) == header_value_of(raw@, "Subject"@),
        r is Some ==> opt_view(r->Some_0.in_reply_to) == header_value_of(raw@, "In-Reply-To"@),
        r is Some ==> opt_view(r->Some_0.date) == header_value_of(raw@, "Date"@),
        r is Some ==> r->Some_0.parts@.map_values(|p: MimePart| p@) == mime_parts_of(raw@),
{
    let parsed = mailparse::parse_mail(raw).ok()?;
    let field = |k: &str| parsed.headers.get_first_value(k);
    let parts = parsed.subparts.iter().chain(std::iter::once(&parsed))
        .map(|p| MimePart { mimetype: p.ctype.mimetype.clone(), body: p.get_body().unwrap_or_default() })
        .collect();
    Some(MimeMessage {
        from: field("From"), to: field("To"), cc: field("Cc"), bcc: field("Bcc"),
        subject: field("Subject"), in_reply_to: field("In-Reply-To"), date: field("Date"),
        parts,
    })
}

/// The instant `chrono::DateTime::parse_from_rfc2822` reads from `s`, as
/// (seconds since the epoch, offset in seconds east of UTC).
pub uninterp spec fn rfc2822_of(s: Seq<char>) -> Option<(i64, i32)>;

/// Relies on `chrono::DateTime::parse_from_rfc2822`, with `timestamp` and
/// `FixedOffset::local_minus_utc` to read the result.
#[verifier::external_body]
fn parse_rfc2822(s: &str) -> (r: Option<Timestamp>)
    ensures
        r is Some <==> rfc2822_of(s@) is Some,
        r is Some ==> (r->Some_0.seconds, r->Some_0.offset) == rfc2822_of(s@)->Some_0,
{
    let t = chrono::DateTime::parse_from_rfc2822(s).ok()?;
    Some(Timestamp { seconds: t.timestamp(), offset: t.offset().local_minus_utc() })
}

/// A file carried by a message.
#[derive(Debug)]
pub struct Attachment {
    pub filename: String,
    pub mime: String,
    pub data: Vec<u8>,
}

/// A message as the client presents it.
#[derive(Debug)]
pub struct EmailRecord {
    pub plain_text: String,
    pub html: String,
    pub from: Vec<String>,
    pub to: Vec<String>,
    pub cc: Vec<String>,
    pub bcc: Vec<String>,
    pub subject: String,
    pub timestamp: Timestamp,
    pub parent: Option<Location>,
    pub attachments: Vec<Attachment>,
}

/// A record as mathematical values; attachments are counted.
pub ghost struct RecordView {
    pub plain_text: Seq<char>,
    pub html: Seq<char>,
    pub from: Seq<Seq<char>>,
    pub to: Seq<Seq<char>>,
    pub cc: Seq<Seq<char>>,
    pub bcc: Seq<Seq<char>>,
    pub subject: Seq<char>,
    pub timestamp: (i64, i32),
    pub parent: Option<(Seq<char>, u32)>,
    pub attachment_count: nat,
}

/// A vector of strings seen as a sequence of character sequences.
pub open spec fn strings_view(v: Vec<String>) -> Seq<Seq<char>> {
    v@.map_values(|s: String| s@)
}

impl View for EmailRecord {
    type V = RecordView;

    open spec fn view(&self) -> RecordView {
        RecordView {
            plain_text: self.plain_text@,
            html: self.html@,
            from: strings_view(self.from),
            to: strings_view(self.to),
            cc: strings_view(self.cc),
            bcc: strings_view(self.bcc),
            subject: self.subject@,
            timestamp: (self.timestamp.seconds, self.timestamp.offset),
            parent: match self.parent {
                Some(l) => Some(l@),
                None => None,
            },
            attachment_count: self.attachments@.len(),
        }
    }
}

/// The body of the last part whose media type is exactly `mimetype`, or the
/// empty text when there is none.
pub open spec fn last_body_of(parts: Seq<(Seq<char>, Seq<char>)>, mimetype: Seq<char>) -> Seq<char>
    decreases parts.len(),
{
    if parts.len() == 0 {
        Seq::empty()
    } else if parts.last().0 == mimetype {
        parts.last().1
    } else {
        last_body_of(parts.drop_last(), mimetype)
    }
}

/// The entries of an address field; none when the field is missing.
pub open spec fn addresses_of(v: Option<Seq<char>>) -> Seq<Seq<char>> {
    match v {
        Some(s) => address_list(s),
        None => Seq::empty(),
    }
}

/// The location of the message that `in_reply_to` names, when the index holds it.
pub open spec fn parent_of(in_reply_to: Option<Seq<char>>, index: Map<Seq<char>, (Seq<char>, u32)>) -> Option<(Seq<char>, u32)> {
    match in_reply_to {
        Some(id) => if index.contains_key(id) {
            Some(index[id])
        } else {
            None
        },
        None => None,
    }
}

/// The record made of a parsed message, or why there is none.
pub open spec fn record_of(m: MessageView, index: Map<Seq<char>, (Seq<char>, u32)>) -> Result<RecordView, ParseError> {
    let stamp = match m.date {
        Some(d) => rfc2822_of(d),
        None => None,
    };
    match stamp {
        None => Err(ParseError::MalformedDate),
        Some(t) => Ok(RecordView {
            plain_text: last_body_of(m.parts, "text/plain"@),
            html: last_body_of(m.parts, "text/html"@),
            from: addresses_of(m.from),
            to: addresses_of(m.to),
            cc: addresses_of(m.cc),
            bcc: addresses_of(m.bcc),
            subject: match m.subject {
                Some(s) => s,
                None => Seq::empty(),
            },
            timestamp: t,
            parent: parent_of(m.in_reply_to, index),
            attachment_count: 0,
        }),
    }
}

/// The outcome `r` seen through the views.
pub open spec fn outcome_view(r: Result<EmailRecord, ParseError>) -> Result<RecordView, ParseError> {
    match r {
        Ok(rec) => Ok(rec@),
        Err(e) => Err(e),
    }
}

/// The body of the last of `parts` whose media type is `mimetype`.
pub fn last_body(parts: &Vec<MimePart>, mimetype: &str) -> (r: String)
    ensures
        r@ == last_body_of(parts@.map_values(|p: MimePart| p@), mimetype@),
{
    let ghost ps = parts@.map_values(|p: MimePart| p@);
    let mut cur = String::new();
    let mut i: usize = 0;
    proof {
        assert(ps.take(0) =~= Seq::<(Seq<char>, Seq<char>)>::empty());
    }
    while i < parts.len()
        invariant
            i <= parts@.len(),
            ps == parts@.map_values(|p: MimePart| p@),
            cur@ == last_body_of(ps.take(i as int), mimetype@),
        decreases parts.len() - i,
    {
        proof {
            assert(ps.take(i + 1).drop_last() =~= ps.take(i as int));
            assert(ps.take(i + 1).last() == parts@[i as int]@);
        }
        if same_text(parts[i].mimetype.as_str(), mimetype) {
            cur = parts[i].body.clone();
        }
        i = i + 1;
    }
    assert(ps.take(parts@.len() as int) =~= ps);
    cur
}

/// The entries of an address field, none when it is missing.
fn address_field(v: &Option<String>) -> (r: Vec<String>)
    ensures
        strings_view(r) == addresses_of(opt_view(*v)),
{
    match v {
        Some(s) => split_addresses(s.as_str()),
        None => {
            let r: Vec<String> = Vec::new();
            assert(strings_view(r) =~= Seq::<Seq<char>>::empty());
            r
        },
    }
}

/// Builds the record of a parsed message: address fields split, the last
/// plain-text and HTML parts as bodies, the Date field read, and the parent
/// looked up in `index`. A reply to a message that the index lacks has no
/// parent; a missing or unreadable Date fails.
pub fn email_from_message(msg: &MimeMessage, index: &MessageIndex) -> (r: Result<EmailRecord, ParseError>)
    ensures
        outcome_view(r) == record_of(msg@, index@),
{
    let stamp = match &msg.date {
        Some(d) => parse_rfc2822(d.as_str()),
        None => None,
    };
    let timestamp = match stamp {
        Some(t) => t,
        None => return Err(ParseError::MalformedDate),
    };
    let parent = match &msg.in_reply_to {
        Some(id) => index.get(id.as_str()),
        None => None,
    };
    let subject = match &msg.subject {
        Some(s) => s.clone(),
        None => String::new(),
    };
    let rec = EmailRecord {
        plain_text: last_body(&msg.parts, "text/plain"),
        html: last_body(&msg.parts, "text/html"),
        from: address_field(&msg.from),
        to: address_field(&msg.to),
        cc: address_field(&msg.cc),
        bcc: address_field(&msg.bcc),
        subject,
        timestamp,
        parent,
        attachments: Vec::new(),
    };
    proof {
        assert(rec@ == record_of(msg@, index@)->Ok_0);
    }
    Ok(rec)
}

/// Parses raw message bytes into a record; see `email_from_message`.
pub fn parse_email(raw: &[u8], index: &MessageIndex) -> (r: Result<EmailRecord, ParseError>)
    ensures
        !mail_parses(raw@) ==> r == Err::<EmailRecord, ParseError>(ParseError::Unparsable),
        mail_parses(raw@) ==> outcome_view(r) == record_of(message_view_of(raw@), index@),
{
    match parse_mime(raw) {
        Some(m) => email_from_message(&m, index),
        None => Err(ParseError::Unparsable),
    }
}

/// When several parts have the media type, the body of the last of them is
/// the one chosen: if part `j` has it and no later part does, its body is
/// the result.
pub proof fn lemma_last_part_wins(parts: Seq<(Seq<char>, Seq<char>)>, mimetype: Seq<char>, j: int)
    requires
        0 <= j < parts.len(),
        parts[j].0 == mimetype,
        forall|k: int| j < k < parts.len() ==> parts[k].0 != mimetype,
    ensures
        last_body_of(parts, mimetype) == parts[j].1,
    decreases parts.len(),
{
    if j < parts.len() - 1 {
        let init = parts.drop_last();
        assert forall|k: int| j < k < init.len() implies init[k].0 != mimetype by {
            assert(init[k] == parts[k]);
        }
        lemma_last_part_wins(init, mimetype, j);
    }
}

/// A reply's parent is the indexed location of the message it names, and
/// is absent, without failing, when the index lacks that message.
pub proof fn lemma_parent_resolution(m: MessageView, index: Map<Seq<char>, (Seq<char>, u32)>, id: Seq<char>)
    requires
        m.in_reply_to == Some(id),
        record_of(m, index) is Ok,
    ensures
        index.contains_key(id) ==> record_of(m, index)->Ok_0.parent == Some(index[id]),
        !index.contains_key(id) ==> record_of(m, index)->Ok_0.parent is None,
{
}

/// A message without a Date field gives no record, only `MalformedDate`.
pub proof fn lemma_missing_date_fails(m: MessageView, index: Map<Seq<char>, (Seq<char>, u32)>)
    requires
        m.date is None,
    ensures
        record_of(m, index) == Err::<RecordView, ParseError>(ParseError::MalformedDate),
{
}

} // verus!
