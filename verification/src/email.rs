//! Retrieved mail: the address of the sender, the filter on it, and what a
//! parsed message adds to the mail that is kept.

use vstd::prelude::*;
use vstd::string::StringExecFns;
use crate::mime::{body_text, extract_body, MailPart, PartView};
use crate::text::{
    after_last, before_first, contains, lemma_after_last, lemma_before_first, lowercase,
    push_chars, str_contains, to_chars, trim_bounds, trimmed,
};

verus! {

/// A retrieved message: the address of its sender, its subject and the text
/// of its body.
#[derive(Debug, Clone)]
pub struct EmailTable {
    pub sender: String,
    pub subject: String,
    pub body: String,
}

/// The mathematical value of an [`EmailTable`].
pub struct EmailTableView {
    pub sender: Seq<char>,
    pub subject: Seq<char>,
    pub body: Seq<char>,
}

impl DeepView for EmailTable {
    type V = EmailTableView;

    open spec fn deep_view(&self) -> EmailTableView {
        EmailTableView { sender: self.sender@, subject: self.subject@, body: self.body@ }
    }
}

impl View for EmailTable {
    type V = EmailTableView;

    open spec fn view(&self) -> EmailTableView {
        self.deep_view()
    }
}

/// The address in a sender field: what follows the last `<`, up to the first
/// `>` after it, without white space around it and in lower case.
pub open spec fn normalized_address(field: Seq<char>) -> Seq<char> {
    lowercase(trimmed(before_first(after_last(field, '<'), '>')))
}

/// The address of the sender, taken out of a field such as
/// `John Doe <john@example.com>`.
pub fn extract_email(s: &str) -> (address: String)
    ensures
        address@ == normalized_address(s@),
{
    let chars = to_chars(s);
    let mut from: usize = chars.len();
    while from > 0 && chars[from - 1] != '<'
        invariant
            from <= chars.len(),
            forall|i: int| from <= i < chars.len() ==> #[trigger] chars@[i] != '<',
        decreases from,
    {
        from -= 1;
    }
    let mut inner: Vec<char> = Vec::new();
    let mut to: usize = from;
    while to < chars.len() && chars[to] != '>'
        invariant
            from <= to <= chars.len(),
            inner@ == chars@.subrange(from as int, to as int),
            forall|i: int| from <= i < to ==> #[trigger] chars@[i] != '>',
        decreases chars.len() - to,
    {
        inner.push(chars[to]);
        to += 1;
    }
    proof {
        let tail = chars@.skip(from as int);
        lemma_after_last(chars@, '<', from as int);
        assert forall|i: int| 0 <= i < to - from implies #[trigger] tail[i] != '>' by {
            assert(tail[i] == chars@[i + from]);
        }
        lemma_before_first(tail, '>', to - from);
        assert(tail.take(to - from) =~= inner@);
    }
    let bounds = trim_bounds(&inner);
    let mut bare = String::new();
    push_chars(&mut bare, &inner, bounds.0, bounds.1);
    assert(bare@ =~= trimmed(inner@));
    bare.as_str().to_lowercase()
}

/// A sender is let through if its address contains `mail.tsinghua` or
/// `mails.tsinghua`.
pub open spec fn is_allowed_sender(address: Seq<char>) -> bool {
    contains(address, "mail.tsinghua"@) || contains(address, "mails.tsinghua"@)
}

/// Whether the sender is one of the mailboxes of the institution.
pub fn is_tsinghua_sender(sender: &str) -> (allowed: bool)
    ensures
        allowed == is_allowed_sender(sender@),
{
    str_contains(sender, "mail.tsinghua") || str_contains(sender, "mails.tsinghua")
}

/// A header of a message: its name and its decoded value.
#[derive(Debug, Clone)]
pub struct MailHeader {
    pub name: String,
    pub value: String,
}

/// The mathematical value of a [`MailHeader`].
pub struct HeaderView {
    pub name: Seq<char>,
    pub value: Seq<char>,
}

impl DeepView for MailHeader {
    type V = HeaderView;

    open spec fn deep_view(&self) -> HeaderView {
        HeaderView { name: self.name@, value: self.value@ }
    }
}

impl View for MailHeader {
    type V = HeaderView;

    open spec fn view(&self) -> HeaderView {
        self.deep_view()
    }
}

/// A parsed message: its headers in order, and the root of its body parts.
#[derive(Debug)]
pub struct MailMessage {
    pub headers: Vec<MailHeader>,
    pub body: MailPart,
}

/// The mathematical value of a [`MailMessage`].
pub struct MessageView {
    pub headers: Seq<HeaderView>,
    pub body: PartView,
}

impl DeepView for MailMessage {
    type V = MessageView;

    open spec fn deep_view(&self) -> MessageView {
        MessageView { headers: self.headers.deep_view(), body: self.body@ }
    }
}

impl View for MailMessage {
    type V = MessageView;

    open spec fn view(&self) -> MessageView {
        self.deep_view()
    }
}

/// The lower-case form of an ASCII capital letter; any other character
/// itself.
pub open spec fn ascii_lower(c: char) -> char {
    if 'A' <= c && c <= 'Z' {
        ((c as u8) + 32) as char
    } else {
        c
    }
}

/// Two names are the same but for the case of their ASCII letters.
pub open spec fn same_name(a: Seq<char>, b: Seq<char>) -> bool {
    &&& a.len() == b.len()
    &&& forall|i: int| 0 <= i < a.len() ==> ascii_lower(#[trigger] a[i]) == ascii_lower(b[i])
}

/// The value of the first of `headers` that is named `name`, whatever the
/// case of the ASCII letters in the two names.
pub open spec fn first_header(headers: Seq<HeaderView>, name: Seq<char>) -> Option<Seq<char>>
    decreases headers.len(),
{
    if headers.len() == 0 {
        None
    } else if same_name(headers[0].name, name) {
        Some(headers[0].value)
    } else {
        first_header(headers.drop_first(), name)
    }
}

/// The lower-case form of an ASCII capital letter; any other character
/// itself.
pub fn to_ascii_lower(c: char) -> (lower: char)
    ensures
        lower == ascii_lower(c),
{
    if c >= 'A' && c <= 'Z' {
        ((c as u8) + 32) as char
    } else {
        c
    }
}

/// Whether two names are the same but for the case of their ASCII letters.
pub fn names_match(a: &Vec<char>, b: &Vec<char>) -> (same: bool)
    ensures
        same == same_name(a@, b@),
{
    if a.len() != b.len() {
        return false;
    }
    let mut i: usize = 0;
    while i < a.len()
        invariant
            a.len() == b.len(),
            i <= a.len(),
            forall|k: int| 0 <= k < i ==> ascii_lower(#[trigger] a@[k]) == ascii_lower(b@[k]),
        decreases a.len() - i,
    {
        if to_ascii_lower(a[i]) != to_ascii_lower(b[i]) {
            return false;
        }
        i += 1;
    }
    true
}

impl MailMessage {
    /// The value of the first header named `name`; the case of ASCII letters
    /// in the name does not matter.
    pub fn first_header_value(&self, name: &str) -> (value: Option<String>)
        ensures
            value.deep_view() == first_header(self@.headers, name@),
    {
        let wanted = to_chars(name);
        let ghost headers = self@.headers;
        let mut at: usize = 0;
        proof {
            assert(headers.skip(0) =~= headers);
        }
        while at < self.headers.len()
            invariant
                headers == self@.headers,
                wanted@ == name@,
                at <= self.headers.len(),
                first_header(headers, name@) == first_header(headers.skip(at as int), name@),
            decreases self.headers.len() - at,
        {
            let header = &self.headers[at];
            let header_name = to_chars(header.name.as_str());
            proof {
                let rest = headers.skip(at as int);
                assert(rest[0] == header@);
                assert(rest.drop_first() =~= headers.skip(at + 1));
            }
            if names_match(&header_name, &wanted) {
                return Some(header.value.clone());
            }
            at += 1;
        }
        None
    }
}

/// The sender field of a message: the value of its `From` header, or the
/// empty string.
pub open spec fn sender_field(message: MessageView) -> Seq<char> {
    match first_header(message.headers, "From"@) {
        Some(value) => value,
        None => Seq::empty(),
    }
}

/// The subject of a message: the value of its `Subject` header, or the empty
/// string.
pub open spec fn subject_of(message: MessageView) -> Seq<char> {
    match first_header(message.headers, "Subject"@) {
        Some(value) => value,
        None => Seq::empty(),
    }
}

/// What a message adds to the retrieved mail: nothing if its sender is not
/// let through, else one entry with the address of the sender, the subject
/// and the text of the body.
pub open spec fn retrieved(message: MessageView) -> Seq<EmailTableView> {
    let sender = normalized_address(sender_field(message));
    if is_allowed_sender(sender) {
        seq![
            EmailTableView {
                sender,
                subject: subject_of(message),
                body: body_text(message.body),
            },
        ]
    } else {
        Seq::empty()
    }
}

/// What a list of messages adds to the retrieved mail: what each adds, in
/// the order of the messages.
pub open spec fn retrieved_all(messages: Seq<MessageView>) -> Seq<EmailTableView>
    decreases messages.len(),
{
    if messages.len() == 0 {
        Seq::empty()
    } else {
        retrieved_all(messages.drop_last()) + retrieved(messages.last())
    }
}

/// Only mail from the institution is kept: every entry of the retrieved
/// mail has a sender that is let through, and there are no more entries than
/// messages.
pub proof fn lemma_only_allowed_senders(messages: Seq<MessageView>)
    ensures
        retrieved_all(messages).len() <= messages.len(),
        forall|at: int|
            0 <= at < retrieved_all(messages).len() ==> is_allowed_sender(
                (#[trigger] retrieved_all(messages)[at]).sender,
            ),
    decreases messages.len(),
{
    if messages.len() > 0 {
        lemma_only_allowed_senders(messages.drop_last());
    }
}

/// Adds the message to `results` if its sender is let through.
pub fn process_email(message: &MailMessage, results: &mut Vec<EmailTable>)
    ensures
        final(results).deep_view() == old(results).deep_view() + retrieved(message@),
{
    let ghost before = results.deep_view();
    let field = match message.first_header_value("From") {
        Some(value) => value,
        None => String::new(),
    };
    let sender = extract_email(field.as_str());
    if !is_tsinghua_sender(sender.as_str()) {
        assert(before + Seq::<EmailTableView>::empty() =~= before);
        return;
    }
    let subject = match message.first_header_value("Subject") {
        Some(value) => value,
        None => String::new(),
    };
    let body = extract_body(&message.body);
    results.push(EmailTable { sender, subject, body });
    assert(results.deep_view() =~= before + retrieved(message@));
}

/// The retrieved mail of a list of messages: an entry for each message whose
/// sender is let through, in the order of the messages.
pub fn process_messages(messages: &Vec<MailMessage>) -> (results: Vec<EmailTable>)
    ensures
        results.deep_view() == retrieved_all(messages.deep_view()),
{
    let ghost all = messages.deep_view();
    let mut results: Vec<EmailTable> = Vec::new();
    let mut at: usize = 0;
    proof {
        assert(all.take(0) =~= Seq::empty());
        assert(results.deep_view() =~= Seq::empty());
    }
    while at < messages.len()
        invariant
            all == messages.deep_view(),
            at <= messages.len(),
            results.deep_view() == retrieved_all(all.take(at as int)),
        decreases messages.len() - at,
    {
        proof {
            assert(all.take(at + 1).drop_last() =~= all.take(at as int));
            assert(all.take(at + 1).last() == messages[at as int]@);
        }
        process_email(&messages[at], &mut results);
        at += 1;
    }
    proof {
        assert(all.take(at as int) =~= all);
    }
    results
}

/// `mailparse::ParsedMail`, a parsed message or one of its parts. Nothing
/// inside it is visible here; it is carried from the parser to the two
/// functions that read it out.
#[verifier::external_type_specification]
#[verifier::external_body]
pub struct ExParsedMail<'a>(mailparse::ParsedMail<'a>);

/// What the parser makes of the raw bytes of a message: the headers and the
/// body parts that it finds, or nothing where it refuses the bytes.
pub uninterp spec fn parsed(raw: Seq<u8>) -> Option<MessageView>;

/// The headers that a parsed mail holds, in order, each with its name and
/// its decoded value.
pub uninterp spec fn mail_headers(mail: mailparse::ParsedMail) -> Seq<HeaderView>;

/// The body parts that a parsed mail holds: the mail itself as the root,
/// with its content type, its decoded text and the parts nested in it.
pub uninterp spec fn mail_parts(mail: mailparse::ParsedMail) -> PartView;

/// `mailparse::parse_mail` splits the raw bytes of a message into headers
/// and body parts, or refuses them; a refusal comes back as `None`. The
/// parser reads nothing but the bytes, so what it finds is named after them;
/// which bytes it takes and what it finds in them is not spelled out.
#[verifier::external_body]
fn parse_mail<'a>(raw: &'a [u8]) -> (mail: Option<mailparse::ParsedMail<'a>>)
    ensures
        match parsed(raw@) {
            Some(message) => mail matches Some(found) && mail_headers(found) == message.headers
                && mail_parts(found) == message.body,
            None => mail is None,
        },
{
    mailparse::parse_mail(raw).ok()
}

/// The headers of a parsed mail, in order, each with its name
/// (`MailHeader::get_key`) and its decoded value (`MailHeader::get_value`).
/// What they hold is named, not spelled out.
#[verifier::external_body]
fn header_list(mail: &mailparse::ParsedMail) -> (headers: Vec<MailHeader>)
    ensures
        headers.deep_view() == mail_headers(*mail),
{
    mail.headers.iter().map(
        |header| MailHeader { name: header.get_key(), value: header.get_value() },
    ).collect()
}

/// The body parts of a parsed mail: for each part its `ctype.mimetype`, the
/// text that `ParsedMail::get_body` decodes where it succeeds, and its
/// `subparts`, converted in the same way. What they hold is named, not
/// spelled out.
#[verifier::external_body]
fn part_tree(mail: &mailparse::ParsedMail) -> (part: MailPart)
    ensures
        part@ == mail_parts(*mail),
{
    MailPart {
        content_type: mail.ctype.mimetype.clone(),
        body: mail.get_body().ok(),
        subparts: mail.subparts.iter().map(part_tree).collect(),
    }
}

/// Parses the raw bytes of a message. The result is `None` where the parser
/// refuses the bytes.
pub fn read_message(raw: &[u8]) -> (message: Option<MailMessage>)
    ensures
        message.deep_view() == parsed(raw@),
{
    match parse_mail(raw) {
        Some(mail) => Some(MailMessage { headers: header_list(&mail), body: part_tree(&mail) }),
        None => None,
    }
}

/// What the parser makes of a list of raw messages: the messages that it
/// takes, in the order of the list.
pub open spec fn parsed_all(raws: Seq<Seq<u8>>) -> Seq<MessageView>
    decreases raws.len(),
{
    if raws.len() == 0 {
        Seq::empty()
    } else {
        match parsed(raws.last()) {
            Some(message) => parsed_all(raws.drop_last()).push(message),
            None => parsed_all(raws.drop_last()),
        }
    }
}

/// The parser takes no more messages than it is given.
pub proof fn lemma_parsed_all_len(raws: Seq<Seq<u8>>)
    ensures
        parsed_all(raws).len() <= raws.len(),
    decreases raws.len(),
{
    if raws.len() > 0 {
        lemma_parsed_all_len(raws.drop_last());
    }
}

/// The retrieved mail of a list of raw messages, in their order. A message
/// that does not parse is passed over; the others are handled as
/// [`process_messages`] handles them. Whatever the parser makes of the
/// bytes, there are no more entries than raw messages, and every entry has a
/// sender that is let through.
pub fn process_raw_messages(raws: &Vec<Vec<u8>>) -> (results: Vec<EmailTable>)
    ensures
        results.deep_view() == retrieved_all(parsed_all(raws.deep_view())),
        results.len() <= raws.len(),
        forall|at: int|
            0 <= at < results.len() ==> is_allowed_sender((#[trigger] results[at]).sender@),
{
    let ghost all = raws.deep_view();
    let mut messages: Vec<MailMessage> = Vec::new();
    let mut at: usize = 0;
    proof {
        assert(all.take(0) =~= Seq::empty());
        assert(messages.deep_view() =~= Seq::empty());
    }
    while at < raws.len()
        invariant
            all == raws.deep_view(),
            at <= raws.len(),
            messages.deep_view() == parsed_all(all.take(at as int)),
        decreases raws.len() - at,
    {
        let ghost before = messages.deep_view();
        proof {
            assert(all.take(at + 1).drop_last() =~= all.take(at as int));
            assert(all.take(at + 1).last() == raws[at as int].deep_view());
            assert(raws[at as int].deep_view() =~= raws[at as int]@);
        }
        match read_message(raws[at].as_slice()) {
            Some(message) => {
                messages.push(message);
                assert(messages.deep_view() =~= before.push(message@));
            },
            None => {},
        }
        at += 1;
    }
    let results = process_messages(&messages);
    proof {
        assert(all.take(at as int) =~= all);
        let taken = messages.deep_view();
        lemma_parsed_all_len(all);
        lemma_only_allowed_senders(taken);
        assert forall|at: int| 0 <= at < results.len() implies is_allowed_sender(
            (#[trigger] results[at]).sender@,
        ) by {
            assert(results.deep_view()[at] == results[at]@);
        }
    }
    results
}

/// How a date is written in a search for mail: day, short month name and
/// year, as in `02-Oct-2016`.
pub const DATE_PATTERN: &'static str = "%d-%b-%Y";

/// What opens the criteria of a search for mail since a date.
pub const SINCE_OPEN: &'static str = "SINCE \"";

/// What closes the criteria of a search for mail since a date.
pub const SINCE_CLOSE: &'static str = "\"";

/// The criteria of a search for the mail received on `date` or later.
pub open spec fn since_text(date: Seq<char>) -> Seq<char> {
    SINCE_OPEN@ + date + SINCE_CLOSE@
}

/// The date whose number is `day`, written by [`DATE_PATTERN`]. Days are
/// numbered through the proleptic Gregorian calendar, one after the other,
/// with 1 for the first of January of the year 1. There is no text where the
/// calendar holds no date of that number.
pub uninterp spec fn date_written(day: int) -> Option<Seq<char>>;

/// The number of today's date by the local clock: `chrono::Local::now`,
/// its `date_naive`, and `Datelike::num_days_from_ce` of that. Which day it
/// is depends on the clock and the time zone, so the number is not named;
/// being the number of a date, it is one that the calendar holds.
#[verifier::external_body]
fn today_number() -> (day: i32)
    ensures
        date_written(day as int) is Some,
{
    chrono::Datelike::num_days_from_ce(&chrono::Local::now().date_naive())
}

/// The date of the given number, written by [`DATE_PATTERN`]:
/// `chrono::NaiveDate::from_num_days_from_ce_opt`, which yields no date for
/// a number outside the calendar, and `NaiveDate::format`. The text depends
/// on the number alone and is named after it; it is not spelled out.
#[verifier::external_body]
fn write_date(day: i32, pattern: &str) -> (text: Option<String>)
    requires
        pattern@ == DATE_PATTERN@,
    ensures
        text.deep_view() == date_written(day as int),
{
    chrono::NaiveDate::from_num_days_from_ce_opt(day).map(|date| date.format(pattern).to_string())
}

/// The criteria of a search for the mail of the last `days_ago` days, when
/// today is the day of number `today`: the cut-off is the date of number
/// `today - days_ago`. There are none where that number does not fit a day
/// number of 32 bits or the calendar holds no date of it.
pub open spec fn criteria_on(today: int, days_ago: int) -> Option<Seq<char>> {
    let cutoff = today - days_ago;
    if i32::MIN <= cutoff <= i32::MAX {
        match date_written(cutoff) {
            Some(date) => Some(since_text(date)),
            None => None,
        }
    } else {
        None
    }
}

/// The criteria of a search for the mail received on `date` or later.
pub fn search_criteria(date: &str) -> (criteria: String)
    ensures
        criteria@ == since_text(date@),
{
    let mut criteria = String::new();
    criteria.append(SINCE_OPEN);
    criteria.append(date);
    criteria.append(SINCE_CLOSE);
    assert(criteria@ =~= since_text(date@));
    criteria
}

/// The criteria of a search for the mail of the last `days_ago` days, when
/// today is the day of number `today`.
pub fn cutoff_criteria(today: i32, days_ago: u64) -> (criteria: Option<String>)
    ensures
        criteria.deep_view() == criteria_on(today as int, days_ago as int),
{
    let span: u64 = (today as i64 - i32::MIN as i64) as u64;
    if days_ago > span {
        return None;
    }
    let cutoff: i32 = (today as i64 - days_ago as i64) as i32;
    match write_date(cutoff, DATE_PATTERN) {
        Some(date) => Some(search_criteria(date.as_str())),
        None => None,
    }
}

/// The criteria of a search for the mail of the last `days_ago` days: the
/// cut-off is today's local date less `days_ago` days. Which day today is,
/// the clock decides; whatever it says, the criteria are those of
/// [`criteria_on`] for that day. For no day at all the cut-off is today, and
/// there are criteria; there are none where the cut-off lies outside the
/// calendar, as it does for more days than a day number can count.
pub fn since_criteria(days_ago: u64) -> (criteria: Option<String>)
    ensures
        exists|today: int|
            i32::MIN <= today <= i32::MAX && date_written(today) is Some && criteria.deep_view()
                == #[trigger] criteria_on(today, days_ago as int),
        days_ago == 0 ==> criteria is Some,
        days_ago > u32::MAX ==> criteria is None,
{
    let today = today_number();
    let criteria = cutoff_criteria(today, days_ago);
    assert(criteria.deep_view() == criteria_on(today as int, days_ago as int));
    criteria
}

} // verus!
