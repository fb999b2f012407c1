//! Event records: what arrives, what is valid, and what identifies a row.

use vstd::prelude::*;

verus! {

/// The eight fields of an event record.
#[derive(Clone, Copy, Debug, PartialEq, Eq, Structural)]
pub enum EventField {
    Sender,
    Event,
    TimeBegin,
    TimeEnd,
    Position,
    Abstract,
    SpeakerName,
    SpeakerTitle,
}

/// What to do with an incoming record that lacks a field.
#[derive(Clone, Copy, Debug, PartialEq, Eq, Structural)]
pub enum MissingFieldPolicy {
    /// A missing field counts as the empty string.
    UseEmpty,
    /// A record with a missing field is refused.
    Reject,
}

/// An event as it arrives: each field is a string, or missing.
#[derive(Clone, Debug, PartialEq, Eq)]
pub struct RawEvent {
    pub sender: Option<String>,
    pub event: Option<String>,
    pub time_begin: Option<String>,
    pub time_end: Option<String>,
    pub position: Option<String>,
    pub abstract_text: Option<String>,
    pub speaker_name: Option<String>,
    pub speaker_title: Option<String>,
}

/// The mathematical value of a [`RawEvent`].
pub struct RawEventView {
    pub sender: Option<Seq<char>>,
    pub event: Option<Seq<char>>,
    pub time_begin: Option<Seq<char>>,
    pub time_end: Option<Seq<char>>,
    pub position: Option<Seq<char>>,
    pub abstract_text: Option<Seq<char>>,
    pub speaker_name: Option<Seq<char>>,
    pub speaker_title: Option<Seq<char>>,
}

/// An event with all eight fields present.
#[derive(Clone, Debug, PartialEq, Eq)]
pub struct ExtractedEvent {
    pub sender: String,
    pub event: String,
    pub time_begin: String,
    pub time_end: String,
    pub position: String,
    pub abstract_text: String,
    pub speaker_name: String,
    pub speaker_title: String,
}

/// The mathematical value of an [`ExtractedEvent`].
pub struct EventView {
    pub sender: Seq<char>,
    pub event: Seq<char>,
    pub time_begin: Seq<char>,
    pub time_end: Seq<char>,
    pub position: Seq<char>,
    pub abstract_text: Seq<char>,
    pub speaker_name: Seq<char>,
    pub speaker_title: Seq<char>,
}

/// The identity key of an event: sender, position, start and end time.
pub struct EventKey {
    pub sender: Seq<char>,
    pub position: Seq<char>,
    pub time_begin: Seq<char>,
    pub time_end: Seq<char>,
}

impl EventView {
    /// The key under which this event is stored.
    pub open spec fn key(self) -> EventKey {
        EventKey {
            sender: self.sender,
            position: self.position,
            time_begin: self.time_begin,
            time_end: self.time_end,
        }
    }
}

impl DeepView for RawEvent {
    type V = RawEventView;

    open spec fn deep_view(&self) -> RawEventView {
        RawEventView {
            sender: self.sender.deep_view(),
            event: self.event.deep_view(),
            time_begin: self.time_begin.deep_view(),
            time_end: self.time_end.deep_view(),
            position: self.position.deep_view(),
            abstract_text: self.abstract_text.deep_view(),
            speaker_name: self.speaker_name.deep_view(),
            speaker_title: self.speaker_title.deep_view(),
        }
    }
}

impl View for RawEvent {
    type V = RawEventView;

    open spec fn view(&self) -> RawEventView {
        self.deep_view()
    }
}

impl DeepView for ExtractedEvent {
    type V = EventView;

    open spec fn deep_view(&self) -> EventView {
        EventView {
            sender: self.sender@,
            event: self.event@,
            time_begin: self.time_begin@,
            time_end: self.time_end@,
            position: self.position@,
            abstract_text: self.abstract_text@,
            speaker_name: self.speaker_name@,
            speaker_title: self.speaker_title@,
        }
    }
}

impl View for ExtractedEvent {
    type V = EventView;

    open spec fn view(&self) -> EventView {
        self.deep_view()
    }
}

/// The text of an optional field, with the empty string for a missing one.
pub open spec fn text_or_empty(field: Option<Seq<char>>) -> Seq<char> {
    match field {
        Some(text) => text,
        None => Seq::empty(),
    }
}

impl RawEventView {
    /// The field `field` of this record.
    pub open spec fn get(self, field: EventField) -> Option<Seq<char>> {
        match field {
            EventField::Sender => self.sender,
            EventField::Event => self.event,
            EventField::TimeBegin => self.time_begin,
            EventField::TimeEnd => self.time_end,
            EventField::Position => self.position,
            EventField::Abstract => self.abstract_text,
            EventField::SpeakerName => self.speaker_name,
            EventField::SpeakerTitle => self.speaker_title,
        }
    }

    /// No field is missing.
    pub open spec fn is_complete(self) -> bool {
        forall|field: EventField| (#[trigger] self.get(field)) is Some
    }

    /// The event that this record stands for when missing fields count as
    /// empty strings.
    pub open spec fn with_empty_defaults(self) -> EventView {
        EventView {
            sender: text_or_empty(self.sender),
            event: text_or_empty(self.event),
            time_begin: text_or_empty(self.time_begin),
            time_end: text_or_empty(self.time_end),
            position: text_or_empty(self.position),
            abstract_text: text_or_empty(self.abstract_text),
            speaker_name: text_or_empty(self.speaker_name),
            speaker_title: text_or_empty(self.speaker_title),
        }
    }
}

/// `field` alone if `value` is missing, nothing otherwise.
pub open spec fn if_missing(value: Option<Seq<char>>, field: EventField) -> Seq<EventField> {
    if value is None {
        seq![field]
    } else {
        Seq::empty()
    }
}

/// The fields that `raw` lacks, each once, in the order in which the record
/// lists its fields.
pub open spec fn missing_fields(raw: RawEventView) -> Seq<EventField> {
    if_missing(raw.sender, EventField::Sender) + if_missing(raw.event, EventField::Event)
        + if_missing(raw.time_begin, EventField::TimeBegin) + if_missing(
        raw.time_end,
        EventField::TimeEnd,
    ) + if_missing(raw.position, EventField::Position) + if_missing(
        raw.abstract_text,
        EventField::Abstract,
    ) + if_missing(raw.speaker_name, EventField::SpeakerName) + if_missing(
        raw.speaker_title,
        EventField::SpeakerTitle,
    )
}

/// Why a list of incoming records was refused: the place of the first
/// record that lacks a field, and the fields that it lacks.
#[derive(Clone, Debug, PartialEq, Eq)]
pub struct MalformedEventError {
    pub index: usize,
    pub missing: Vec<EventField>,
}

/// What validation yields for `raw` under `policy`: the event, or the fields
/// that are missing.
pub open spec fn validated(raw: RawEventView, policy: MissingFieldPolicy) -> Result<
    EventView,
    Seq<EventField>,
> {
    if policy == MissingFieldPolicy::Reject && !raw.is_complete() {
        Err(missing_fields(raw))
    } else {
        Ok(raw.with_empty_defaults())
    }
}

/// What one more field adds to a list of missing fields.
proof fn lemma_if_missing_step(
    before: Seq<EventField>,
    value: Option<Seq<char>>,
    field: EventField,
    wanted: EventField,
)
    ensures
        (before + if_missing(value, field)).len() == before.len() + if value is None {
            1int
        } else {
            0int
        },
        (before + if_missing(value, field)).contains(wanted) <==> before.contains(wanted) || (
        value is None && field == wanted),
{
    let after = before + if_missing(value, field);
    if before.contains(wanted) {
        let at = choose|at: int| 0 <= at < before.len() && before[at] == wanted;
        assert(after[at] == wanted);
    }
    if value is None && field == wanted {
        assert(after[before.len() as int] == wanted);
    }
    if after.contains(wanted) {
        let at = choose|at: int| 0 <= at < after.len() && after[at] == wanted;
        if at < before.len() {
            assert(before[at] == wanted);
        }
    }
}

/// How many fields are missing, and whether `wanted` is among them.
proof fn lemma_missing_one(raw: RawEventView, wanted: EventField)
    ensures
        missing_fields(raw).contains(wanted) <==> raw.get(wanted) is None,
        missing_fields(raw).len() == 0 <==> raw.sender is Some && raw.event is Some
            && raw.time_begin is Some && raw.time_end is Some && raw.position is Some
            && raw.abstract_text is Some && raw.speaker_name is Some && raw.speaker_title is Some,
{
    let s0 = Seq::<EventField>::empty();
    let s1 = if_missing(raw.sender, EventField::Sender);
    let s2 = s1 + if_missing(raw.event, EventField::Event);
    let s3 = s2 + if_missing(raw.time_begin, EventField::TimeBegin);
    let s4 = s3 + if_missing(raw.time_end, EventField::TimeEnd);
    let s5 = s4 + if_missing(raw.position, EventField::Position);
    let s6 = s5 + if_missing(raw.abstract_text, EventField::Abstract);
    let s7 = s6 + if_missing(raw.speaker_name, EventField::SpeakerName);
    let s8 = s7 + if_missing(raw.speaker_title, EventField::SpeakerTitle);
    assert(s0 + s1 =~= s1);
    lemma_if_missing_step(s0, raw.sender, EventField::Sender, wanted);
    lemma_if_missing_step(s1, raw.event, EventField::Event, wanted);
    lemma_if_missing_step(s2, raw.time_begin, EventField::TimeBegin, wanted);
    lemma_if_missing_step(s3, raw.time_end, EventField::TimeEnd, wanted);
    lemma_if_missing_step(s4, raw.position, EventField::Position, wanted);
    lemma_if_missing_step(s5, raw.abstract_text, EventField::Abstract, wanted);
    lemma_if_missing_step(s6, raw.speaker_name, EventField::SpeakerName, wanted);
    lemma_if_missing_step(s7, raw.speaker_title, EventField::SpeakerTitle, wanted);
    assert(s8 == missing_fields(raw));
}

/// A record is complete exactly when it lacks no field, and the list of its
/// missing fields holds exactly the fields that it lacks.
pub proof fn lemma_missing_fields(raw: RawEventView)
    ensures
        raw.is_complete() <==> missing_fields(raw).len() == 0,
        forall|field: EventField|
            missing_fields(raw).contains(field) <==> (#[trigger] raw.get(field)) is None,
{
    lemma_missing_one(raw, EventField::Sender);
    if raw.is_complete() {
        assert(raw.get(EventField::Sender) is Some);
        assert(raw.get(EventField::Event) is Some);
        assert(raw.get(EventField::TimeBegin) is Some);
        assert(raw.get(EventField::TimeEnd) is Some);
        assert(raw.get(EventField::Position) is Some);
        assert(raw.get(EventField::Abstract) is Some);
        assert(raw.get(EventField::SpeakerName) is Some);
        assert(raw.get(EventField::SpeakerTitle) is Some);
    }
    assert forall|field: EventField|
        missing_fields(raw).contains(field) <==> (#[trigger] raw.get(field)) is None by {
        lemma_missing_one(raw, field);
    }
}

/// Appends `field` to `list` if `value` is missing.
fn note_if_missing(list: &mut Vec<EventField>, value: &Option<String>, field: EventField)
    ensures
        final(list)@ == old(list)@ + if_missing(value.deep_view(), field),
{
    if value.is_none() {
        list.push(field);
    }
}

impl RawEvent {
    /// The fields that this record lacks.
    pub fn missing(&self) -> (missing: Vec<EventField>)
        ensures
            missing@ == missing_fields(self@),
    {
        let mut missing: Vec<EventField> = Vec::new();
        note_if_missing(&mut missing, &self.sender, EventField::Sender);
        note_if_missing(&mut missing, &self.event, EventField::Event);
        note_if_missing(&mut missing, &self.time_begin, EventField::TimeBegin);
        note_if_missing(&mut missing, &self.time_end, EventField::TimeEnd);
        note_if_missing(&mut missing, &self.position, EventField::Position);
        note_if_missing(&mut missing, &self.abstract_text, EventField::Abstract);
        note_if_missing(&mut missing, &self.speaker_name, EventField::SpeakerName);
        note_if_missing(&mut missing, &self.speaker_title, EventField::SpeakerTitle);
        assert(missing@ =~= missing_fields(self@));
        missing
    }

    /// Turns this record into an event. Under [`MissingFieldPolicy::UseEmpty`]
    /// this always succeeds and a missing field becomes the empty string;
    /// under [`MissingFieldPolicy::Reject`] a record that lacks a field is
    /// refused, and the error lists the fields it lacks.
    pub fn validate(&self, policy: MissingFieldPolicy) -> (result: Result<
        ExtractedEvent,
        Vec<EventField>,
    >)
        ensures
            match validated(self@, policy) {
                Ok(event) => result matches Ok(valid) && valid@ == event,
                Err(missing) => result matches Err(lacking) && lacking@ == missing,
            },
    {
        if policy == MissingFieldPolicy::Reject {
            let missing = self.missing();
            proof {
                lemma_missing_fields(self@);
            }
            if missing.len() > 0 {
                return Err(missing);
            }
        }
        Ok(
            ExtractedEvent {
                sender: copy_or_empty(&self.sender),
                event: copy_or_empty(&self.event),
                time_begin: copy_or_empty(&self.time_begin),
                time_end: copy_or_empty(&self.time_end),
                position: copy_or_empty(&self.position),
                abstract_text: copy_or_empty(&self.abstract_text),
                speaker_name: copy_or_empty(&self.speaker_name),
                speaker_title: copy_or_empty(&self.speaker_title),
            },
        )
    }
}

/// A copy of an optional text, or the empty string where it is missing.
pub fn copy_or_empty(field: &Option<String>) -> (text: String)
    ensures
        text@ == text_or_empty(field.deep_view()),
{
    match field {
        Some(text) => text.clone(),
        None => String::new(),
    }
}

impl ExtractedEvent {
    /// A copy of this event.
    pub fn duplicate(&self) -> (copy: ExtractedEvent)
        ensures
            copy@ == self@,
    {
        ExtractedEvent {
            sender: self.sender.clone(),
            event: self.event.clone(),
            time_begin: self.time_begin.clone(),
            time_end: self.time_end.clone(),
            position: self.position.clone(),
            abstract_text: self.abstract_text.clone(),
            speaker_name: self.speaker_name.clone(),
            speaker_title: self.speaker_title.clone(),
        }
    }

    /// Whether `self` and `other` have the same identity key.
    pub fn same_key(&self, other: &ExtractedEvent) -> (same: bool)
        ensures
            same == (self@.key() == other@.key()),
    {
        self.sender == other.sender && self.position == other.position && self.time_begin
            == other.time_begin && self.time_end == other.time_end
    }

    /// This event as a record in which every field is present.
    pub fn to_raw(&self) -> (raw: RawEvent)
        ensures
            raw@.is_complete(),
            raw@.with_empty_defaults() == self@,
    {
        RawEvent {
            sender: Some(self.sender.clone()),
            event: Some(self.event.clone()),
            time_begin: Some(self.time_begin.clone()),
            time_end: Some(self.time_end.clone()),
            position: Some(self.position.clone()),
            abstract_text: Some(self.abstract_text.clone()),
            speaker_name: Some(self.speaker_name.clone()),
            speaker_title: Some(self.speaker_title.clone()),
        }
    }
}

/// What validation yields for a list of records under `policy`: the events,
/// or the place of the first record that is refused and the fields that it
/// lacks.
pub open spec fn validated_all(raws: Seq<RawEventView>, policy: MissingFieldPolicy) -> Result<
    Seq<EventView>,
    (int, Seq<EventField>),
>
    decreases raws.len(),
{
    if raws.len() == 0 {
        Ok(Seq::empty())
    } else {
        match validated_all(raws.drop_last(), policy) {
            Err(refusal) => Err(refusal),
            Ok(events) => match validated(raws.last(), policy) {
                Ok(event) => Ok(events.push(event)),
                Err(missing) => Err((raws.len() - 1, missing)),
            },
        }
    }
}

/// Turns a list of records into events, all or none: the first record that
/// is refused under `policy` stops the work and is reported.
pub fn validate_all(raws: &Vec<RawEvent>, policy: MissingFieldPolicy) -> (result: Result<
    Vec<ExtractedEvent>,
    MalformedEventError,
>)
    ensures
        match validated_all(raws.deep_view(), policy) {
            Ok(events) => result matches Ok(valid) && valid.deep_view() == events,
            Err((index, missing)) => result matches Err(error) && error.index == index
                && error.missing@ == missing,
        },
{
    let ghost all = raws.deep_view();
    let mut events: Vec<ExtractedEvent> = Vec::new();
    let mut at: usize = 0;
    proof {
        assert(all.take(0) =~= Seq::empty());
        assert(events.deep_view() =~= Seq::empty());
    }
    while at < raws.len()
        invariant
            all == raws.deep_view(),
            at <= raws.len(),
            validated_all(all.take(at as int), policy) == Ok::<
                Seq<EventView>,
                (int, Seq<EventField>),
            >(events.deep_view()),
        decreases raws.len() - at,
    {
        let ghost before = events.deep_view();
        proof {
            assert(all.take(at + 1).drop_last() =~= all.take(at as int));
            assert(all.take(at + 1).last() == raws[at as int]@);
        }
        match raws[at].validate(policy) {
            Ok(event) => {
                events.push(event);
                assert(events.deep_view() =~= before.push(event@));
            },
            Err(missing) => {
                proof {
                    lemma_refusal_stays(all, policy, at + 1);
                }
                return Err(MalformedEventError { index: at, missing });
            },
        }
        at += 1;
    }
    proof {
        assert(all.take(at as int) =~= all);
    }
    Ok(events)
}

/// A refusal within the first `upto` records is the refusal of the whole
/// list.
pub proof fn lemma_refusal_stays(raws: Seq<RawEventView>, policy: MissingFieldPolicy, upto: int)
    requires
        0 <= upto <= raws.len(),
        validated_all(raws.take(upto), policy) is Err,
    ensures
        validated_all(raws, policy) == validated_all(raws.take(upto), policy),
    decreases raws.len() - upto,
{
    if upto == raws.len() {
        assert(raws.take(upto) =~= raws);
    } else {
        assert(raws.take(upto + 1).drop_last() =~= raws.take(upto));
        lemma_refusal_stays(raws, policy, upto + 1);
    }
}

/// A list of records that validation accepts yields one event for each
/// record.
pub proof fn lemma_validated_len(raws: Seq<RawEventView>, policy: MissingFieldPolicy)
    ensures
        validated_all(raws, policy) matches Ok(events) ==> events.len() == raws.len(),
    decreases raws.len(),
{
    if raws.len() > 0 {
        lemma_validated_len(raws.drop_last(), policy);
    }
}

} // verus!
