//! Rendering events into a template: one fragment for each event, spliced
//! into the region that two markers delimit.
//!
//! The start marker is kept and the end marker is consumed: the rendered
//! document is the template up to and including the start marker, a label,
//! the fragments in the order of the events, and the template from behind
//! the end marker on.

use vstd::prelude::*;
use vstd::string::StringExecFns;
use crate::event::{text_or_empty, RawEvent, RawEventView};
use crate::text::{
    find, first_occurrence, lemma_occurrence_bounds, push_chars, replace_all, replaced, to_chars,
    to_string,
};

verus! {

/// The marker behind which the fragments are put.
pub const START_MARKER: &'static str = "<!-- First Seminar -->";

/// The marker that ends the region which the fragments replace.
pub const END_MARKER: &'static str = "<!-- End of the first seminar -->";

/// The label that is written behind the start marker.
pub const EVENTS_LABEL: &'static str = "<!-- Events -->";

/// The title of an event that has none.
pub const UNKNOWN_TITLE: &'static str = "未知事件";

/// The start of the fragment of one event, up to its title.
pub const SECTION_OPEN: &'static str = "        <!-- Event -->\n        <section class=\"content-section box-sizing-border\">\n          <p class=\"no-margin box-sizing-border\">\n            <span class=\"section-title box-sizing-border\"><strong class=\"box-sizing-border\"> ";

/// What stands between the title and the name of the speaker.
pub const SECTION_SPEAKER: &'static str = " </strong></span>\n          </p>\n          <p class=\"no-margin box-sizing-border\">\n            报告人：";

/// What stands between the name of the speaker and the title of the speaker.
pub const SPEAKER_GAP: &'static str = " ";

/// What stands between the speaker and the start time.
pub const SECTION_TIME: &'static str = "\n          </p>\n          <p class=\"no-margin box-sizing-border\">\n            时间:<span class=\"highlight-text box-sizing-border\"> ";

/// What stands between the start time and the place.
pub const SECTION_PLACE: &'static str = " </span>\n          </p>\n          <p class=\"no-margin box-sizing-border\">\n            地点: ";

/// The end of the fragment of one event: the rest of the section, and the divider.
pub const SECTION_CLOSE: &'static str = " </span>\n          </p>\n        </section>\n        <!-- Divider -->\n        <section class=\"divider box-sizing-border\">\n          <section class=\"dotted-line box-sizing-border\">\n            <svg viewbox=\"0 0 1 1\" style=\"float:left;line-height:0;width:0;vertical-align:top;box-sizing:border-box;\" xml:space=\"default\"></svg>\n          </section>\n        </section>\n        ";

/// The sample block of older templates that hold no start marker: the block, as
/// it was written by hand, up to and including the end marker.
pub const SAMPLE_BLOCK: &'static str = "        <section class=\"content-section box-sizing-border\">\n          <p class=\"no-margin box-sizing-border\">\n            <span class=\"section-title box-sizing-border\"><strong class=\"box-sizing-border\"> {event} </strong></span>\n          </p>\n          <p class=\"no-margin box-sizing-border\">\n            报告人：{speaker_name} {speaker_title}\n          </p>\n          <p class=\"no-margin box-sizing-border\">\n            时间:<span class=\"highlight-text box-sizing-border\"> {time_begin} </span>\n          </p>\n          <p class=\"no-margin box-sizing-border\">\n            地点: {position} </span>\n        </p>\n      </section>\n      <!-- Divider -->\n      <section class=\"divider box-sizing-border\">\n        <section class=\"dotted-line box-sizing-border\">\n          <svg viewbox=\"0 0 1 1\" style=\"float:left;line-height:0;width:0;vertical-align:top;box-sizing:border-box;\" xml:space=\"default\"></svg>\n        </section>\n      </section>\n      <!-- End of the first seminar -->";

/// What to do with a template in which the two markers are not both found.
#[derive(Clone, Copy, Debug, PartialEq, Eq, Structural)]
pub enum MissingMarkerPolicy {
    /// Relabel each start marker and replace each sample block by the
    /// fragments, as older templates need it.
    ReplaceSample,
    /// Refuse the template.
    Fail,
}

/// Why a template could not be rendered.
#[derive(Clone, Copy, Debug, PartialEq, Eq, Structural)]
pub enum TemplateError {
    /// The start marker, the end marker or both are not in the template.
    MarkersNotFound,
}

/// The title as it is rendered: the given one, or the stand-in for a missing
/// one.
pub open spec fn title_or_unknown(title: Option<Seq<char>>) -> Seq<char> {
    match title {
        Some(text) => text,
        None => UNKNOWN_TITLE@,
    }
}

/// The fragment of one event: its title, the name and title of its speaker,
/// its start time and its place, each in its fixed surroundings, and the
/// divider.
pub open spec fn fragment(event: RawEventView) -> Seq<char> {
    SECTION_OPEN@ + title_or_unknown(event.event) + SECTION_SPEAKER@ + text_or_empty(
        event.speaker_name,
    ) + SPEAKER_GAP@ + text_or_empty(event.speaker_title) + SECTION_TIME@ + text_or_empty(
        event.time_begin,
    ) + SECTION_PLACE@ + text_or_empty(event.position) + SECTION_CLOSE@
}

/// The fragments of `events`, one after the other in the order of the
/// events.
pub open spec fn fragments(events: Seq<RawEventView>) -> Seq<char>
    decreases events.len(),
{
    if events.len() == 0 {
        Seq::empty()
    } else {
        fragments(events.drop_last()) + fragment(events.last())
    }
}

/// The template with `inner` spliced in. Each marker is taken where it first
/// stands. The result is the template up to and including the start marker,
/// the label, `inner`, and the template from behind the end marker on; there
/// is none if a marker is missing.
pub open spec fn spliced(template: Seq<char>, inner: Seq<char>) -> Option<Seq<char>> {
    match (first_occurrence(template, START_MARKER@), first_occurrence(template, END_MARKER@)) {
        (Some(start), Some(end)) => Some(
            template.take(start + START_MARKER@.len()) + EVENTS_LABEL@ + inner + template.skip(
                end + END_MARKER@.len(),
            ),
        ),
        _ => None,
    }
}

/// The template with each start marker replaced by the label and then each
/// sample block replaced by `inner`.
pub open spec fn sample_replaced(template: Seq<char>, inner: Seq<char>) -> Seq<char> {
    replaced(replaced(template, START_MARKER@, EVENTS_LABEL@), SAMPLE_BLOCK@, inner)
}

/// The document that `events` and `template` give under `policy`.
pub open spec fn rendered(
    events: Seq<RawEventView>,
    template: Seq<char>,
    policy: MissingMarkerPolicy,
) -> Result<Seq<char>, TemplateError> {
    match spliced(template, fragments(events)) {
        Some(document) => Ok(document),
        None => match policy {
            MissingMarkerPolicy::ReplaceSample => Ok(sample_replaced(template, fragments(events))),
            MissingMarkerPolicy::Fail => Err(TemplateError::MarkersNotFound),
        },
    }
}

/// Appends an optional text to `out`; nothing where it is missing.
fn push_or_empty(out: &mut String, field: &Option<String>)
    ensures
        final(out)@ == old(out)@ + text_or_empty(field.deep_view()),
{
    match field {
        Some(text) => {
            out.append(text.as_str());
        },
        None => {
            assert(out@ + Seq::<char>::empty() =~= out@);
        },
    }
}

/// Appends the title to `out`, or the stand-in where it is missing.
fn push_title(out: &mut String, title: &Option<String>)
    ensures
        final(out)@ == old(out)@ + title_or_unknown(title.deep_view()),
{
    match title {
        Some(text) => {
            out.append(text.as_str());
        },
        None => {
            out.append(UNKNOWN_TITLE);
        },
    }
}

/// Appends the fragment of `event` to `out`.
pub fn push_fragment(out: &mut String, event: &RawEvent)
    ensures
        final(out)@ == old(out)@ + fragment(event@),
{
    out.append(SECTION_OPEN);
    push_title(out, &event.event);
    out.append(SECTION_SPEAKER);
    push_or_empty(out, &event.speaker_name);
    out.append(SPEAKER_GAP);
    push_or_empty(out, &event.speaker_title);
    out.append(SECTION_TIME);
    push_or_empty(out, &event.time_begin);
    out.append(SECTION_PLACE);
    push_or_empty(out, &event.position);
    out.append(SECTION_CLOSE);
    assert(out@ =~= old(out)@ + fragment(event@));
}

/// The fragments of `events`, one after the other.
pub fn event_sections(events: &Vec<RawEvent>) -> (sections: String)
    ensures
        sections@ == fragments(events.deep_view()),
{
    let ghost all = events.deep_view();
    let mut sections = String::new();
    let mut i: usize = 0;
    proof {
        assert(all.take(0) =~= Seq::empty());
    }
    while i < events.len()
        invariant
            all == events.deep_view(),
            i <= events.len(),
            sections@ == fragments(all.take(i as int)),
        decreases events.len() - i,
    {
        proof {
            assert(all.take(i + 1).drop_last() =~= all.take(i as int));
            assert(all.take(i + 1).last() == events[i as int]@);
        }
        push_fragment(&mut sections, &events[i]);
        i += 1;
    }
    proof {
        assert(all.take(i as int) =~= all);
    }
    sections
}

/// The template with `inner` put in place of the region between the
/// markers; `None` if a marker is missing.
pub fn splice_template(template: &str, inner: &str) -> (document: Option<String>)
    ensures
        document.deep_view() == spliced(template@, inner@),
{
    let chars = to_chars(template);
    let start_marker = to_chars(START_MARKER);
    let end_marker = to_chars(END_MARKER);
    let start = match find(&chars, &start_marker) {
        Some(at) => at,
        None => {
            return None;
        },
    };
    let end = match find(&chars, &end_marker) {
        Some(at) => at,
        None => {
            return None;
        },
    };
    proof {
        lemma_occurrence_bounds(chars@, start_marker@, start as int);
        lemma_occurrence_bounds(chars@, end_marker@, end as int);
        assert(start + start_marker.len() <= chars.len());
        assert(end + end_marker.len() <= chars.len());
    }
    let mut document = String::new();
    push_chars(&mut document, &chars, 0, start + start_marker.len());
    document.append(EVENTS_LABEL);
    document.append(inner);
    push_chars(&mut document, &chars, end + end_marker.len(), chars.len());
    proof {
        assert(chars@.subrange(0, start + start_marker.len()) =~= template@.take(
            start + START_MARKER@.len(),
        ));
        assert(chars@.subrange(end + end_marker.len(), chars.len() as int) =~= template@.skip(
            end + END_MARKER@.len(),
        ));
    }
    Some(document)
}

/// The document in which the fragments of `events` stand in the marked
/// region of `template`. Where a marker is missing, the policy decides: the
/// template is refused, or it is treated as an older template.
pub fn generate_events_html(
    events: &Vec<RawEvent>,
    template: &str,
    policy: MissingMarkerPolicy,
) -> (document: Result<String, TemplateError>)
    ensures
        match rendered(events.deep_view(), template@, policy) {
            Ok(text) => document matches Ok(html) && html@ == text,
            Err(error) => document == Err::<String, TemplateError>(error),
        },
{
    let sections = event_sections(events);
    match splice_template(template, sections.as_str()) {
        Some(document) => Ok(document),
        None => match policy {
            MissingMarkerPolicy::ReplaceSample => {
                let chars = to_chars(template);
                let relabelled = replace_all(
                    &chars,
                    &to_chars(START_MARKER),
                    &to_chars(EVENTS_LABEL),
                );
                let filled = replace_all(
                    &relabelled,
                    &to_chars(SAMPLE_BLOCK),
                    &to_chars(sections.as_str()),
                );
                Ok(to_string(&filled))
            },
            MissingMarkerPolicy::Fail => Err(TemplateError::MarkersNotFound),
        },
    }
}

/// Rendering touches nothing outside the marked region, and with no event
/// the region is empty: the document begins with the template up to and
/// including the start marker, ends with the template from behind the end
/// marker on, and holds between the two the label and the fragments, which
/// for no event are no text at all.
pub proof fn lemma_render_region(
    events: Seq<RawEventView>,
    template: Seq<char>,
    policy: MissingMarkerPolicy,
    start: int,
    end: int,
)
    requires
        first_occurrence(template, START_MARKER@) == Some(start),
        first_occurrence(template, END_MARKER@) == Some(end),
    ensures
        rendered(events, template, policy) == Ok::<Seq<char>, TemplateError>(
            template.take(start + START_MARKER@.len()) + EVENTS_LABEL@ + fragments(events)
                + template.skip(end + END_MARKER@.len()),
        ),
        events.len() == 0 ==> rendered(events, template, policy) == Ok::<
            Seq<char>,
            TemplateError,
        >(
            template.take(start + START_MARKER@.len()) + EVENTS_LABEL@ + template.skip(
                end + END_MARKER@.len(),
            ),
        ),
{
    if events.len() == 0 {
        let head = template.take(start + START_MARKER@.len()) + EVENTS_LABEL@;
        assert(head + fragments(events) =~= head);
    }
}

} // verus!
