//! The body parts of a message, and the choice of the body text among them.
//!
//! The parts form a tree. The text of the body is that of the first textual
//! part met when the tree is walked in document order, a part before the
//! parts nested in it. Containers are all alike to the walk: it prefers no
//! alternative over another. The walk is done with a stack of its own and
//! enters a bounded number of levels only, so that no nesting of parts,
//! however deep, exhausts it.

use vstd::prelude::*;
use crate::text::starts_with;

verus! {

/// One part of the body of a message: its content type, its decoded text
/// where it could be decoded, and the parts nested in it, in document order.
#[derive(Debug)]
pub struct MailPart {
    pub content_type: String,
    pub body: Option<String>,
    pub subparts: Vec<MailPart>,
}

/// The mathematical value of a [`MailPart`].
pub struct PartView {
    pub content_type: Seq<char>,
    pub body: Option<Seq<char>>,
    pub subparts: Seq<PartView>,
}

/// The value of `part`: its content type and text, and the values of the
/// parts nested in it.
pub open spec fn part_view(part: MailPart) -> PartView
    decreases part,
{
    PartView {
        content_type: part.content_type@,
        body: part.body.deep_view(),
        subparts: Seq::new(
            part.subparts.len() as nat,
            |i: int|
                if 0 <= i < part.subparts.len() {
                    part_view(part.subparts[i])
                } else {
                    arbitrary()
                },
        ),
    }
}

impl DeepView for MailPart {
    type V = PartView;

    open spec fn deep_view(&self) -> PartView {
        part_view(*self)
    }
}

impl View for MailPart {
    type V = PartView;

    open spec fn view(&self) -> PartView {
        self.deep_view()
    }
}

/// The value of a part is made of the values of what the part holds.
pub proof fn lemma_part_view(part: &MailPart)
    ensures
        part@.content_type == part.content_type@,
        part@.body == part.body.deep_view(),
        part@.subparts.len() == part.subparts.len(),
        forall|i: int|
            0 <= i < part.subparts.len() ==> #[trigger] part@.subparts[i] == part.subparts[i]@,
{
    assert(part@ == part.deep_view());
}

/// How many levels of nesting below the root of a message are looked at.
pub const MAX_PART_DEPTH: usize = 32;

/// A content type is textual if it begins with `text/`.
pub open spec fn is_textual(content_type: Seq<char>) -> bool {
    "text/"@.is_prefix_of(content_type)
}

/// The text that a walk of `part` yields, entering at most `depth` further
/// levels of nesting. A textual part yields its text, or nothing where the
/// text could not be decoded; the parts nested in a textual part are never
/// looked at. Any other part yields what the parts nested in it yield: they
/// are walked in document order, and the first that yields a text ends the
/// walk. Below the last level that may be entered nothing is looked at.
pub open spec fn first_text(part: PartView, depth: nat) -> Option<Seq<char>>
    decreases depth, 0nat,
{
    if is_textual(part.content_type) {
        part.body
    } else if depth == 0 {
        None
    } else {
        first_text_among(part.subparts, (depth - 1) as nat)
    }
}

/// The first text that the walks of `parts` yield, taken in order.
pub open spec fn first_text_among(parts: Seq<PartView>, depth: nat) -> Option<Seq<char>>
    decreases depth, parts.len() + 1,
{
    if parts.len() == 0 {
        None
    } else {
        match first_text(parts[0], depth) {
            Some(text) => Some(text),
            None => first_text_among(parts.drop_first(), depth),
        }
    }
}

/// The text of the body of a message whose parts are rooted at `part`: the
/// first text of a walk of at most [`MAX_PART_DEPTH`] levels, or the empty
/// string if the walk yields none.
pub open spec fn body_text(part: PartView) -> Seq<char> {
    match first_text(part, MAX_PART_DEPTH as nat) {
        Some(text) => text,
        None => Seq::empty(),
    }
}

/// The sum of `sizes`.
spec fn total(sizes: Seq<nat>) -> nat
    decreases sizes.len(),
{
    if sizes.len() == 0 {
        0
    } else {
        sizes[0] + total(sizes.drop_first())
    }
}

/// How many parts `part` is made of, itself included.
spec fn size(part: PartView) -> nat
    decreases part, 1nat,
{
    1 + total(sizes_below(part))
}

/// The size of each part that `part` holds.
spec fn sizes_below(part: PartView) -> Seq<nat>
    decreases part, 0nat,
{
    Seq::new(
        part.subparts.len(),
        |i: int|
            if 0 <= i < part.subparts.len() {
                size(part.subparts[i])
            } else {
                0
            },
    )
}

/// A part that waits to be walked, and how many levels of nesting the walk
/// may still enter below it.
struct Waiting {
    part: PartView,
    depth: nat,
}

/// What the walk yields from the parts that wait, the last of them first.
spec fn first_text_waiting(waiting: Seq<Waiting>) -> Option<Seq<char>>
    decreases waiting.len(),
{
    if waiting.len() == 0 {
        None
    } else {
        match first_text(waiting.last().part, waiting.last().depth) {
            Some(text) => Some(text),
            None => first_text_waiting(waiting.drop_last()),
        }
    }
}

/// How many parts wait, those nested in the waiting parts included.
spec fn size_waiting(waiting: Seq<Waiting>) -> nat
    decreases waiting.len(),
{
    if waiting.len() == 0 {
        0
    } else {
        size_waiting(waiting.drop_last()) + size(waiting.last().part)
    }
}

/// The parts that wait on `stack`.
spec fn waiting_on(stack: Seq<(&MailPart, usize)>) -> Seq<Waiting> {
    Seq::new(stack.len(), |i: int| Waiting { part: stack[i].0@, depth: stack[i].1 as nat })
}

/// Puts the parts nested in `part` on the stack, the first of them on top.
fn push_subparts<'a>(stack: &mut Vec<(&'a MailPart, usize)>, part: &'a MailPart, depth: usize)
    ensures
        first_text_waiting(waiting_on(final(stack)@)) == match first_text_among(
            part@.subparts,
            depth as nat,
        ) {
            Some(text) => Some(text),
            None => first_text_waiting(waiting_on(old(stack)@)),
        },
        size_waiting(waiting_on(final(stack)@)) == size_waiting(waiting_on(old(stack)@)) + size(
            part@,
        ) - 1,
{
    let ghost parts = part@.subparts;
    let ghost sizes = sizes_below(part@);
    let ghost below = waiting_on(stack@);
    let mut at: usize = part.subparts.len();
    proof {
        lemma_part_view(part);
        assert(parts.skip(at as int) =~= Seq::empty());
        assert(sizes.skip(at as int) =~= Seq::empty());
    }
    while at > 0
        invariant
            parts == part@.subparts,
            parts.len() == part.subparts.len(),
            sizes == sizes_below(part@),
            below == waiting_on(old(stack)@),
            at <= part.subparts.len(),
            first_text_waiting(waiting_on(stack@)) == match first_text_among(
                parts.skip(at as int),
                depth as nat,
            ) {
                Some(text) => Some(text),
                None => first_text_waiting(below),
            },
            size_waiting(waiting_on(stack@)) == size_waiting(below) + total(sizes.skip(at as int)),
        decreases at,
    {
        at -= 1;
        let ghost before = waiting_on(stack@);
        stack.push((&part.subparts[at], depth));
        proof {
            lemma_part_view(part);
            let now = waiting_on(stack@);
            let rest = parts.skip(at as int);
            assert(now.drop_last() =~= before);
            assert(now.last() == Waiting { part: parts[at as int], depth: depth as nat });
            assert(rest[0] == parts[at as int]);
            assert(rest.drop_first() =~= parts.skip(at + 1));
            assert(sizes.skip(at as int)[0] == size(parts[at as int]));
            assert(sizes.skip(at as int).drop_first() =~= sizes.skip(at + 1));
        }
    }
    proof {
        assert(parts.skip(0) =~= parts);
        assert(sizes.skip(0) =~= sizes);
    }
}

/// The text of the body of a message: that of the first textual part met
/// when the parts are walked in document order, a part before the parts
/// nested in it; the empty string if no part is textual. The walk keeps the
/// parts that it has yet to visit on a stack of its own and enters at most
/// [`MAX_PART_DEPTH`] levels of nesting.
pub fn extract_body(part: &MailPart) -> (body: String)
    ensures
        body@ == body_text(part@),
{
    let mut stack: Vec<(&MailPart, usize)> = Vec::new();
    stack.push((part, MAX_PART_DEPTH));
    proof {
        let waiting = waiting_on(stack@);
        assert(waiting.last() == Waiting { part: part@, depth: MAX_PART_DEPTH as nat });
        assert(first_text_waiting(waiting.drop_last()) is None);
    }
    loop
        invariant
            first_text(part@, MAX_PART_DEPTH as nat) == first_text_waiting(waiting_on(stack@)),
        decreases size_waiting(waiting_on(stack@)),
    {
        let ghost before = waiting_on(stack@);
        let (current, depth) = match stack.pop() {
            Some(top) => top,
            None => {
                return String::new();
            },
        };
        proof {
            lemma_part_view(current);
            assert(waiting_on(stack@) =~= before.drop_last());
            assert(before.last() == Waiting { part: current@, depth: depth as nat });
        }
        if starts_with(current.content_type.as_str(), "text/") {
            match &current.body {
                Some(text) => {
                    return text.clone();
                },
                None => {},
            }
        } else if depth > 0 {
            push_subparts(&mut stack, current, depth - 1);
        }
    }
}

/// The largest of `levels`, and 0 where there is none.
pub open spec fn largest(levels: Seq<nat>) -> nat
    decreases levels.len(),
{
    if levels.len() == 0 {
        0
    } else {
        let rest = largest(levels.drop_last());
        if levels.last() > rest {
            levels.last()
        } else {
            rest
        }
    }
}

/// How many levels of nesting lie below `part`: none below a part that holds
/// no other, else one more than below the deepest part that it holds.
pub open spec fn height(part: PartView) -> nat
    decreases part, 1nat,
{
    largest(levels_below(part))
}

/// For each part that `part` holds, one more than its height.
pub open spec fn levels_below(part: PartView) -> Seq<nat>
    decreases part, 0nat,
{
    Seq::new(
        part.subparts.len(),
        |i: int|
            if 0 <= i < part.subparts.len() {
                height(part.subparts[i]) + 1
            } else {
                0
            },
    )
}

/// The first of `texts` that is a text.
pub open spec fn first_some(texts: Seq<Option<Seq<char>>>) -> Option<Seq<char>>
    decreases texts.len(),
{
    if texts.len() == 0 {
        None
    } else {
        match texts[0] {
            Some(text) => Some(text),
            None => first_some(texts.drop_first()),
        }
    }
}

/// The text that a walk of `part` yields when it may go as deep as the parts
/// are nested: that of the first textual part in document order, a part
/// before the parts nested in it.
pub open spec fn first_text_anywhere(part: PartView) -> Option<Seq<char>>
    decreases part, 1nat,
{
    if is_textual(part.content_type) {
        part.body
    } else {
        first_some(texts_below(part))
    }
}

/// For each part that `part` holds, what an unlimited walk of it yields.
pub open spec fn texts_below(part: PartView) -> Seq<Option<Seq<char>>>
    decreases part, 0nat,
{
    Seq::new(
        part.subparts.len(),
        |i: int|
            if 0 <= i < part.subparts.len() {
                first_text_anywhere(part.subparts[i])
            } else {
                None
            },
    )
}

/// The largest of some levels is at least each of them.
pub proof fn lemma_largest(levels: Seq<nat>, at: int)
    requires
        0 <= at < levels.len(),
    ensures
        levels[at] <= largest(levels),
    decreases levels.len(),
{
    if at < levels.len() - 1 {
        lemma_largest(levels.drop_last(), at);
    }
}

/// A walk through a list of parts yields the first text among what the walks
/// of the single parts yield.
pub proof fn lemma_first_among(parts: Seq<PartView>, depth: nat, texts: Seq<Option<Seq<char>>>)
    requires
        texts.len() == parts.len(),
        forall|i: int| 0 <= i < parts.len() ==> #[trigger] texts[i] == first_text(parts[i], depth),
    ensures
        first_text_among(parts, depth) == first_some(texts),
    decreases parts.len(),
{
    if parts.len() > 0 {
        assert(texts[0] == first_text(parts[0], depth));
        assert forall|i: int| 0 <= i < parts.len() - 1 implies #[trigger] texts.drop_first()[i]
            == first_text(parts.drop_first()[i], depth) by {
            assert(texts[i + 1] == first_text(parts[i + 1], depth));
        }
        lemma_first_among(parts.drop_first(), depth, texts.drop_first());
    }
}

/// The depth limit does not show on a message that is nested no deeper than
/// the limit: the walk then yields the text of the first textual part
/// anywhere in the message, in document order.
pub proof fn lemma_depth_suffices(part: PartView, depth: nat)
    requires
        height(part) <= depth,
    ensures
        first_text(part, depth) == first_text_anywhere(part),
    decreases part,
{
    if !is_textual(part.content_type) {
        let parts = part.subparts;
        let levels = levels_below(part);
        let texts = texts_below(part);
        if parts.len() > 0 {
            lemma_largest(levels, 0);
            let below = (depth - 1) as nat;
            assert forall|i: int| 0 <= i < parts.len() implies #[trigger] texts[i] == first_text(
                parts[i],
                below,
            ) by {
                lemma_largest(levels, i);
                lemma_depth_suffices(parts[i], below);
            }
            lemma_first_among(parts, below, texts);
        } else {
            assert(first_text_among(parts, 0) is None);
        }
    }
}

/// Where the message is nested no deeper than [`MAX_PART_DEPTH`], its body
/// text is that of the first textual part anywhere in it.
pub proof fn lemma_body_of_shallow_message(part: PartView)
    requires
        height(part) <= MAX_PART_DEPTH,
    ensures
        body_text(part) == match first_text_anywhere(part) {
            Some(text) => text,
            None => Seq::empty(),
        },
{
    lemma_depth_suffices(part, MAX_PART_DEPTH as nat);
}

} // verus!
