//! Text helpers over the character view of strings.
//!
//! Every string is modelled by the sequence of its characters. The
//! functions here search, cut and rebuild such sequences; the rest of the
//! crate states its contracts with the spec functions defined here.

use vstd::prelude::*;

verus! {

/// `needle` stands in `hay` at position `at`.
pub open spec fn occurs_at(hay: Seq<char>, needle: Seq<char>, at: int) -> bool {
    &&& 0 <= at
    &&& at + needle.len() <= hay.len()
    &&& hay.subrange(at, at + needle.len()) == needle
}

/// `needle` stands somewhere in `hay`; the comparison is exact, character by
/// character.
pub open spec fn contains(hay: Seq<char>, needle: Seq<char>) -> bool {
    exists|at: int| occurs_at(hay, needle, at)
}

/// `at` is the leftmost position at which `needle` stands in `hay`.
pub open spec fn is_first_occurrence(hay: Seq<char>, needle: Seq<char>, at: int) -> bool {
    &&& occurs_at(hay, needle, at)
    &&& forall|before: int| 0 <= before < at ==> !occurs_at(hay, needle, before)
}

/// The leftmost position at which `needle` stands in `hay`, if there is one.
pub open spec fn first_occurrence(hay: Seq<char>, needle: Seq<char>) -> Option<int> {
    if contains(hay, needle) {
        Some(choose|at: int| is_first_occurrence(hay, needle, at))
    } else {
        None
    }
}

/// A leftmost occurrence is the first occurrence.
pub proof fn lemma_first_occurrence(hay: Seq<char>, needle: Seq<char>, at: int)
    requires
        is_first_occurrence(hay, needle, at),
    ensures
        first_occurrence(hay, needle) == Some(at),
{
    let chosen = choose|at: int| is_first_occurrence(hay, needle, at);
    assert(is_first_occurrence(hay, needle, chosen));
    if chosen < at {
        assert(!occurs_at(hay, needle, chosen));
    }
    if at < chosen {
        assert(!occurs_at(hay, needle, at));
    }
}

/// The first occurrence of a needle lies within the text, and nothing
/// before it is an occurrence.
pub proof fn lemma_occurrence_bounds(hay: Seq<char>, needle: Seq<char>, at: int)
    requires
        first_occurrence(hay, needle) == Some(at),
    ensures
        is_first_occurrence(hay, needle, at),
        0 <= at,
        at + needle.len() <= hay.len(),
{
    let witness = choose|at: int| occurs_at(hay, needle, at);
    lemma_leftmost_exists(hay, needle, witness, witness);
}

/// Below an occurrence there is a leftmost one.
proof fn lemma_leftmost_exists(hay: Seq<char>, needle: Seq<char>, first: int, probe: int)
    requires
        0 <= probe <= first,
        occurs_at(hay, needle, first),
        forall|i: int| probe <= i < first ==> !occurs_at(hay, needle, i),
    ensures
        exists|at: int| is_first_occurrence(hay, needle, at),
    decreases probe,
{
    if probe == 0 {
        assert(is_first_occurrence(hay, needle, first));
    } else if occurs_at(hay, needle, probe - 1) {
        lemma_leftmost_exists(hay, needle, probe - 1, probe - 1);
    } else {
        lemma_leftmost_exists(hay, needle, first, probe - 1);
    }
}

/// `String::push` appends one character at the end of the string.
pub assume_specification[ String::push ](s: &mut String, ch: char)
    ensures
        final(s)@ == old(s)@.push(ch),
;

/// The characters of `s`, in order.
pub fn to_chars(s: &str) -> (chars: Vec<char>)
    ensures
        chars@ == s@,
{
    let mut chars: Vec<char> = Vec::new();
    for c in it: s.chars()
        invariant
            it.seq() == s@,
            chars@ == it.seq().take(it.index()),
    {
        chars.push(c);
    }
    chars
}

/// Appends `chars[from..to]` to `out`.
pub fn push_chars(out: &mut String, chars: &Vec<char>, from: usize, to: usize)
    requires
        from <= to <= chars.len(),
    ensures
        final(out)@ == old(out)@ + chars@.subrange(from as int, to as int),
{
    let mut i: usize = from;
    while i < to
        invariant
            from <= i <= to <= chars.len(),
            out@ == old(out)@ + chars@.subrange(from as int, i as int),
        decreases to - i,
    {
        out.push(chars[i]);
        i += 1;
    }
}

/// The string made of `chars`.
pub fn to_string(chars: &Vec<char>) -> (s: String)
    ensures
        s@ == chars@,
{
    let mut s = String::new();
    push_chars(&mut s, chars, 0, chars.len());
    assert(chars@.subrange(0, chars.len() as int) == chars@);
    s
}

/// Whether `needle` stands in `hay` at position `at`.
pub fn matches_at(hay: &Vec<char>, needle: &Vec<char>, at: usize) -> (found: bool)
    ensures
        found == occurs_at(hay@, needle@, at as int),
{
    if needle.len() > hay.len() || at > hay.len() - needle.len() {
        return false;
    }
    let mut k: usize = 0;
    while k < needle.len()
        invariant
            at + needle.len() <= hay.len(),
            k <= needle.len(),
            forall|j: int| 0 <= j < k ==> hay@[at + j] == needle@[j],
        decreases needle.len() - k,
    {
        if hay[at + k] != needle[k] {
            assert(hay@.subrange(at as int, at + needle.len())[k as int] == hay@[at + k]);
            return false;
        }
        k += 1;
    }
    assert(hay@.subrange(at as int, at + needle.len()) =~= needle@);
    true
}

/// The leftmost position of `needle` in `hay`.
pub fn find(hay: &Vec<char>, needle: &Vec<char>) -> (found: Option<usize>)
    ensures
        match found {
            Some(at) => first_occurrence(hay@, needle@) == Some(at as int),
            None => first_occurrence(hay@, needle@) is None,
        },
{
    if needle.len() > hay.len() {
        return None;
    }
    let last: usize = hay.len() - needle.len();
    let mut at: usize = 0;
    loop
        invariant
            last == hay.len() - needle.len(),
            at <= last,
            forall|before: int| 0 <= before < at ==> !occurs_at(hay@, needle@, before),
        decreases last - at,
    {
        if matches_at(hay, needle, at) {
            proof {
                lemma_first_occurrence(hay@, needle@, at as int);
            }
            return Some(at);
        }
        if at == last {
            return None;
        }
        at += 1;
    }
}

/// Whether `needle` stands somewhere in `hay`.
pub fn str_contains(hay: &str, needle: &str) -> (found: bool)
    ensures
        found == contains(hay@, needle@),
{
    let hay_chars = to_chars(hay);
    let needle_chars = to_chars(needle);
    find(&hay_chars, &needle_chars).is_some()
}

/// Whether `s` begins with `prefix`.
pub fn starts_with(s: &str, prefix: &str) -> (found: bool)
    ensures
        found == prefix@.is_prefix_of(s@),
{
    let chars = to_chars(s);
    let prefix_chars = to_chars(prefix);
    let found = matches_at(&chars, &prefix_chars, 0);
    proof {
        if prefix@.len() <= s@.len() {
            assert(s@.subrange(0, prefix@.len() as int) =~= s@.take(prefix@.len() as int));
        }
    }
    found
}

/// `hay` with every occurrence of `pattern` replaced by `with`. Occurrences
/// are taken from the left and do not overlap; what replaces one is not
/// searched again. An empty pattern occurs nowhere.
pub open spec fn replaced(hay: Seq<char>, pattern: Seq<char>, with: Seq<char>) -> Seq<char>
    decreases hay.len(),
{
    if hay.len() == 0 {
        hay
    } else if pattern.len() > 0 && occurs_at(hay, pattern, 0) {
        with + replaced(hay.skip(pattern.len() as int), pattern, with)
    } else {
        seq![hay[0]] + replaced(hay.skip(1), pattern, with)
    }
}

/// Appends all of `chars` to `out`.
pub fn extend_chars(out: &mut Vec<char>, chars: &Vec<char>)
    ensures
        final(out)@ == old(out)@ + chars@,
{
    let mut i: usize = 0;
    while i < chars.len()
        invariant
            i <= chars.len(),
            out@ == old(out)@ + chars@.take(i as int),
        decreases chars.len() - i,
    {
        out.push(chars[i]);
        assert(chars@.take(i + 1) =~= chars@.take(i as int).push(chars@[i as int]));
        i += 1;
    }
    assert(chars@.take(chars.len() as int) =~= chars@);
}

/// `hay` with every occurrence of `pattern` replaced by `with`.
pub fn replace_all(hay: &Vec<char>, pattern: &Vec<char>, with: &Vec<char>) -> (out: Vec<char>)
    ensures
        out@ == replaced(hay@, pattern@, with@),
{
    let mut out: Vec<char> = Vec::new();
    let mut at: usize = 0;
    proof {
        assert(hay@.skip(0) =~= hay@);
    }
    while at < hay.len()
        invariant
            at <= hay.len(),
            replaced(hay@, pattern@, with@) == out@ + replaced(
                hay@.skip(at as int),
                pattern@,
                with@,
            ),
        decreases hay.len() - at,
    {
        let ghost rest = hay@.skip(at as int);
        let ghost done = out@;
        let here = pattern.len() > 0 && matches_at(hay, pattern, at);
        proof {
            if pattern.len() <= rest.len() {
                assert(rest.subrange(0, pattern.len() as int) =~= hay@.subrange(
                    at as int,
                    at + pattern.len(),
                ));
            }
        }
        if here {
            extend_chars(&mut out, with);
            at += pattern.len();
            proof {
                assert(rest.skip(pattern.len() as int) =~= hay@.skip(at as int));
                assert(out@ + replaced(hay@.skip(at as int), pattern@, with@) =~= done + (with@
                    + replaced(hay@.skip(at as int), pattern@, with@)));
            }
        } else {
            out.push(hay[at]);
            at += 1;
            proof {
                assert(rest.skip(1) =~= hay@.skip(at as int));
                assert(out@ + replaced(hay@.skip(at as int), pattern@, with@) =~= done + (
                seq![rest[0]] + replaced(hay@.skip(at as int), pattern@, with@)));
            }
        }
    }
    proof {
        assert(hay@.skip(at as int).len() == 0);
        assert(out@ + Seq::<char>::empty() =~= out@);
    }
    out
}

/// Whether a character is white space: the Unicode property `White_Space`.
pub uninterp spec fn whitespace(c: char) -> bool;

/// `char::is_whitespace` tells whether the character has the Unicode
/// property `White_Space`; the property itself is not spelled out here.
pub assume_specification[ char::is_whitespace ](c: char) -> (white: bool)
    ensures
        white == whitespace(c),
;

/// The lower-case form of a text, by the Unicode rules.
pub uninterp spec fn lowercase(text: Seq<char>) -> Seq<char>;

/// `str::to_lowercase` gives the lower-case form of the text as a new
/// string; the mapping itself is not spelled out here.
pub assume_specification[ str::to_lowercase ](text: &str) -> (lower: String)
    ensures
        lower@ == lowercase(text@),
;

/// `text` without the white space at its start.
pub open spec fn trim_start(text: Seq<char>) -> Seq<char>
    decreases text.len(),
{
    if text.len() > 0 && whitespace(text[0]) {
        trim_start(text.drop_first())
    } else {
        text
    }
}

/// `text` without the white space at its end.
pub open spec fn trim_end(text: Seq<char>) -> Seq<char>
    decreases text.len(),
{
    if text.len() > 0 && whitespace(text.last()) {
        trim_end(text.drop_last())
    } else {
        text
    }
}

/// `text` without the white space at its start and at its end.
pub open spec fn trimmed(text: Seq<char>) -> Seq<char> {
    trim_end(trim_start(text))
}

/// Cutting the white space off the start leaves what begins at the first
/// character that is none.
pub proof fn lemma_trim_start(text: Seq<char>, from: int)
    requires
        0 <= from <= text.len(),
        forall|i: int| 0 <= i < from ==> whitespace(#[trigger] text[i]),
        from < text.len() ==> !whitespace(text[from]),
    ensures
        trim_start(text) == text.skip(from),
    decreases from,
{
    if from == 0 {
        assert(text.skip(0) =~= text);
    } else {
        let rest = text.drop_first();
        assert forall|i: int| 0 <= i < from - 1 implies whitespace(#[trigger] rest[i]) by {
            assert(rest[i] == text[i + 1]);
        }
        lemma_trim_start(rest, from - 1);
        assert(rest.skip(from - 1) =~= text.skip(from));
    }
}

/// Cutting the white space off the end leaves what ends behind the last
/// character that is none.
pub proof fn lemma_trim_end(text: Seq<char>, to: int)
    requires
        0 <= to <= text.len(),
        forall|i: int| to <= i < text.len() ==> whitespace(#[trigger] text[i]),
        0 < to ==> !whitespace(text[to - 1]),
    ensures
        trim_end(text) == text.take(to),
    decreases text.len() - to,
{
    if to == text.len() {
        assert(text.take(to) =~= text);
    } else {
        let rest = text.drop_last();
        lemma_trim_end(rest, to);
        assert(rest.take(to) =~= text.take(to));
    }
}

/// The bounds of `chars` without the white space at its start and end.
pub fn trim_bounds(chars: &Vec<char>) -> (bounds: (usize, usize))
    ensures
        bounds.0 <= bounds.1 <= chars.len(),
        chars@.subrange(bounds.0 as int, bounds.1 as int) == trimmed(chars@),
{
    let mut from: usize = 0;
    while from < chars.len() && chars[from].is_whitespace()
        invariant
            from <= chars.len(),
            forall|i: int| 0 <= i < from ==> whitespace(#[trigger] chars@[i]),
        decreases chars.len() - from,
    {
        from += 1;
    }
    let mut to: usize = chars.len();
    while to > from && chars[to - 1].is_whitespace()
        invariant
            from <= to <= chars.len(),
            forall|i: int| to <= i < chars.len() ==> whitespace(#[trigger] chars@[i]),
        decreases to,
    {
        to -= 1;
    }
    proof {
        let rest = chars@.skip(from as int);
        lemma_trim_start(chars@, from as int);
        assert forall|i: int| to - from <= i < rest.len() implies whitespace(
            #[trigger] rest[i],
        ) by {
            assert(rest[i] == chars@[i + from]);
        }
        lemma_trim_end(rest, to - from);
        assert(rest.take(to - from) =~= chars@.subrange(from as int, to as int));
    }
    (from, to)
}

/// What follows the last `mark` in `text`; all of `text` if it holds none.
pub open spec fn after_last(text: Seq<char>, mark: char) -> Seq<char>
    decreases text.len(),
{
    if text.len() == 0 || text.last() == mark {
        Seq::empty()
    } else {
        after_last(text.drop_last(), mark).push(text.last())
    }
}

/// What stands before the first `mark` in `text`; all of `text` if it holds
/// none.
pub open spec fn before_first(text: Seq<char>, mark: char) -> Seq<char>
    decreases text.len(),
{
    if text.len() == 0 || text[0] == mark {
        Seq::empty()
    } else {
        seq![text[0]] + before_first(text.drop_first(), mark)
    }
}

/// What follows the last `mark` starts where no `mark` comes any more.
pub proof fn lemma_after_last(text: Seq<char>, mark: char, from: int)
    requires
        0 <= from <= text.len(),
        forall|i: int| from <= i < text.len() ==> #[trigger] text[i] != mark,
        0 < from ==> text[from - 1] == mark,
    ensures
        after_last(text, mark) == text.skip(from),
    decreases text.len() - from,
{
    if from == text.len() {
        assert(text.skip(from) =~= Seq::empty());
    } else {
        lemma_after_last(text.drop_last(), mark, from);
        assert(text.drop_last().skip(from).push(text.last()) =~= text.skip(from));
    }
}

/// What stands before the first `mark` ends where the first `mark` stands.
pub proof fn lemma_before_first(text: Seq<char>, mark: char, to: int)
    requires
        0 <= to <= text.len(),
        forall|i: int| 0 <= i < to ==> #[trigger] text[i] != mark,
        to < text.len() ==> text[to] == mark,
    ensures
        before_first(text, mark) == text.take(to),
    decreases to,
{
    if to == 0 {
        assert(text.take(0) =~= Seq::empty());
    } else {
        let rest = text.drop_first();
        assert forall|i: int| 0 <= i < to - 1 implies #[trigger] rest[i] != mark by {
            assert(rest[i] == text[i + 1]);
        }
        lemma_before_first(rest, mark, to - 1);
        assert(seq![text[0]] + rest.take(to - 1) =~= text.take(to));
    }
}

} // verus!
