//! Wrapping every match of a pattern in terminal colour markers.

use vstd::prelude::*;
use crate::chars::{chars_of, push_char, push_chars};
use crate::matching::{contains, matches_at, occurs_at};

verus! {

/// The marker that switches the highlight colour on: `ESC [ 3 1 m`.
pub open spec fn marker_on() -> Seq<char> {
    seq!['\u{1b}', '[', '3', '1', 'm']
}

/// The marker that resets the colour: `ESC [ 0 m`.
pub open spec fn marker_off() -> Seq<char> {
    seq!['\u{1b}', '[', '0', 'm']
}

/// How far the scan moves past a match: the pattern's length, and one
/// character for the empty pattern.
pub open spec fn stride(pattern: Seq<char>) -> int {
    if pattern.len() == 0 {
        1
    } else {
        pattern.len() as int
    }
}

/// The starts of the matches found by scanning `text` from `from` to the
/// right: the leftmost match first, each further one the leftmost that
/// begins at or after the end of the one before. The empty pattern matches
/// before every character and at the end.
pub open spec fn match_starts_from(text: Seq<char>, pattern: Seq<char>, from: int) -> Seq<int>
    decreases text.len() + 1 - from,
{
    if from < 0 || from + pattern.len() > text.len() {
        Seq::empty()
    } else if occurs_at(text, pattern, from) {
        seq![from] + match_starts_from(text, pattern, from + stride(pattern))
    } else {
        match_starts_from(text, pattern, from + 1)
    }
}

/// The starts of all matches of `pattern` in `text`, in increasing order.
pub open spec fn match_starts(text: Seq<char>, pattern: Seq<char>) -> Seq<int> {
    match_starts_from(text, pattern, 0)
}

/// `text` from index `from` on, with the pattern at each of `starts`
/// wrapped in the two markers.
pub open spec fn wrap_matches(
    text: Seq<char>,
    pattern: Seq<char>,
    starts: Seq<int>,
    from: int,
) -> Seq<char>
    decreases starts.len(),
{
    if starts.len() == 0 {
        text.subrange(from, text.len() as int)
    } else {
        text.subrange(from, starts[0]) + marker_on() + pattern + marker_off() + wrap_matches(
            text,
            pattern,
            starts.skip(1),
            starts[0] + pattern.len(),
        )
    }
}

/// `text` with every match of `pattern` wrapped in the two markers.
pub open spec fn highlighted(text: Seq<char>, pattern: Seq<char>) -> Seq<char> {
    wrap_matches(text, pattern, match_starts(text, pattern), 0)
}

/// Every start found from `from` on lies at or after `from`, and the
/// pattern fits into the text there.
pub proof fn lemma_starts_in_range(text: Seq<char>, pattern: Seq<char>, from: int)
    requires
        0 <= from,
    ensures
        forall|k: int|
            0 <= k < match_starts_from(text, pattern, from).len() ==> {
                &&& from <= #[trigger] match_starts_from(text, pattern, from)[k]
                &&& match_starts_from(text, pattern, from)[k] + pattern.len() <= text.len()
            },
    decreases text.len() + 1 - from,
{
    let starts = match_starts_from(text, pattern, from);
    if from + pattern.len() > text.len() {
        assert(starts.len() == 0);
    } else if occurs_at(text, pattern, from) {
        let rest = match_starts_from(text, pattern, from + stride(pattern));
        lemma_starts_in_range(text, pattern, from + stride(pattern));
        assert(starts == seq![from] + rest);
        assert forall|k: int| 0 <= k < starts.len() implies {
            &&& from <= #[trigger] starts[k]
            &&& starts[k] + pattern.len() <= text.len()
        } by {
            if k > 0 {
                assert(starts[k] == rest[k - 1]);
            }
        }
    } else {
        lemma_starts_in_range(text, pattern, from + 1);
        assert(starts == match_starts_from(text, pattern, from + 1));
    }
}

/// Every highlighted match is an occurrence of the pattern.
pub proof fn lemma_starts_are_occurrences(text: Seq<char>, pattern: Seq<char>, from: int)
    requires
        0 <= from,
    ensures
        forall|k: int|
            0 <= k < match_starts_from(text, pattern, from).len() ==> occurs_at(
                text,
                pattern,
                #[trigger] match_starts_from(text, pattern, from)[k],
            ),
    decreases text.len() + 1 - from,
{
    let starts = match_starts_from(text, pattern, from);
    if from + pattern.len() > text.len() {
        assert(starts.len() == 0);
    } else if occurs_at(text, pattern, from) {
        let rest = match_starts_from(text, pattern, from + stride(pattern));
        lemma_starts_are_occurrences(text, pattern, from + stride(pattern));
        assert(starts == seq![from] + rest);
        assert forall|k: int| 0 <= k < starts.len() implies occurs_at(
            text,
            pattern,
            #[trigger] starts[k],
        ) by {
            if k > 0 {
                assert(starts[k] == rest[k - 1]);
            }
        }
    } else {
        lemma_starts_are_occurrences(text, pattern, from + 1);
        assert(starts == match_starts_from(text, pattern, from + 1));
    }
}

/// Highlighted matches do not overlap: each begins at or after the end of
/// the one before, and strictly after its start.
pub proof fn lemma_starts_apart(text: Seq<char>, pattern: Seq<char>, from: int)
    requires
        0 <= from,
    ensures
        forall|k: int|
            0 <= k < match_starts_from(text, pattern, from).len() - 1 ==> #[trigger] match_starts_from(
                text,
                pattern,
                from,
            )[k] + stride(pattern) <= match_starts_from(text, pattern, from)[k + 1],
    decreases text.len() + 1 - from,
{
    let starts = match_starts_from(text, pattern, from);
    if from + pattern.len() > text.len() {
        assert(starts.len() == 0);
    } else if occurs_at(text, pattern, from) {
        let rest = match_starts_from(text, pattern, from + stride(pattern));
        lemma_starts_apart(text, pattern, from + stride(pattern));
        lemma_starts_in_range(text, pattern, from + stride(pattern));
        assert(starts == seq![from] + rest);
        assert forall|k: int| 0 <= k < starts.len() - 1 implies #[trigger] starts[k] + stride(
            pattern,
        ) <= starts[k + 1] by {
            assert(starts[k + 1] == rest[k]);
            if k > 0 {
                assert(starts[k] == rest[k - 1]);
            }
        }
    } else {
        lemma_starts_apart(text, pattern, from + 1);
        assert(starts == match_starts_from(text, pattern, from + 1));
    }
}

/// No occurrence is passed over: one of a non-empty pattern at or after
/// `from` has a highlighted match that begins at or before it and reaches
/// past its first character.
pub proof fn lemma_occurrence_meets_match(text: Seq<char>, pattern: Seq<char>, from: int, at: int)
    requires
        0 <= from <= at,
        pattern.len() > 0,
        occurs_at(text, pattern, at),
    ensures
        exists|k: int|
            0 <= k < match_starts_from(text, pattern, from).len() && #[trigger] match_starts_from(
                text,
                pattern,
                from,
            )[k] <= at < match_starts_from(text, pattern, from)[k] + pattern.len(),
    decreases text.len() + 1 - from,
{
    let starts = match_starts_from(text, pattern, from);
    if occurs_at(text, pattern, from) {
        let next = from + stride(pattern);
        let rest = match_starts_from(text, pattern, next);
        assert(starts == seq![from] + rest);
        if at < next {
            assert(starts[0] <= at < starts[0] + pattern.len());
        } else {
            lemma_occurrence_meets_match(text, pattern, next, at);
            let k = choose|k: int|
                0 <= k < rest.len() && #[trigger] rest[k] <= at < rest[k] + pattern.len();
            assert(starts[k + 1] == rest[k]);
        }
    } else {
        assert(from < at);
        lemma_occurrence_meets_match(text, pattern, from + 1, at);
        assert(starts == match_starts_from(text, pattern, from + 1));
    }
}

/// Where no two occurrences of a non-empty pattern overlap, every
/// occurrence is highlighted.
pub proof fn lemma_disjoint_occurrences_all_matched(text: Seq<char>, pattern: Seq<char>, at: int)
    requires
        pattern.len() > 0,
        occurs_at(text, pattern, at),
        forall|a: int, b: int|
            occurs_at(text, pattern, a) && occurs_at(text, pattern, b) && a < b ==> a
                + pattern.len() <= b,
    ensures
        match_starts(text, pattern).contains(at),
{
    let starts = match_starts(text, pattern);
    lemma_occurrence_meets_match(text, pattern, 0, at);
    lemma_starts_are_occurrences(text, pattern, 0);
    let k = choose|k: int|
        0 <= k < starts.len() && #[trigger] starts[k] <= at < starts[k] + pattern.len();
    assert(occurs_at(text, pattern, starts[k]));
    assert(starts[k] == at);
}

/// The empty pattern is highlighted before every character and at the end.
pub proof fn lemma_empty_pattern_starts(text: Seq<char>, from: int)
    requires
        0 <= from <= text.len(),
    ensures
        match_starts_from(text, Seq::<char>::empty(), from) =~= Seq::new(
            (text.len() + 1 - from) as nat,
            |k: int| from + k,
        ),
    decreases text.len() + 1 - from,
{
    let pattern = Seq::<char>::empty();
    let starts = match_starts_from(text, pattern, from);
    let rest = match_starts_from(text, pattern, from + 1);
    assert(occurs_at(text, pattern, from));
    assert(starts == seq![from] + rest);
    if from < text.len() {
        lemma_empty_pattern_starts(text, from + 1);
    } else {
        assert(rest.len() == 0);
    }
}

/// A text has a highlighted match exactly if it contains the pattern.
pub proof fn lemma_contains_iff_matched(text: Seq<char>, pattern: Seq<char>)
    ensures
        contains(text, pattern) <==> match_starts(text, pattern).len() > 0,
{
    let starts = match_starts(text, pattern);
    if starts.len() > 0 {
        lemma_starts_are_occurrences(text, pattern, 0);
        assert(occurs_at(text, pattern, starts[0]));
    }
    if contains(text, pattern) {
        let at = choose|at: int| occurs_at(text, pattern, at);
        if pattern.len() > 0 {
            lemma_occurrence_meets_match(text, pattern, 0, at);
        } else {
            assert(occurs_at(text, pattern, 0));
        }
    }
}

/// A text without the pattern is left as it is.
pub proof fn lemma_unmatched_text_unchanged(text: Seq<char>, pattern: Seq<char>)
    requires
        !contains(text, pattern),
    ensures
        highlighted(text, pattern) == text,
{
    lemma_contains_iff_matched(text, pattern);
    assert(text.subrange(0, text.len() as int) =~= text);
}

/// Copying one character that lies before every remaining match.
proof fn lemma_wrap_copies_one(text: Seq<char>, pattern: Seq<char>, starts: Seq<int>, from: int)
    requires
        0 <= from < text.len(),
        starts.len() > 0 ==> from < starts[0] <= text.len(),
    ensures
        wrap_matches(text, pattern, starts, from) =~= seq![text[from]] + wrap_matches(
            text,
            pattern,
            starts,
            from + 1,
        ),
{
    if starts.len() == 0 {
        assert(text.subrange(from, text.len() as int) =~= seq![text[from]] + text.subrange(
            from + 1,
            text.len() as int,
        ));
    } else {
        assert(text.subrange(from, starts[0]) =~= seq![text[from]] + text.subrange(
            from + 1,
            starts[0],
        ));
    }
}

/// Appends the pattern between the two colour markers.
fn push_marked(out: &mut String, pattern: &[char])
    ensures
        final(out)@ == old(out)@ + marker_on() + pattern@ + marker_off(),
{
    proof {
        reveal_strlit("\x1b[31m");
        reveal_strlit("\x1b[0m");
    }
    out.append("\x1b[31m");
    assert("\x1b[31m"@ =~= marker_on());
    push_chars(out, pattern);
    out.append("\x1b[0m");
    assert("\x1b[0m"@ =~= marker_off());
}

/// `text` with every match of `pattern` wrapped in the two markers, both
/// given as characters.
pub fn highlight_chars(text: &[char], pattern: &[char]) -> (out: String)
    ensures
        out@ == highlighted(text@, pattern@),
{
    let mut out = String::new();
    let mut at: usize = 0;
    loop
        invariant_except_break
            at <= text.len(),
            highlighted(text@, pattern@) == out@ + wrap_matches(
                text@,
                pattern@,
                match_starts_from(text@, pattern@, at as int),
                at as int,
            ),
        ensures
            out@ == highlighted(text@, pattern@),
        decreases text.len() - at,
    {
        let ghost starts = match_starts_from(text@, pattern@, at as int);
        if matches_at(text, pattern, at) {
            let ghost rest = match_starts_from(text@, pattern@, at + stride(pattern@));
            push_marked(&mut out, pattern);
            proof {
                assert(starts =~= seq![at as int] + rest);
                assert(starts.skip(1) =~= rest);
                assert(text@.subrange(at as int, at as int) =~= Seq::<char>::empty());
                lemma_starts_in_range(text@, pattern@, at + stride(pattern@));
                assert(out@ + wrap_matches(text@, pattern@, rest, at + pattern@.len())
                    =~= highlighted(text@, pattern@));
            }
            if pattern.len() > 0 {
                at += pattern.len();
            } else if at < text.len() {
                proof {
                    lemma_wrap_copies_one(text@, pattern@, rest, at as int);
                }
                push_char(&mut out, text[at]);
                at += 1;
            } else {
                assert(rest =~= Seq::<int>::empty());
                assert(text@.subrange(at as int, text@.len() as int) =~= Seq::<char>::empty());
                break;
            }
        } else if at < text.len() {
            proof {
                assert(starts == match_starts_from(text@, pattern@, at + 1));
                lemma_starts_in_range(text@, pattern@, at + 1);
                lemma_wrap_copies_one(text@, pattern@, starts, at as int);
            }
            push_char(&mut out, text[at]);
            at += 1;
        } else {
            assert(starts =~= Seq::<int>::empty());
            assert(text@.subrange(at as int, text@.len() as int) =~= Seq::<char>::empty());
            break;
        }
    }
    out
}

/// `text` with every match of `pattern` wrapped in the two markers.
pub fn highlight(text: &str, pattern: &str) -> (out: String)
    ensures
        out@ == highlighted(text@, pattern@),
{
    let text_chars = chars_of(text);
    let pattern_chars = chars_of(pattern);
    highlight_chars(text_chars.as_slice(), pattern_chars.as_slice())
}

} // verus!
