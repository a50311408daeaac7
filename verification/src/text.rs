//! Text as a sequence of characters: what it means for one text to occur in
//! another, and the string operations of the standard library that the rest of
//! the crate builds on.

use vstd::prelude::*;

verus! {

/// `needle` stands in `hay` at offset `at`.
pub open spec fn occurs_at(hay: Seq<char>, needle: Seq<char>, at: int) -> bool {
    &&& 0 <= at
    &&& at + needle.len() <= hay.len()
    &&& hay.subrange(at, at + needle.len()) == needle
}

/// `needle` stands somewhere in `hay`.
pub open spec fn contains_text(hay: Seq<char>, needle: Seq<char>) -> bool {
    exists|at: int| occurs_at(hay, needle, at)
}

/// `hay` begins with `needle`.
pub open spec fn starts_with_text(hay: Seq<char>, needle: Seq<char>) -> bool {
    occurs_at(hay, needle, 0)
}

/// `at` is the leftmost offset at which `needle` stands in `hay`.
pub open spec fn is_first_occurrence(hay: Seq<char>, needle: Seq<char>, at: int) -> bool {
    &&& occurs_at(hay, needle, at)
    &&& forall|earlier: int| 0 <= earlier < at ==> !occurs_at(hay, needle, earlier)
}

/// The part of `hay` in front of the leftmost `sep`, or all of `hay` where
/// `sep` does not occur.
pub open spec fn before_first(hay: Seq<char>, sep: Seq<char>) -> Seq<char> {
    if contains_text(hay, sep) {
        hay.subrange(0, choose|at: int| is_first_occurrence(hay, sep, at))
    } else {
        hay
    }
}

/// The lowercase form of a text, as `str::to_lowercase` computes it from the
/// Unicode case tables.
pub uninterp spec fn lowercase_of(text: Seq<char>) -> Seq<char>;

/// `str::to_lowercase`: the result is the lowercase form of the argument, a
/// function of the argument's characters alone.
#[verifier::external_body]
pub(crate) fn text_lowercase(text: &str) -> (lower: String)
    ensures
        lower@ == lowercase_of(text@),
{
    text.to_lowercase()
}

/// `str::contains` with a string pattern: true exactly when the pattern
/// matches a sub-slice of the text.
#[verifier::external_body]
pub(crate) fn text_contains(hay: &str, needle: &str) -> (found: bool)
    ensures
        found == contains_text(hay@, needle@),
{
    hay.contains(needle)
}

/// `str::starts_with` with a string pattern: true exactly when the pattern
/// matches a prefix of the text.
#[verifier::external_body]
pub(crate) fn text_starts_with(hay: &str, needle: &str) -> (found: bool)
    ensures
        found == starts_with_text(hay@, needle@),
{
    hay.starts_with(needle)
}

/// `str::split_once` with a string delimiter: the text is cut at the first
/// occurrence of the delimiter into what stands before and what stands after
/// it; `None` exactly when the delimiter does not occur.
#[verifier::external_body]
pub(crate) fn text_split_once<'a>(hay: &'a str, sep: &str) -> (parts: Option<(&'a str, &'a str)>)
    ensures
        match parts {
            Some((head, tail)) => {
                &&& hay@ == head@ + sep@ + tail@
                &&& is_first_occurrence(hay@, sep@, head@.len() as int)
            },
            None => !contains_text(hay@, sep@),
        },
{
    hay.split_once(sep)
}

/// Any text followed by `needle` contains `needle`.
pub proof fn lemma_contains_suffix(front: Seq<char>, needle: Seq<char>)
    ensures
        contains_text(front + needle, needle),
{
    let whole = front + needle;
    assert(whole.subrange(front.len() as int, (front.len() + needle.len()) as int) =~= needle);
    assert(occurs_at(whole, needle, front.len() as int));
}

/// The leftmost occurrence is unique, so `before_first` is the head that a
/// cut at the leftmost occurrence leaves.
pub proof fn lemma_before_first(hay: Seq<char>, sep: Seq<char>, at: int)
    requires
        is_first_occurrence(hay, sep, at),
    ensures
        before_first(hay, sep) == hay.subrange(0, at),
{
    assert(occurs_at(hay, sep, at));
    let chosen = choose|c: int| is_first_occurrence(hay, sep, c);
    assert(is_first_occurrence(hay, sep, chosen));
    assert(chosen == at);
}

/// Where `needle` stands in `hay` at all, it has a leftmost occurrence, no
/// further right than any given one.
pub proof fn lemma_first_occurrence_exists(hay: Seq<char>, needle: Seq<char>, at: int) -> (first:
    int)
    requires
        occurs_at(hay, needle, at),
    ensures
        is_first_occurrence(hay, needle, first),
        first <= at,
    decreases at,
{
    if exists|earlier: int| 0 <= earlier < at && occurs_at(hay, needle, earlier) {
        let earlier = choose|earlier: int| 0 <= earlier < at && occurs_at(hay, needle, earlier);
        lemma_first_occurrence_exists(hay, needle, earlier)
    } else {
        at
    }
}

/// `before_first` is a prefix of the text it is taken from.
pub proof fn lemma_before_first_is_prefix(hay: Seq<char>, sep: Seq<char>)
    ensures
        before_first(hay, sep).len() <= hay.len(),
        before_first(hay, sep) == hay.subrange(0, before_first(hay, sep).len() as int),
{
    if contains_text(hay, sep) {
        let at = choose|at: int| occurs_at(hay, sep, at);
        let first = lemma_first_occurrence_exists(hay, sep, at);
        lemma_before_first(hay, sep, first);
    } else {
        assert(hay.subrange(0, hay.len() as int) =~= hay);
    }
}

/// The first sentence of `text`: what stands before the first `sep`, or all of
/// it.
pub fn leading_part(text: &str, sep: &str) -> (head: String)
    ensures
        head@ == before_first(text@, sep@),
{
    match text_split_once(text, sep) {
        Some((head, _tail)) => {
            proof {
                lemma_before_first(text@, sep@, head@.len() as int);
                assert(text@.subrange(0, head@.len() as int) =~= head@);
            }
            head.to_owned()
        },
        None => text.to_owned(),
    }
}

} // verus!
