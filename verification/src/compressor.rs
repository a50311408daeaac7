//! The compressor: a long text is replaced by its first sentence, a note for
//! each key term that the sentence lost, and a closing marker.

use crate::text::{
    before_first, contains_text, leading_part, lemma_before_first_is_prefix, lemma_contains_suffix,
    lowercase_of, text_contains, text_lowercase,
};
use vstd::prelude::*;
use vstd::string::{StrSliceExecFns, StringExecFns};

verus! {

/// Texts of at most this many characters are never compressed.
pub const COMPRESS_ABOVE: usize = 200;

/// No digest is longer than its text by more than this many characters.
pub const DIGEST_GROWTH: usize = 132;

/// A text counts as compressed when it carries the marker.
pub open spec fn is_compressed(content: Seq<char>) -> bool {
    contains_text(content, "[Compressed]"@)
}

/// The summary with a note for `term`, where the lowercase source mentions the
/// term and the summary, in lowercase, does not yet.
pub open spec fn annotated(source_lower: Seq<char>, summary: Seq<char>, term: Seq<char>) -> Seq<
    char,
> {
    if contains_text(source_lower, term) && !contains_text(lowercase_of(summary), term) {
        summary + " [Contains: "@ + term + "]"@
    } else {
        summary
    }
}

/// The digest of a text: its first sentence, then the notes for the key
/// terms, each tested against the digest so far, then the marker.
pub open spec fn digest_of(text: Seq<char>) -> Seq<char> {
    let lower = lowercase_of(text);
    let sentence = before_first(text, ". "@);
    let with_error = annotated(lower, sentence, "error"@);
    let with_function = annotated(lower, with_error, "function"@);
    let with_variable = annotated(lower, with_function, "variable"@);
    let with_config = annotated(lower, with_variable, "config"@);
    let with_solution = annotated(lower, with_config, "solution"@);
    let with_result = annotated(lower, with_solution, "result"@);
    with_result + " [Compressed]"@
}

/// What the compressor makes of a text: a short text stays, a long one
/// becomes its digest.
pub open spec fn summary_of(text: Seq<char>) -> Seq<char> {
    if text.len() <= COMPRESS_ABOVE {
        text
    } else {
        digest_of(text)
    }
}

/// A note adds at most the frame of thirteen characters and the term.
proof fn lemma_annotated_length(source_lower: Seq<char>, summary: Seq<char>, term: Seq<char>)
    ensures
        annotated(source_lower, summary, term).len() <= summary.len() + 13 + term.len(),
{
    reveal_strlit(" [Contains: ");
    reveal_strlit("]");
}

/// Every digest carries the marker, and none outgrows its text by more than
/// `DIGEST_GROWTH` characters.
pub proof fn lemma_digest(text: Seq<char>)
    ensures
        is_compressed(digest_of(text)),
        digest_of(text).len() <= text.len() + DIGEST_GROWTH,
{
    let lower = lowercase_of(text);
    let sentence = before_first(text, ". "@);
    let with_error = annotated(lower, sentence, "error"@);
    let with_function = annotated(lower, with_error, "function"@);
    let with_variable = annotated(lower, with_function, "variable"@);
    let with_config = annotated(lower, with_variable, "config"@);
    let with_solution = annotated(lower, with_config, "solution"@);
    let with_result = annotated(lower, with_solution, "result"@);
    lemma_before_first_is_prefix(text, ". "@);
    lemma_annotated_length(lower, sentence, "error"@);
    lemma_annotated_length(lower, with_error, "function"@);
    lemma_annotated_length(lower, with_function, "variable"@);
    lemma_annotated_length(lower, with_variable, "config"@);
    lemma_annotated_length(lower, with_config, "solution"@);
    lemma_annotated_length(lower, with_solution, "result"@);
    reveal_strlit("error");
    reveal_strlit("function");
    reveal_strlit("variable");
    reveal_strlit("config");
    reveal_strlit("solution");
    reveal_strlit("result");
    reveal_strlit(" [Compressed]");
    reveal_strlit("[Compressed]");
    let gap = seq![' '];
    assert(" [Compressed]"@ =~= gap + "[Compressed]"@);
    assert(digest_of(text) =~= (with_result + gap) + "[Compressed]"@);
    lemma_contains_suffix(with_result + gap, "[Compressed]"@);
}

/// Adds the note for `term` to `summary` where it is due.
fn annotate(source_lower: &str, summary: String, term: &str) -> (out: String)
    ensures
        out@ == annotated(source_lower@, summary@, term@),
{
    if text_contains(source_lower, term) {
        let so_far = text_lowercase(summary.as_str());
        if !text_contains(so_far.as_str(), term) {
            let mut out = summary;
            out.append(" [Contains: ");
            out.append(term);
            out.append("]");
            return out;
        }
    }
    summary
}

/// Compresses `content`: a text of at most `COMPRESS_ABOVE` characters comes
/// back unchanged, a longer one as its digest.
pub fn create_summary(content: &str) -> (summary: String)
    ensures
        summary@ == summary_of(content@),
{
    if content.unicode_len() <= COMPRESS_ABOVE {
        return content.to_owned();
    }
    let lowered = text_lowercase(content);
    let lower = lowered.as_str();
    let sentence = leading_part(content, ". ");
    let with_error = annotate(lower, sentence, "error");
    let with_function = annotate(lower, with_error, "function");
    let with_variable = annotate(lower, with_function, "variable");
    let with_config = annotate(lower, with_variable, "config");
    let with_solution = annotate(lower, with_config, "solution");
    let mut summary = annotate(lower, with_solution, "result");
    summary.append(" [Compressed]");
    summary
}

} // verus!
