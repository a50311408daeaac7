use history_pruning::compressor::create_summary;
use history_pruning::estimator::estimate_tokens;

fn padded(head: &str, len: usize) -> String {
    let mut text = head.to_string();
    while text.chars().count() < len {
        text.push('x');
    }
    text
}

#[test]
fn short_text_is_not_compressed() {
    assert_eq!(create_summary(""), "");
    assert_eq!(create_summary("One. Two."), "One. Two.");
    let exactly = padded("One. Two", 200);
    assert_eq!(create_summary(&exactly), exactly);
}

#[test]
fn long_text_without_a_sentence_end_keeps_all_of_it() {
    let text = "y".repeat(201);
    assert_eq!(create_summary(&text), format!("{} [Compressed]", text));
}

#[test]
fn long_text_is_cut_at_the_first_sentence() {
    let text = padded("The deployment finished. Then more. And more. ", 2500);
    assert_eq!(create_summary(&text), "The deployment finished [Compressed]");
}

#[test]
fn a_full_stop_without_a_space_does_not_end_the_sentence() {
    let text = padded("Version 1.2 is out. Details follow ", 300);
    assert_eq!(create_summary(&text), "Version 1.2 is out [Compressed]");
}

#[test]
fn key_terms_are_noted_in_their_fixed_order() {
    let text = padded(
        "Deploy failed. A RESULT and a solution; the Config variable of the function gave an Error ",
        400,
    );
    assert_eq!(
        create_summary(&text),
        "Deploy failed [Contains: error] [Contains: function] [Contains: variable] \
         [Contains: config] [Contains: solution] [Contains: result] [Compressed]"
    );
}

#[test]
fn a_term_that_the_sentence_holds_is_not_noted() {
    let text = padded("The ERROR persists. We looked at the error and the result ", 300);
    assert_eq!(create_summary(&text), "The ERROR persists [Contains: result] [Compressed]");
}

#[test]
fn a_term_that_the_text_lacks_is_not_noted() {
    let text = padded("Nothing here. Only a variable ", 300);
    assert_eq!(create_summary(&text), "Nothing here [Contains: variable] [Compressed]");
}

#[test]
fn text_that_starts_with_the_separator_gives_an_empty_sentence() {
    let text = padded(". result ", 300);
    assert_eq!(create_summary(&text), " [Contains: result] [Compressed]");
}

#[test]
fn digest_is_bounded_by_the_text() {
    let text = padded(
        "Deploy failed. A result and a solution; the config variable of the function gave an error ",
        400,
    );
    let digest = create_summary(&text);
    assert!(digest.chars().count() <= text.chars().count() + 132);
    assert!(digest.contains("[Compressed]"));
    assert_eq!(digest.chars().count(), 145);
    assert_eq!(estimate_tokens(&digest), 42);
}

#[test]
fn compression_counts_characters_not_bytes() {
    let text = "é".repeat(150);
    assert_eq!(text.len(), 300);
    assert_eq!(create_summary(&text), text);
}
