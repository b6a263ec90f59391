use typo_compiler::cli::split_sentences;

#[test]
fn split_basic_sentences() {
    let result = split_sentences("I am happy. You are sad. We are fine.").expect("patterns must compile");
    assert_eq!(result, vec!["I am happy.", "You are sad.", "We are fine."]);
}

#[test]
fn split_preserves_question_and_exclamation() {
    let result = split_sentences("Are you okay? Yes! I am fine.").expect("patterns must compile");
    assert_eq!(result, vec!["Are you okay?", "Yes!", "I am fine."]);
}

#[test]
fn split_handles_abbreviations() {
    let result = split_sentences("Mr. Smith went to Washington. He was happy.").expect("patterns must compile");
    assert_eq!(
        result,
        vec!["Mr. Smith went to Washington.", "He was happy."]
    );
}

#[test]
fn split_handles_eg() {
    let result =
        split_sentences("Use connectors, e.g. however and therefore. They help.").expect("patterns must compile");
    assert_eq!(
        result,
        vec![
            "Use connectors, e.g. however and therefore.",
            "They help."
        ]
    );
}

#[test]
fn split_handles_decimals() {
    let result = split_sentences("Pi is about 3.14. That is approximate.").expect("patterns must compile");
    assert_eq!(
        result,
        vec!["Pi is about 3.14.", "That is approximate."]
    );
}

#[test]
fn split_no_trailing_punctuation() {
    let result = split_sentences("Hello world. No period here").expect("patterns must compile");
    assert_eq!(result, vec!["Hello world.", "No period here"]);
}

#[test]
fn split_ellipsis() {
    let result = split_sentences("Well... I guess so. Fine.").expect("patterns must compile");
    assert_eq!(result, vec!["Well...", "I guess so.", "Fine."]);
}
