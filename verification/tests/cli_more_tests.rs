use typo_compiler::cli::{split_sentences, Cli, Input, InputError};
use typo_compiler::sentences::{protect_spans, sentences_in};

fn cli(file: Option<&str>, divide: bool, input: Option<&str>) -> Cli {
    Cli {
        file: file.map(|s| s.to_string()),
        divide,
        input: input.map(|s| s.to_string()),
    }
}

#[test]
fn resolve_input_without_text_fails() {
    let c = cli(None, false, None);
    let err = c.resolve_input(None).unwrap_err();
    assert!(matches!(err, InputError::MissingInput));
    assert_eq!(err.message(), "missing input text");
}

#[test]
fn resolve_input_prefers_file_content() {
    let c = cli(Some("./sample.txt"), false, Some("ignored"));
    match c.resolve_input(Some("from file".to_string())).unwrap() {
        Input::Raw(text) => assert_eq!(text, "from file"),
        Input::Divided(_) => panic!("expected raw input"),
    }
    let c = cli(None, false, Some("I has an apple"));
    match c.resolve_input(None).unwrap() {
        Input::Raw(text) => assert_eq!(text, "I has an apple"),
        Input::Divided(_) => panic!("expected raw input"),
    }
}

#[test]
fn resolve_input_divides_when_asked() {
    let c = cli(None, true, Some("One. Two!"));
    match c.resolve_input(None).unwrap() {
        Input::Divided(parts) => assert_eq!(parts, vec!["One.", "Two!"]),
        Input::Raw(_) => panic!("expected divided input"),
    }
}

#[test]
fn split_restores_placeholders_and_drops_blank_pieces() {
    let result = split_sentences("a\u{FFFC}b. c").unwrap();
    assert_eq!(result, vec!["a.b.", "c"]);
    assert_eq!(split_sentences("   ").unwrap(), Vec::<String>::new());
    assert_eq!(split_sentences("?!  ...").unwrap(), vec!["?!", "..."]);
    assert_eq!(split_sentences("").unwrap(), Vec::<String>::new());
}

#[test]
fn split_keeps_abbreviations_in_any_case_and_unicode_text() {
    let result = split_sentences("MR. Lee paid 2.50 € for café. DR. No, e.g. i.e. etc. fine").unwrap();
    assert_eq!(result, vec!["MR. Lee paid 2.50 € for café.", "DR. No, e.g. i.e. etc. fine"]);
    let result = split_sentences("Version 1.2.3 works. Really?").unwrap();
    assert_eq!(result, vec!["Version 1.2.", "3 works.", "Really?"]);
}

#[test]
fn protect_and_cut_on_given_spans() {
    assert_eq!(protect_spans("a.b. c.", &vec![(0, 2)]), "a\u{FFFC}b. c.");
    assert_eq!(protect_spans("é.x.", &vec![(2, 4)]), "é\u{FFFC}x.");
    assert_eq!(protect_spans("a.b.", &vec![]), "a.b.");
    assert_eq!(sentences_in("One. Two", &vec![(3, 5)]), vec!["One.", "Two"]);
    assert_eq!(sentences_in("One.  ", &vec![(3, 6)]), vec!["One."]);
    assert_eq!(sentences_in("a\u{FFFC}b", &vec![]), vec!["a.b"]);
    assert_eq!(sentences_in("é. x", &vec![(2, 4), (4, 4)]), vec!["é.", "x"]);
}

#[test]
fn every_sentence_but_the_last_ends_with_a_sentence_end() {
    let result = split_sentences("Hi!! How are you??\u{3000}fine. Dr. Who is 2.5 m tall... ok").unwrap();
    assert_eq!(result, vec!["Hi!!", "How are you??", "fine.", "Dr. Who is 2.5 m tall...", "ok"]);
    for s in &result[..result.len() - 1] {
        assert!(s.ends_with('.') || s.ends_with('!') || s.ends_with('?'));
    }
    let result = split_sentences("One? Two.").unwrap();
    assert_eq!(result, vec!["One?", "Two."]);
}

#[test]
fn abbreviation_and_decimal_full_stops_never_cut() {
    let result = split_sentences("Prof. Lee wrote 3.5 pages on St. Patrick. Done.").unwrap();
    assert_eq!(result, vec!["Prof. Lee wrote 3.5 pages on St. Patrick.", "Done."]);
    let result = split_sentences("It cost 0.99 vs. 1.25 in Jan. and Feb. only! Yes").unwrap();
    assert_eq!(result, vec!["It cost 0.99 vs. 1.25 in Jan. and Feb. only!", "Yes"]);
}
