use typo_compiler::render::{CompilerOutput, OutputItem, OutputRegex, Render, SentenceStatus};

fn item(status: SentenceStatus, fix: Option<&str>, explain: Option<&str>) -> OutputItem {
    OutputItem {
        status,
        fix: fix.map(|s| s.to_string()),
        explain: explain.map(|s| s.to_string()),
    }
}

#[test]
fn grammar_error_renders_exact_block() {
    let renderer = Render::new();
    let output = CompilerOutput::new(
        "He like apples",
        vec![item(SentenceStatus::GrammarError, Some("  He likes apples "), Some(" Subject-verb agreement "))],
    );
    let rendered = renderer.render_compiler_output(&output).unwrap();
    let expected = "\x1b[91merror[GrammarError]:\x1b[0m Subject-verb agreement\n --> <input>:1:1\n  |\n1 | \x1b[91mHe like apples\x1b[0m\n  | \x1b[91m\x1b[91m~~~\x1b[0m\x1b[0m\n\x1b[92mhelp:\x1b[0m \x1b[92mHe likes apples\x1b[0m\n\x1b[96mnote:\x1b[0m \x1b[96m Subject-verb agreement \x1b[0m\n\n\x1b[91merror:\x1b[0m aborting due to 1 previous errors";
    assert_eq!(rendered, expected);
}

#[test]
fn spelling_column_counts_bytes() {
    let renderer = Render::new();
    let output = CompilerOutput::new(
        "café vrey good",
        vec![item(SentenceStatus::SpellingError, Some("vrey->very"), None)],
    );
    let rendered = renderer.render_compiler_output(&output).unwrap();
    assert!(rendered.contains(" --> <input>:1:7\n"));
    assert!(rendered.contains("  | \x1b[91m      ^^^\x1b[0m\n"));
    assert!(rendered.contains("1 | café \x1b[91mvrey\x1b[0m good\n"));
    assert!(rendered.contains("error[SpellingError]:\x1b[0m spelling issue detected\n"));
}

#[test]
fn spelling_points_at_first_occurrence() {
    let renderer = Render::new();
    let output = CompilerOutput::new(
        "teh cat and teh dog",
        vec![item(SentenceStatus::SpellingError, Some("teh -> the"), Some("   "))],
    );
    let rendered = renderer.render_compiler_output(&output).unwrap();
    assert!(rendered.contains(" --> <input>:1:1\n"));
    assert!(rendered.contains("1 | \x1b[91mteh\x1b[0m cat and teh dog"));
    assert!(rendered.contains("spelling issue detected"));
}

#[test]
fn spelling_without_match_or_arrow_renders_nothing() {
    let renderer = Render::new();
    let missing = CompilerOutput::new(
        "I am here",
        vec![item(SentenceStatus::SpellingError, Some("vrey -> very"), None)],
    );
    assert_eq!(renderer.render_compiler_output(&missing), None);
    let no_arrow = CompilerOutput::new(
        "vrey good",
        vec![item(SentenceStatus::SpellingError, Some("vrey very"), None)],
    );
    assert_eq!(renderer.render_compiler_output(&no_arrow), None);
    let empty_side = CompilerOutput::new(
        "vrey good",
        vec![item(SentenceStatus::SpellingError, Some("vrey ->  "), None)],
    );
    assert_eq!(renderer.render_compiler_output(&empty_side), None);
}

#[test]
fn mistakes_without_fix_render_nothing() {
    let renderer = Render::new();
    let output = CompilerOutput::new(
        "He like apples",
        vec![
            item(SentenceStatus::GrammarError, None, Some("x")),
            item(SentenceStatus::TenseError, Some("   "), None),
        ],
    );
    assert_eq!(renderer.render_compiler_output(&output), None);
    let nothing = CompilerOutput::new("He like apples", vec![]);
    assert_eq!(renderer.render_compiler_output(&nothing), None);
}

#[test]
fn all_right_overrides_other_mistakes() {
    let renderer = Render::new();
    let output = CompilerOutput::new(
        "vrey good",
        vec![
            item(SentenceStatus::SpellingError, Some("vrey -> very"), None),
            item(SentenceStatus::AllRight, None, None),
        ],
    );
    assert_eq!(
        renderer.render_compiler_output(&output),
        Some("\x1b[92mFinished:\x1b[0m 0 errors found".to_string())
    );
}

#[test]
fn render_item_only_renders_all_right() {
    let renderer = Render::new();
    assert_eq!(renderer.render_item(&item(SentenceStatus::GrammarError, Some("x"), None)), None);
    assert_eq!(renderer.render_all_right(), "\x1b[92mCongratulations, all right!\x1b[0m");
}

#[test]
fn word_choice_defaults_and_syntax_tense_colors() {
    let renderer = Render::new();
    let output = CompilerOutput::new(
        "I do homework",
        vec![
            item(SentenceStatus::WordChoiceError, Some("I do my homework"), None),
            item(SentenceStatus::SyntaxError, Some("Homework I do"), None),
            item(SentenceStatus::TenseError, Some("I did homework"), Some("")),
        ],
    );
    let rendered = renderer.render_compiler_output(&output).unwrap();
    assert!(rendered.contains("error[WordChoiceError]:\x1b[0m word choice is not idiomatic\n"));
    assert!(rendered.contains("\x1b[96mUse more natural wording\x1b[0m"));
    assert!(rendered.contains("error[SyntaxError]:\x1b[0m sentence structure can be improved\n"));
    assert!(rendered.contains("\x1b[96mReview this sentence.\x1b[0m"));
    assert!(rendered.contains("error[TenseError]:\x1b[0m sentence structure can be improved\n"));
    assert!(rendered.contains("\x1b[96mnote:\x1b[0m \x1b[96m\x1b[0m"));
    assert!(rendered.ends_with("aborting due to 3 previous errors"));
    assert_eq!(rendered.matches("\n\n").count(), 3);
}

#[test]
fn parse_items_reads_groups_and_skips_unknown() {
    let parser = OutputRegex::new().unwrap();
    let text = "  Error<AllRight>  \r\nnoise\nError<Unknown>\nFix<a>\nExplain<b>\nError<TenseError>\nFix<I went>\n";
    let items = parser.parse_items(text);
    assert_eq!(items.len(), 2);
    assert_eq!(items[0], item(SentenceStatus::AllRight, None, None));
    assert_eq!(items[1], item(SentenceStatus::TenseError, Some("I went"), None));
}

#[test]
fn parse_items_keeps_missing_fields_empty() {
    let parser = OutputRegex::new().unwrap();
    let items = parser.parse_items("Error<GrammarError>\nOk<He likes apples>\nExplain<>");
    assert_eq!(items, vec![item(SentenceStatus::GrammarError, None, Some(""))]);
    let items = parser.parse_items("Error<>\nError<Grammar>Error>");
    assert!(items.is_empty());
}

#[test]
fn parsing_an_answer_gives_back_its_mistakes() {
    let parser = OutputRegex::new().unwrap();
    let text = "Error<SpellingError>\nFix<hapy -> happy>\nExplain<Spelling mistake>\nError<AllRight>\nError<GrammarError>\nFix<I am <very> happy>\nExplain<Wrong verb form>";
    let items = parser.parse_items(text);
    assert_eq!(
        items,
        vec![
            item(SentenceStatus::SpellingError, Some("hapy -> happy"), Some("Spelling mistake")),
            item(SentenceStatus::AllRight, None, None),
            item(SentenceStatus::GrammarError, Some("I am <very> happy"), Some("Wrong verb form")),
        ]
    );
    assert_eq!(parser.collect_errors(text), vec!["SpellingError", "AllRight", "GrammarError"]);
    assert_eq!(parser.collect_fixes(text), vec!["hapy -> happy", "I am <very> happy"]);
    assert_eq!(parser.collect_explains(text), vec!["Spelling mistake", "Wrong verb form"]);
}
