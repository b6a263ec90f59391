use typo_compiler::render::{CompilerOutput, OutputItem, OutputRegex, Render, SentenceStatus};

#[test]
fn collect_fields_from_ai_output() {
    let text = r#"Error<SpellingError>
Fix<vrey -> very>
Explain<Spelling mistake>
Error<WordChoiceError>
Fix<I hate apples very much>
Explain<\"apple\" should be plural \"apples\" when referring to the fruit in general>"#;

    let parser = OutputRegex::new().expect("regex must compile");

    let errors = parser.collect_errors(text);
    let fixes = parser.collect_fixes(text);
    let explains = parser.collect_explains(text);

    assert_eq!(errors, vec!["SpellingError", "WordChoiceError"]);
    assert_eq!(fixes, vec!["vrey -> very", "I hate apples very much"]);
    assert_eq!(
        explains,
        vec![
            "Spelling mistake",
            "\\\"apple\\\" should be plural \\\"apples\\\" when referring to the fruit in general"
        ]
    );
}

#[test]
fn parse_structured_items() {
    let text = r#"Error<SpellingError>
Fix<vrey -> very>
Explain<Spelling mistake>
Error<WordChoiceError>
Fix<I hate apples very much>
Explain<Use plural noun in this context>"#;

    let parser = OutputRegex::new().expect("regex must compile");
    let items = parser.parse_items(text);

    assert_eq!(items.len(), 2);
    assert_eq!(items[0].status, SentenceStatus::SpellingError);
    assert_eq!(items[0].fix.as_deref(), Some("vrey -> very"));
    assert_eq!(items[1].status, SentenceStatus::WordChoiceError);
    assert_eq!(
        items[1].explain.as_deref(),
        Some("Use plural noun in this context")
    );
}

#[test]
fn render_all_right_in_bright_green() {
    let renderer = Render::new();
    let item = OutputItem {
        status: SentenceStatus::AllRight,
        fix: None,
        explain: None,
    };

    let output = renderer.render_item(&item).expect("must render all-right");

    assert_eq!(output, "\x1b[92mCongratulations, all right!\x1b[0m");
}

#[test]
fn render_spelling_error_compiler_style() {
    let renderer = Render::new();
    let output = CompilerOutput::new(
        "I hate apple vrey much",
        vec![OutputItem {
            status: SentenceStatus::SpellingError,
            fix: Some("vrey -> very".to_string()),
            explain: Some("Spelling mistake".to_string()),
        }],
    );

    let rendered = renderer
        .render_compiler_output(&output)
        .expect("must render spelling error");

    assert!(rendered.contains("error[SpellingError]:"));
    assert!(rendered.contains(" --> <input>:1:14"));
    assert!(rendered.contains("1 | I hate apple \x1b[91mvrey\x1b[0m much"));
    assert!(rendered.contains("^^^"));
    assert!(rendered.contains("help:"));
    assert!(rendered.contains("Do you mean \"very\"?"));
    assert!(rendered.contains("note:"));
    assert!(rendered.contains("this looks like a typo"));
    assert!(rendered.contains("aborting due to 1 previous errors"));
}

#[test]
fn render_multiple_spelling_errors() {
    let renderer = Render::new();
    let output = CompilerOutput::new(
        "vrey good and hapy",
        vec![
            OutputItem {
                status: SentenceStatus::SpellingError,
                fix: Some("vrey -> very".to_string()),
                explain: Some("Spelling mistake".to_string()),
            },
            OutputItem {
                status: SentenceStatus::SpellingError,
                fix: Some("hapy -> happy".to_string()),
                explain: Some("Spelling mistake".to_string()),
            },
        ],
    );

    let rendered = renderer
        .render_compiler_output(&output)
        .expect("must render spelling errors");

    assert!(rendered.contains("error[SpellingError]:"));
    assert!(rendered.contains("1 | \x1b[91mvrey\x1b[0m good and hapy"));
    assert!(rendered.contains("1 | vrey good and \x1b[91mhapy\x1b[0m"));
    assert!(rendered.contains("Do you mean \"very\"?"));
    assert!(rendered.contains("Do you mean \"happy\"?"));
    assert!(rendered.contains("aborting due to 2 previous errors"));
}

#[test]
fn render_word_choice_error_with_colored_sentences() {
    let renderer = Render::new();
    let output = CompilerOutput::new(
        "I hate apple very much",
        vec![OutputItem {
            status: SentenceStatus::WordChoiceError,
            fix: Some("I hate apples very much".to_string()),
            explain: Some("Use plural noun for fruit in general".to_string()),
        }],
    );

    let rendered = renderer
        .render_compiler_output(&output)
        .expect("must render word choice error");

    assert!(rendered.contains("error[WordChoiceError]:"));
    assert!(rendered.contains("1 | \x1b[93mI hate apple very much\x1b[0m"));
    assert!(rendered.contains("help:"));
    assert!(rendered.contains("help:"));
    assert!(rendered.contains("I hate apples very much"));
    assert!(rendered.contains("note:"));
    assert!(rendered.contains("Use plural noun for fruit in general"));
}

#[test]
fn render_grammar_error_with_red_green_cyan() {
    let renderer = Render::new();
    let output = CompilerOutput::new(
        "He like apples",
        vec![OutputItem {
            status: SentenceStatus::GrammarError,
            fix: Some("He likes apples".to_string()),
            explain: Some("Subject-verb agreement".to_string()),
        }],
    );

    let rendered = renderer
        .render_compiler_output(&output)
        .expect("must render grammar error");

    assert!(rendered.contains("error[GrammarError]:"));
    assert!(rendered.contains("1 | \x1b[91mHe like apples\x1b[0m"));
    assert!(rendered.contains("help:"));
    assert!(rendered.contains("help:"));
    assert!(rendered.contains("He likes apples"));
    assert!(rendered.contains("note:"));
    assert!(rendered.contains("Subject-verb agreement"));
}

#[test]
fn render_all_right_summary_for_compiler_output() {
    let renderer = Render::new();
    let output = CompilerOutput::new(
        "I am happy",
        vec![OutputItem {
            status: SentenceStatus::AllRight,
            fix: None,
            explain: None,
        }],
    );

    let rendered = renderer
        .render_compiler_output(&output)
        .expect("must render all-right summary");

    assert!(rendered.contains("Finished:"));
    assert!(rendered.contains("0 errors found"));
}
