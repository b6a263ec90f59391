use typo_compiler::provider::{Provider, ProviderType, Reasoning};
use typo_compiler::service::{
    reasoning_to_think_budget, AnthropicContent, AnthropicResponse, AnthropicUsage, OpenAIContent,
    OpenAIOutput, OpenAIResponse, ProviderReply, RequestBody, Service, ServiceError,
    status_is_success,
};
use typo_compiler::render::{OutputRegex, SentenceStatus};

fn provider(provider_type: ProviderType, api_key: &str, reasoning: Reasoning) -> Provider {
    Provider {
        base_url: "https://api.example.com".to_string(),
        provider_type,
        api_key: api_key.to_string(),
        model: "m1".to_string(),
        reasoning,
        api_rate: 6,
    }
}

fn pairs(h: &[(String, String)]) -> Vec<(&str, &str)> {
    h.iter().map(|(a, b)| (a.as_str(), b.as_str())).collect()
}

#[test]
fn budget_edges() {
    assert_eq!(reasoning_to_think_budget(&Reasoning::Low, 0), 0);
    assert_eq!(reasoning_to_think_budget(&Reasoning::Low, 65535), 9830);
    assert_eq!(reasoning_to_think_budget(&Reasoning::Xhigh, 1), 0);
    assert_eq!(reasoning_to_think_budget(&Reasoning::Medium, 3), 0);
    assert_eq!(reasoning_to_think_budget(&Reasoning::High, 7), 3);
}

#[test]
fn openai_request_is_prepared() {
    let service = Service::new(provider(ProviderType::OpenAI, "key-1", Reasoning::High));
    let req = service.prepare("He like apples").unwrap();
    assert_eq!(req.url, "https://api.example.com/v1/responses");
    assert_eq!(
        pairs(&req.headers),
        vec![("content-type", "application/json"), ("authorization", "Bearer key-1")]
    );
    match req.body {
        RequestBody::OpenAI(b) => {
            assert_eq!(b.model, "m1");
            assert_eq!(b.reasoning.effort, Reasoning::High);
            assert!(b.instructions.starts_with("* You are an extremely strict"));
            assert!(b.instructions.ends_with("Error<AllRight>\n```"));
            assert_eq!(b.input.len(), 1);
            assert_eq!(b.input[0].role, "user");
            assert_eq!(b.input[0].content, "He like apples");
        }
        RequestBody::Anthropic(_) => panic!("expected an OpenAI body"),
    }
}

#[test]
fn anthropic_request_is_prepared() {
    let service = Service::new(provider(ProviderType::Anthropic, "key-2", Reasoning::Medium));
    let req = service.prepare("I is hapy").unwrap();
    assert_eq!(req.url, "https://api.example.com/v1/messages");
    assert_eq!(
        pairs(&req.headers),
        vec![
            ("content-type", "application/json"),
            ("x-api-key", "key-2"),
            ("anthropic-version", "2023-06-01")
        ]
    );
    match req.body {
        RequestBody::Anthropic(b) => {
            assert_eq!(b.max_tokens, 65535);
            assert_eq!(b.thinking.mode, "enabled");
            assert_eq!(b.thinking.think_budget, 16383);
            assert_eq!(b.messages[0].content, "I is hapy");
            assert!(b.system.starts_with("* You are"));
        }
        RequestBody::OpenAI(_) => panic!("expected an Anthropic body"),
    }
}

#[test]
fn invalid_keys_are_refused() {
    let service = Service::new(provider(ProviderType::OpenAI, "bad\nkey", Reasoning::Low));
    match service.prepare("x") {
        Err(e) => {
            assert!(matches!(&e, ServiceError::InvalidHeader { header, .. } if header == "authorization"));
            assert_eq!(e.message(), "invalid authorization header: failed to parse header value");
        }
        Ok(_) => panic!("a key with a line feed must be refused"),
    }
    let service = Service::new(provider(ProviderType::Anthropic, "del\u{7f}", Reasoning::Low));
    match service.prepare("x") {
        Err(e) => assert_eq!(e.message(), "invalid x-api-key header: failed to parse header value"),
        Ok(_) => panic!("a key with DEL must be refused"),
    }
    let service = Service::new(provider(ProviderType::Anthropic, "tab\tand é", Reasoning::Low));
    assert!(service.prepare("x").is_ok());
}

#[test]
fn failures_and_replies_read_as_text() {
    let service = Service::new(provider(ProviderType::OpenAI, "k", Reasoning::Low));
    assert_eq!(
        service.request_failure("404 Not Found", "nope").message(),
        "openai request failed: status=404 Not Found, body=nope"
    );
    let reply = OpenAIResponse {
        id: "r".to_string(),
        output: vec![
            OpenAIOutput { content: vec![] },
            OpenAIOutput {
                content: vec![
                    OpenAIContent { text: "Error<GrammarError>".to_string(), annotations: vec![] },
                    OpenAIContent { text: "  \n".to_string(), annotations: vec![] },
                ],
            },
            OpenAIOutput {
                content: vec![OpenAIContent { text: "Fix<x>".to_string(), annotations: vec![] }],
            },
        ],
    };
    assert_eq!(service.reply_text(ProviderReply::OpenAI(reply)), "Error<GrammarError>\nFix<x>");

    let anthropic = Service::new(provider(ProviderType::Anthropic, "k", Reasoning::Low));
    assert_eq!(
        anthropic.request_failure("500 Internal Server Error", "").message(),
        "anthropic request failed: status=500 Internal Server Error, body="
    );
    let reply = AnthropicResponse {
        id: "a".to_string(),
        response_type: "message".to_string(),
        role: "assistant".to_string(),
        content: vec![
            AnthropicContent { content_type: "thinking".to_string(), text: " ".to_string() },
            AnthropicContent { content_type: "text".to_string(), text: "Error<AllRight>".to_string() },
        ],
        model: "m".to_string(),
        stop_reason: "end_turn".to_string(),
        usage: AnthropicUsage { input_tokens: 1, output_tokens: 2 },
    };
    assert_eq!(anthropic.reply_text(ProviderReply::Anthropic(reply)), "Error<AllRight>");
    let empty = AnthropicResponse {
        id: "a".to_string(),
        response_type: "message".to_string(),
        role: "assistant".to_string(),
        content: vec![],
        model: "m".to_string(),
        stop_reason: "end_turn".to_string(),
        usage: AnthropicUsage { input_tokens: 0, output_tokens: 0 },
    };
    assert_eq!(anthropic.reply_text(ProviderReply::Anthropic(empty)), "");
}

#[test]
fn instructions_ask_for_the_lines_that_are_read_back() {
    let service = Service::new(provider(ProviderType::Anthropic, "key-3", Reasoning::Low));
    let instructions = match service.prepare("x").unwrap().body {
        RequestBody::Anthropic(b) => b.system,
        RequestBody::OpenAI(_) => panic!("expected an Anthropic body"),
    };
    assert!(instructions.contains("Error<ErrorType>\nFix<Correction>\nExplain<Short explanation>"));
    assert!(!instructions.contains("Ok<"));

    // The example answers of the instructions parse into items with their corrections.
    let parser = OutputRegex::new().unwrap();
    let examples: Vec<&str> = instructions
        .split("Output:\n```\n")
        .skip(1)
        .map(|rest| rest.split("\n```").next().unwrap())
        .collect();
    assert_eq!(examples.len(), 3);
    let first = parser.parse_items(examples[0]);
    assert_eq!(first.len(), 1);
    assert_eq!(first[0].status, SentenceStatus::GrammarError);
    assert_eq!(first[0].fix.as_deref(), Some("He likes apples"));
    assert_eq!(first[0].explain.as_deref(), Some("Subject-verb agreement"));
    let second = parser.parse_items(examples[1]);
    assert_eq!(second.len(), 2);
    assert_eq!(second[0].status, SentenceStatus::SpellingError);
    assert_eq!(second[0].fix.as_deref(), Some("hapy -> happy"));
    assert_eq!(second[1].fix.as_deref(), Some("I am happy"));
    let third = parser.parse_items(examples[2]);
    assert_eq!(third.len(), 1);
    assert_eq!(third[0].status, SentenceStatus::AllRight);
}

#[test]
fn only_2xx_statuses_are_successes() {
    assert!(status_is_success(200));
    assert!(status_is_success(204));
    assert!(status_is_success(299));
    assert!(!status_is_success(199));
    assert!(!status_is_success(300));
    assert!(!status_is_success(404));
    assert!(!status_is_success(500));
}
