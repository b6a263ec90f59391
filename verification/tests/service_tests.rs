use typo_compiler::provider::Reasoning;
use typo_compiler::service::reasoning_to_think_budget;

#[test]
fn reasoning_to_think_budget_uses_expected_percentages() {
    let max_tokens = 1000;

    assert_eq!(reasoning_to_think_budget(&Reasoning::Low, max_tokens), 150);
    assert_eq!(
        reasoning_to_think_budget(&Reasoning::Medium, max_tokens),
        250
    );
    assert_eq!(reasoning_to_think_budget(&Reasoning::High, max_tokens), 500);
    assert_eq!(
        reasoning_to_think_budget(&Reasoning::Xhigh, max_tokens),
        750
    );
}
