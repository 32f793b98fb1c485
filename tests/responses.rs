use better_replacements_core::{LLMResponse, TokenUsage};

fn usage() -> TokenUsage {
    TokenUsage { prompt_tokens: 3, completion_tokens: 4, total_tokens: 7 }
}

#[test]
fn response_takes_first_choice() {
    let r = LLMResponse::from_completion(
        vec!["first".to_string(), "second".to_string()],
        usage(),
        "m".to_string(),
    );
    assert_eq!(r.text, "first");
    assert_eq!(r.usage, Some(usage()));
    assert_eq!(r.model, "m");
}

#[test]
fn response_without_choices_is_empty() {
    let r = LLMResponse::from_completion(vec![], usage(), "m".to_string());
    assert_eq!(r.text, "");
}
