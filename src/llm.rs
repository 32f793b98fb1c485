use vstd::prelude::*;

verus! {

/// Token counts that a text-generation provider reports.
#[derive(Debug, Clone, PartialEq, Eq)]
pub struct TokenUsage {
    pub prompt_tokens: i32,
    pub completion_tokens: i32,
    pub total_tokens: i32,
}

/// What a generation request gives back: the text, the usage, the model.
#[derive(Debug, Clone, PartialEq, Eq)]
pub struct LLMResponse {
    pub text: String,
    pub usage: Option<TokenUsage>,
    pub model: String,
}

impl LLMResponse {
    /// The response built from a provider's completion: the first choice's
    /// text (empty when there is none), the reported usage and model.
    pub fn from_completion(choices: Vec<String>, usage: TokenUsage, model: String) -> (r: LLMResponse)
        ensures
            r.text@ == if choices@.len() > 0 {
                choices@[0]@
            } else {
                Seq::<char>::empty()
            },
            r.usage == Some(usage),
            r.model == model,
    {
        let mut choices = choices;
        let text = if choices.len() > 0 {
            choices.remove(0)
        } else {
            String::new()
        };
        LLMResponse { text, usage: Some(usage), model }
    }
}

} // verus!
