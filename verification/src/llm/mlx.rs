//! The MLX provider (an OpenAI-compatible local server).

use vstd::prelude::*;
use crate::config::LlmConfig;
use crate::text::owned;
use super::{system_prompt, system_prompt_text, EnrichmentRequest};

verus! {

/// Settings for the MLX server.
#[derive(Clone, Debug)]
pub struct MlxProvider {
    pub model: String,
    pub base_url: String,
    /// Request timeout in seconds.
    pub timeout_secs: u64,
}

impl MlxProvider {
    pub fn new(cfg: &LlmConfig) -> (r: MlxProvider)
        ensures
            r.model@ == cfg.model@,
            r.base_url@ == match cfg.base_url {
                Some(u) => u@,
                None => "http://localhost:8080"@,
            },
            r.timeout_secs == cfg.timeout_secs,
    {
        MlxProvider {
            model: cfg.model.clone(),
            base_url: match &cfg.base_url {
                Some(u) => u.clone(),
                None => owned("http://localhost:8080"),
            },
            timeout_secs: cfg.timeout_secs,
        }
    }
}

/// The shared system prompt with the reply's JSON shape spelled out, for
/// models without structured-output support.
pub open spec fn mlx_system_prompt_text(req: EnrichmentRequest) -> Seq<char> {
    system_prompt_text(req) + "\n\nRespond ONLY with a JSON object that exactly matches this schema — no extra text:\n"@ + "{\n  \"priority\": \"H\" | \"M\" | \"L\" | null,\n  \"due\": \"<ISO date or relative string>\" | null,\n  \"tags\": [\"<tag>\"],\n  \"suggested_dependencies\": [\"<task-id-prefix>\"],\n  \"description_suggestion\": \"<cleaned description>\" | null\n}"@
}

pub fn mlx_system_prompt(req: &EnrichmentRequest) -> (r: String)
    ensures
        r@ == mlx_system_prompt_text(*req),
{
    let mut s = system_prompt(req);
    s.append("\n\nRespond ONLY with a JSON object that exactly matches this schema — no extra text:\n");
    s.append("{\n  \"priority\": \"H\" | \"M\" | \"L\" | null,\n  \"due\": \"<ISO date or relative string>\" | null,\n  \"tags\": [\"<tag>\"],\n  \"suggested_dependencies\": [\"<task-id-prefix>\"],\n  \"description_suggestion\": \"<cleaned description>\" | null\n}");
    s
}

} // verus!
