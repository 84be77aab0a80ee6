//! The Ollama provider.

use vstd::prelude::*;
use crate::config::LlmConfig;
use crate::text::owned;

verus! {

/// Settings for an Ollama server.
#[derive(Clone, Debug)]
pub struct OllamaProvider {
    pub base_url: String,
    pub model: String,
    /// Request timeout in seconds.
    pub timeout_secs: u64,
}

impl OllamaProvider {
    pub fn new(cfg: &LlmConfig) -> (r: OllamaProvider)
        ensures
            r.model@ == cfg.model@,
            r.base_url@ == match cfg.base_url {
                Some(u) => u@,
                None => "http://localhost:11434"@,
            },
            r.timeout_secs == cfg.timeout_secs,
    {
        OllamaProvider {
            base_url: match &cfg.base_url {
                Some(u) => u.clone(),
                None => owned("http://localhost:11434"),
            },
            model: cfg.model.clone(),
            timeout_secs: cfg.timeout_secs,
        }
    }
}

} // verus!
