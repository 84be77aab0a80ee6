//! The Anthropic provider.

use vstd::prelude::*;
use crate::config::Config;

verus! {

/// Settings for the Anthropic API.
#[derive(Clone, Debug)]
pub struct AnthropicProvider {
    pub api_key: String,
    pub model: String,
    /// Request timeout in seconds.
    pub timeout_secs: u64,
}

impl AnthropicProvider {
    /// Built from the fallback `llm` settings.
    pub fn new(cfg: &Config) -> (r: AnthropicProvider)
        ensures
            r.api_key@ == match cfg.llm.api_key {
                Some(k) => k@,
                None => Seq::<char>::empty(),
            },
            r.model@ == cfg.llm.model@,
            r.timeout_secs == cfg.llm.timeout_secs,
    {
        AnthropicProvider {
            api_key: match &cfg.llm.api_key {
                Some(k) => k.clone(),
                None => String::new(),
            },
            model: cfg.llm.model.clone(),
            timeout_secs: cfg.llm.timeout_secs,
        }
    }
}

} // verus!
