//! The OpenAI provider.

use vstd::prelude::*;
use crate::config::Config;
use crate::text::owned;

verus! {

/// Settings for the OpenAI API.
#[derive(Clone, Debug)]
pub struct OpenAiProvider {
    pub api_key: String,
    pub model: String,
    pub base_url: String,
    /// Request timeout in seconds.
    pub timeout_secs: u64,
}

impl OpenAiProvider {
    /// Built from the fallback `llm` settings.
    pub fn new(cfg: &Config) -> (r: OpenAiProvider)
        ensures
            r.api_key@ == match cfg.llm.api_key {
                Some(k) => k@,
                None => Seq::<char>::empty(),
            },
            r.model@ == cfg.llm.model@,
            r.base_url@ == match cfg.llm.base_url {
                Some(u) => u@,
                None => "https://api.openai.com"@,
            },
            r.timeout_secs == cfg.llm.timeout_secs,
    {
        OpenAiProvider {
            api_key: match &cfg.llm.api_key {
                Some(k) => k.clone(),
                None => String::new(),
            },
            model: cfg.llm.model.clone(),
            base_url: match &cfg.llm.base_url {
                Some(u) => u.clone(),
                None => owned("https://api.openai.com"),
            },
            timeout_secs: cfg.llm.timeout_secs,
        }
    }
}

} // verus!
