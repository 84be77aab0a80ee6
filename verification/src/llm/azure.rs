//! The Azure OpenAI provider.

use vstd::prelude::*;
use crate::config::LlmConfig;
use crate::text::{has_prefix, owned, starts_with};

verus! {

/// Settings for an Azure OpenAI deployment.
#[derive(Clone, Debug)]
pub struct AzureOpenAiProvider {
    pub api_key: String,
    /// e.g. `https://my-resource.openai.azure.com`
    pub base_url: String,
    /// The deployment name (usually the model alias, e.g. `gpt-4o`).
    pub deployment: String,
    pub api_version: String,
    /// Request timeout in seconds.
    pub timeout_secs: u64,
}

/// The endpoint a configured resource stands for: a full URL is kept, a bare
/// resource name becomes `https://{name}.openai.azure.com`.
pub open spec fn azure_base(resource: Seq<char>) -> Seq<char> {
    if has_prefix(resource, "http"@) {
        resource
    } else {
        "https://"@ + resource + ".openai.azure.com"@
    }
}

impl AzureOpenAiProvider {
    pub fn new(cfg: &LlmConfig) -> (r: AzureOpenAiProvider)
        ensures
            r.api_key@ == match cfg.api_key {
                Some(k) => k@,
                None => Seq::<char>::empty(),
            },
            r.base_url@ == azure_base(
                match cfg.base_url {
                    Some(u) => u@,
                    None => "https://my-resource.openai.azure.com"@,
                },
            ),
            r.deployment@ == cfg.model@,
            r.api_version@ == "2024-08-01-preview"@,
            r.timeout_secs == cfg.timeout_secs,
    {
        let resource = match &cfg.base_url {
            Some(u) => u.clone(),
            None => owned("https://my-resource.openai.azure.com"),
        };
        let base_url = if starts_with(resource.as_str(), "http") {
            resource
        } else {
            let mut b = owned("https://");
            b.append(resource.as_str());
            b.append(".openai.azure.com");
            b
        };
        AzureOpenAiProvider {
            api_key: match &cfg.api_key {
                Some(k) => k.clone(),
                None => String::new(),
            },
            base_url,
            deployment: cfg.model.clone(),
            api_version: owned("2024-08-01-preview"),
            timeout_secs: cfg.timeout_secs,
        }
    }
}

} // verus!
