//! Configuration: the LLM and embeddings settings and the choices derived
//! from them, and where the files live.

use vstd::prelude::*;
use crate::text::{owned, str_eq};

verus! {

/// Settings of one LLM provider profile.
#[derive(Clone, Debug)]
pub struct LlmConfig {
    pub provider: String,
    pub model: String,
    pub base_url: Option<String>,
    pub api_key: Option<String>,
    /// Request timeout in seconds.
    pub timeout_secs: u64,
}

impl Default for LlmConfig {
    fn default() -> (r: LlmConfig)
        ensures
            r.provider@ == "ollama"@,
            r.model@ == "qwen2.5"@,
            r.base_url is None,
            r.api_key is None,
            r.timeout_secs == 60,
    {
        LlmConfig {
            provider: owned("ollama"),
            model: owned("qwen2.5"),
            base_url: None,
            api_key: None,
            timeout_secs: 60,
        }
    }
}

/// Embeddings provider settings.
#[derive(Clone, Debug)]
pub struct EmbeddingsConfig {
    pub provider: String,
    pub model: String,
    pub base_url: Option<String>,
}

impl Default for EmbeddingsConfig {
    fn default() -> (r: EmbeddingsConfig)
        ensures
            r.provider@ == "ollama"@,
            r.model@ == "nomic-embed-text"@,
            r.base_url is None,
    {
        EmbeddingsConfig {
            provider: owned("ollama"),
            model: owned("nomic-embed-text"),
            base_url: None,
        }
    }
}

/// The settings the library's choices depend on (the urgency weights, which
/// are real numbers, are kept beside it by the program).
#[derive(Clone, Debug)]
pub struct Config {
    pub default_project: String,
    pub date_dialect: String,
    /// Active named provider (overrides `llm` when set).
    pub active_provider: Option<String>,
    /// Named provider profiles, each name once.
    pub providers: Vec<(String, LlmConfig)>,
    /// Fallback LLM settings.
    pub llm: LlmConfig,
    /// Absolute path to Sara's private knowledge store.
    pub vault_path: Option<String>,
    pub embeddings: EmbeddingsConfig,
}

impl Default for Config {
    fn default() -> (r: Config)
        ensures
            r.default_project@ == "inbox"@,
            r.date_dialect@ == "uk"@,
            r.active_provider is None,
            r.providers@.len() == 0,
            r.llm.provider@ == "ollama"@,
            r.llm.model@ == "qwen2.5"@,
            r.llm.timeout_secs == 60,
            r.vault_path is None,
            r.embeddings.provider@ == "ollama"@,
            r.embeddings.model@ == "nomic-embed-text"@,
    {
        Config {
            default_project: owned("inbox"),
            date_dialect: owned("uk"),
            active_provider: None,
            providers: Vec::new(),
            llm: LlmConfig::default(),
            vault_path: None,
            embeddings: EmbeddingsConfig::default(),
        }
    }
}

/// Position of the first profile named `name`.
pub open spec fn profile_index(providers: Seq<(String, LlmConfig)>, name: Seq<char>) -> Option<int> {
    if exists|i: int| 0 <= i < providers.len() && (#[trigger] providers[i]).0@ == name {
        Some(
            choose|i: int|
                0 <= i < providers.len() && (#[trigger] providers[i]).0@ == name && forall|j: int|
                    0 <= j < i ==> providers[j].0@ != name,
        )
    } else {
        None
    }
}

/// The profile in effect: the active named profile when it exists, else
/// the fallback settings.
pub open spec fn effective(c: Config) -> LlmConfig {
    match c.active_provider {
        Some(name) => match profile_index(c.providers@, name@) {
            Some(i) => c.providers@[i].1,
            None => c.llm,
        },
        None => c.llm,
    }
}

pub open spec fn embeddings_default(c: Config) -> bool {
    c.embeddings.provider@ == "ollama"@ && c.embeddings.model@ == "nomic-embed-text"@
}

/// Embeddings follow the active LLM (Azure or OpenAI) while their own
/// settings are untouched.
pub open spec fn embeddings_provider_of(c: Config) -> Seq<char> {
    if !embeddings_default(c) {
        c.embeddings.provider@
    } else if effective(c).provider@ == "azure"@ || effective(c).provider@ == "azure_openai"@ {
        "azure"@
    } else if effective(c).provider@ == "openai"@ {
        "openai"@
    } else {
        c.embeddings.provider@
    }
}

pub open spec fn embeddings_model_of(c: Config) -> Seq<char> {
    if embeddings_default(c) && (embeddings_provider_of(c) == "azure"@ || embeddings_provider_of(c)
        == "azure_openai"@ || embeddings_provider_of(c) == "openai"@) {
        "text-embedding-3-small"@
    } else {
        c.embeddings.model@
    }
}

impl Config {
    /// The effective LLM config: the active named profile if set, else `llm`.
    pub fn effective_llm(&self) -> (r: &LlmConfig)
        ensures
            *r == effective(*self),
    {
        match &self.active_provider {
            Some(name) => {
                let mut i: usize = 0;
                while i < self.providers.len()
                    invariant
                        i <= self.providers@.len(),
                        self.active_provider == Some(*name),
                        forall|j: int| 0 <= j < i ==> self.providers@[j].0@ != name@,
                    decreases self.providers@.len() - i,
                {
                    if str_eq(self.providers[i].0.as_str(), name.as_str()) {
                        proof {
                            assert((self.providers@[i as int]).0@ == name@);
                            let k = choose|k: int|
                                0 <= k < self.providers@.len() && (#[trigger] self.providers@[k]).0@
                                    == name@ && forall|j: int|
                                    0 <= j < k ==> self.providers@[j].0@ != name@;
                            assert(k == i);
                            assert(profile_index(self.providers@, name@) == Some(i as int));
                            assert(self.active_provider == Some(*name));
                            assert(effective(*self) == self.providers@[i as int].1);
                        }
                        return &self.providers[i].1;
                    }
                    i = i + 1;
                }
                proof {
                    assert(!exists|k: int|
                        0 <= k < self.providers@.len() && (#[trigger] self.providers@[k]).0@
                            == name@);
                }
                &self.llm
            },
            None => &self.llm,
        }
    }

    /// True when the embeddings settings were never customized.
    pub fn embeddings_at_default(&self) -> (r: bool)
        ensures
            r == embeddings_default(*self),
    {
        str_eq(self.embeddings.provider.as_str(), "ollama") && str_eq(
            self.embeddings.model.as_str(),
            "nomic-embed-text",
        )
    }

    /// The embeddings provider, inheriting the active LLM's when the
    /// embeddings settings are still the defaults.
    pub fn effective_embeddings_provider(&self) -> (r: String)
        ensures
            r@ == embeddings_provider_of(*self),
    {
        if !self.embeddings_at_default() {
            return self.embeddings.provider.clone();
        }
        let p = self.effective_llm().provider.as_str();
        if str_eq(p, "azure") || str_eq(p, "azure_openai") {
            owned("azure")
        } else if str_eq(p, "openai") {
            owned("openai")
        } else {
            self.embeddings.provider.clone()
        }
    }

    /// The model (deployment) name for embeddings calls.
    pub fn effective_embeddings_model(&self) -> (r: String)
        ensures
            r@ == embeddings_model_of(*self),
    {
        if self.embeddings_at_default() {
            let p = self.effective_embeddings_provider();
            if str_eq(p.as_str(), "azure") || str_eq(p.as_str(), "azure_openai") || str_eq(
                p.as_str(),
                "openai",
            ) {
                return owned("text-embedding-3-small");
            }
        }
        self.embeddings.model.clone()
    }
}

// ── named profiles ────────────────────────────────────────────────────────

/// Every profile name occurs once.
pub open spec fn names_unique(providers: Seq<(String, LlmConfig)>) -> bool {
    forall|i: int, j: int|
        0 <= i < j < providers.len() ==> (#[trigger] providers[i]).0@ != (#[trigger] providers[j]).0@
}

/// Position of the profile named `name`, if any.
fn find_profile(providers: &Vec<(String, LlmConfig)>, name: &str) -> (r: Option<usize>)
    ensures
        match r {
            Some(i) => profile_index(providers@, name@) == Some(i as int) && i < providers@.len(),
            None => profile_index(providers@, name@) is None,
        },
{
    let mut i: usize = 0;
    while i < providers.len()
        invariant
            i <= providers@.len(),
            forall|j: int| 0 <= j < i ==> providers@[j].0@ != name@,
        decreases providers@.len() - i,
    {
        if str_eq(providers[i].0.as_str(), name) {
            proof {
                assert((providers@[i as int]).0@ == name@);
                let k = choose|k: int|
                    0 <= k < providers@.len() && (#[trigger] providers@[k]).0@ == name@ && forall|j: int|
                        0 <= j < k ==> providers@[j].0@ != name@;
                assert(k == i);
            }
            return Some(i);
        }
        i = i + 1;
    }
    None
}

impl Config {
    /// Switch to the named profile, or back to the fallback settings for
    /// `default`. False, with nothing changed, when no profile has that
    /// name; the profiles themselves never change.
    pub fn use_profile(&mut self, name: &str) -> (r: bool)
        ensures
            r == (name@ == "default"@ || profile_index(old(self).providers@, name@) is Some),
            r && name@ == "default"@ ==> final(self).active_provider is None,
            r && name@ != "default"@ ==> (final(self).active_provider matches Some(a) && a@ == name@),
            !r ==> *final(self) == *old(self),
            final(self).providers == old(self).providers,
            final(self).llm == old(self).llm,
            final(self).default_project == old(self).default_project,
            final(self).date_dialect == old(self).date_dialect,
            final(self).vault_path == old(self).vault_path,
            final(self).embeddings == old(self).embeddings,
    {
        proof {
            reveal_strlit("default");
        }
        if str_eq(name, "default") {
            self.active_provider = None;
            return true;
        }
        match find_profile(&self.providers, name) {
            Some(_) => {
                self.active_provider = Some(owned(name));
                true
            },
            None => false,
        }
    }

    /// Add a named profile, replacing one of the same name in place, and
    /// make it the active one.
    pub fn add_profile(&mut self, name: String, llm: LlmConfig)
        ensures
            final(self).providers@ == match profile_index(old(self).providers@, name@) {
                Some(i) => old(self).providers@.update(i, (name, llm)),
                None => old(self).providers@.push((name, llm)),
            },
            final(self).active_provider == Some(name),
            names_unique(old(self).providers@) ==> names_unique(final(self).providers@),
            final(self).llm == old(self).llm,
            final(self).default_project == old(self).default_project,
            final(self).date_dialect == old(self).date_dialect,
            final(self).vault_path == old(self).vault_path,
            final(self).embeddings == old(self).embeddings,
    {
        let ghost before = self.providers@;
        let active = name.clone();
        match find_profile(&self.providers, name.as_str()) {
            Some(i) => {
                self.providers.set(i, (name, llm));
                proof {
                    assert forall|a: int, b: int|
                        names_unique(before) && 0 <= a < b < self.providers@.len() implies
                        (#[trigger] self.providers@[a]).0@ != (#[trigger] self.providers@[b]).0@ by {
                        assert(before[i as int].0@ == self.providers@[i as int].0@);
                        if a != i && b != i {
                            assert(before[a] == self.providers@[a] && before[b] == self.providers@[b]);
                        } else if a == i {
                            assert(before[b] == self.providers@[b]);
                            assert(before[a].0@ != before[b].0@);
                        } else {
                            assert(before[a] == self.providers@[a]);
                            assert(before[a].0@ != before[b].0@);
                        }
                    }
                }
            },
            None => {
                self.providers.push((name, llm));
                proof {
                    assert forall|a: int, b: int|
                        names_unique(before) && 0 <= a < b < self.providers@.len() implies
                        (#[trigger] self.providers@[a]).0@ != (#[trigger] self.providers@[b]).0@ by {
                        if b == before.len() {
                            assert(self.providers@[a] == before[a]);
                            assert(!(0 <= a < before.len() && before[a].0@ == self.providers@[b].0@));
                        } else {
                            assert(self.providers@[a] == before[a] && self.providers@[b] == before[b]);
                        }
                    }
                }
            },
        }
        self.active_provider = Some(active);
    }

    /// Remove the named profile. `None`, with nothing changed, when there
    /// is none; else whether it was the active one, in which case the
    /// fallback settings become active again.
    pub fn remove_profile(&mut self, name: &str) -> (r: Option<bool>)
        ensures
            match profile_index(old(self).providers@, name@) {
                None => r is None && *final(self) == *old(self),
                Some(i) => {
                    &&& final(self).providers@ == old(self).providers@.remove(i)
                    &&& r == Some((old(self).active_provider matches Some(a) && a@ == name@))
                    &&& final(self).active_provider == if r == Some(true) {
                        None
                    } else {
                        old(self).active_provider
                    }
                },
            },
            final(self).llm == old(self).llm,
            final(self).default_project == old(self).default_project,
            final(self).date_dialect == old(self).date_dialect,
            final(self).vault_path == old(self).vault_path,
            final(self).embeddings == old(self).embeddings,
    {
        match find_profile(&self.providers, name) {
            None => None,
            Some(i) => {
                self.providers.remove(i);
                let was_active = match &self.active_provider {
                    Some(a) => str_eq(a.as_str(), name),
                    None => false,
                };
                if was_active {
                    self.active_provider = None;
                }
                Some(was_active)
            },
        }
    }
}

// ── file locations ────────────────────────────────────────────────────────

/// What `Path::new(base).join(name)` gives, as text.
pub uninterp spec fn path_joined(base: Seq<char>, name: Seq<char>) -> Seq<char>;

/// `Path::join`, as text (`to_string_lossy` of the result).
#[verifier::external_body]
pub(crate) fn join_path(base: &str, name: &str) -> (r: String)
    ensures
        r@ == path_joined(base@, name@),
{
    std::path::Path::new(base).join(name).to_string_lossy().to_string()
}

/// The config file inside the configuration directory.
pub fn config_path(config_dir: &str) -> (r: String)
    ensures
        r@ == path_joined(config_dir@, "config.toml"@),
{
    join_path(config_dir, "config.toml")
}

/// The database file inside the data directory.
pub fn db_path(data_dir: &str) -> (r: String)
    ensures
        r@ == path_joined(data_dir@, "tasks.db"@),
{
    join_path(data_dir, "tasks.db")
}

/// The config file of the older `tk` installation, if its directories exist.
pub fn legacy_tk_config_path(tk_config_dir: Option<&str>) -> (r: Option<String>)
    ensures
        match tk_config_dir {
            Some(d) => r matches Some(p) && p@ == path_joined(d@, "config.toml"@),
            None => r is None,
        },
{
    match tk_config_dir {
        Some(d) => Some(config_path(d)),
        None => None,
    }
}

/// The database of the older `tk` installation, if its directories exist.
pub fn legacy_tk_db_path(tk_data_dir: Option<&str>) -> (r: Option<String>)
    ensures
        match tk_data_dir {
            Some(d) => r matches Some(p) && p@ == path_joined(d@, "tasks.db"@),
            None => r is None,
        },
{
    match tk_data_dir {
        Some(d) => Some(db_path(d)),
        None => None,
    }
}

/// The store directory: the configured one, else `Sara` inside `cwd`.
pub fn vault_path(cfg: &Config, cwd: &str) -> (r: String)
    ensures
        match cfg.vault_path {
            Some(p) => r@ == p@,
            None => r@ == path_joined(cwd@, "Sara"@),
        },
{
    match &cfg.vault_path {
        Some(p) => p.clone(),
        None => join_path(cwd, "Sara"),
    }
}

} // verus!
