use sara::config::{Config, LlmConfig};

fn llm(provider: &str, model: &str) -> LlmConfig {
    LlmConfig { provider: provider.to_string(), model: model.to_string(), base_url: None, api_key: None, timeout_secs: 60 }
}

#[test]
fn adding_a_profile_activates_it_and_replaces_by_name() {
    let mut c = Config::default();
    c.add_profile("mlx".to_string(), llm("mlx", "qwen"));
    assert_eq!(c.active_provider.as_deref(), Some("mlx"));
    assert_eq!(c.effective_llm().model, "qwen");
    c.add_profile("azure".to_string(), llm("azure", "gpt-4o"));
    c.add_profile("mlx".to_string(), llm("mlx", "llama"));
    assert_eq!(c.providers.len(), 2);
    assert_eq!(c.providers[0].0, "mlx");
    assert_eq!(c.providers[0].1.model, "llama");
    assert_eq!(c.active_provider.as_deref(), Some("mlx"));
}

#[test]
fn switching_profiles() {
    let mut c = Config::default();
    c.add_profile("azure".to_string(), llm("azure", "gpt-4o"));
    c.add_profile("mlx".to_string(), llm("mlx", "qwen"));
    assert!(c.use_profile("azure"));
    assert_eq!(c.effective_llm().provider, "azure");
    assert!(!c.use_profile("nope"));
    assert_eq!(c.active_provider.as_deref(), Some("azure"));
    assert!(c.use_profile("default"));
    assert_eq!(c.active_provider, None);
    assert_eq!(c.effective_llm().provider, "ollama");
}

#[test]
fn removing_profiles() {
    let mut c = Config::default();
    c.add_profile("azure".to_string(), llm("azure", "gpt-4o"));
    c.add_profile("mlx".to_string(), llm("mlx", "qwen"));
    assert_eq!(c.remove_profile("nope"), None);
    assert_eq!(c.providers.len(), 2);
    assert_eq!(c.remove_profile("azure"), Some(false));
    assert_eq!(c.active_provider.as_deref(), Some("mlx"));
    assert_eq!(c.remove_profile("mlx"), Some(true));
    assert_eq!(c.active_provider, None);
    assert!(c.providers.is_empty());
}
