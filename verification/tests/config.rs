use clawden::config::{AgentConfig, ClawLabConfig, ModelConfig, SecurityConfig};
use clawden::runtime::ClawRuntime;

fn config(name: &str, provider: &str, model: &str) -> ClawLabConfig {
    ClawLabConfig {
        agent: AgentConfig {
            name: name.to_string(),
            runtime: ClawRuntime::OpenClaw,
            model: ModelConfig {
                provider: provider.to_string(),
                name: model.to_string(),
                api_key_ref: None,
            },
            tools: Vec::new(),
            channels: Vec::new(),
            security: SecurityConfig { allowlist: Vec::new(), sandboxed: true },
            extras: serde_json::Map::new(),
        },
    }
}

#[test]
fn validate_accepts_named_agent_and_model() {
    assert_eq!(config("scout", "acme", "large").validate(), Ok(()));
    assert_eq!(config(" s ", "a", " m").validate(), Ok(()));
}

#[test]
fn validate_refuses_blank_agent_name() {
    let expected = Err("agent.name must not be empty".to_string());
    assert_eq!(config("", "acme", "large").validate(), expected);
    assert_eq!(config(" \t\n", "acme", "large").validate(), expected);
    assert_eq!(config("\u{3000}\u{a0}", "", "").validate(), expected);
}

#[test]
fn validate_refuses_blank_model_fields() {
    let expected = Err("agent.model provider and name must not be empty".to_string());
    assert_eq!(config("scout", "", "large").validate(), expected);
    assert_eq!(config("scout", "acme", "  ").validate(), expected);
    assert_eq!(config("scout", "\r\n", "").validate(), expected);
}
