use clawden::adapters::{OpenClawAdapter, PicoClawAdapter, ZeroClawAdapter};
use clawden::channel::{ChannelSupport, ChannelType};
use clawden::runtime::{
    AgentConfig, AgentHandle, AgentMessage, ClawAdapter, ClawRuntime, HealthStatus, InstallConfig,
    RuntimeConfig, SkillManifest,
};

fn config(name: &str, runtime: ClawRuntime) -> AgentConfig {
    AgentConfig { name: name.to_string(), runtime, model: None }
}

fn handle(adapter: &dyn ClawAdapter, name: &str) -> AgentHandle {
    adapter.start(&config(name, adapter.metadata().runtime)).unwrap()
}

#[test]
fn open_claw_metadata() {
    let m = OpenClawAdapter.metadata();
    assert_eq!(m.runtime, ClawRuntime::OpenClaw);
    assert_eq!(m.version, "unknown");
    assert_eq!(m.language, "typescript");
    assert_eq!(m.capabilities, vec!["chat".to_string(), "tools".to_string()]);
    assert_eq!(m.default_port, Some(18789));
    assert_eq!(m.config_format.as_deref(), Some("json5"));
    assert_eq!(m.channel_support.get(&ChannelType::Telegram), Some(&ChannelSupport::Native));
    assert_eq!(
        m.channel_support.get(&ChannelType::Whatsapp),
        Some(&ChannelSupport::Via("Baileys".to_string()))
    );
    assert_eq!(
        m.channel_support.get(&ChannelType::Signal),
        Some(&ChannelSupport::Via("signal-cli".to_string()))
    );
    assert_eq!(m.channel_support.get(&ChannelType::Matrix), None);
    assert_eq!(m.channel_support.get(&ChannelType::Qq), None);
}

#[test]
fn zero_claw_metadata() {
    let m = ZeroClawAdapter.metadata();
    assert_eq!(m.runtime, ClawRuntime::ZeroClaw);
    assert_eq!(m.language, "rust");
    assert_eq!(m.capabilities, vec!["chat".to_string(), "reasoning".to_string()]);
    assert_eq!(m.default_port, Some(42617));
    assert_eq!(m.config_format.as_deref(), Some("toml"));
    assert_eq!(
        m.channel_support.get(&ChannelType::Whatsapp),
        Some(&ChannelSupport::Via("Meta Cloud API".to_string()))
    );
    assert_eq!(m.channel_support.get(&ChannelType::Email), Some(&ChannelSupport::Native));
    assert_eq!(m.channel_support.get(&ChannelType::Teams), None);
}

#[test]
fn pico_claw_metadata() {
    let m = PicoClawAdapter.metadata();
    assert_eq!(m.runtime, ClawRuntime::PicoClaw);
    assert_eq!(m.language, "go");
    assert_eq!(m.capabilities, vec!["chat".to_string(), "embedded".to_string()]);
    assert_eq!(m.default_port, None);
    assert_eq!(m.config_format.as_deref(), Some("json"));
    assert_eq!(m.channel_support.get(&ChannelType::Line), Some(&ChannelSupport::Native));
    assert_eq!(m.channel_support.get(&ChannelType::Signal), None);
}

#[test]
fn metadata_is_stable_across_calls() {
    let first = ZeroClawAdapter.metadata();
    let second = ZeroClawAdapter.metadata();
    assert_eq!(first.version, second.version);
    assert_eq!(first.capabilities, second.capabilities);
    for kind in ChannelType::all() {
        assert_eq!(first.channel_support.get(&kind), second.channel_support.get(&kind));
    }
}

#[test]
fn start_derives_the_handle_from_runtime_and_name() {
    let h = handle(&OpenClawAdapter, "scout");
    assert_eq!(h.id, "openclaw-scout");
    assert_eq!(h.name, "scout");
    assert_eq!(h.runtime, ClawRuntime::OpenClaw);
    assert_eq!(handle(&OpenClawAdapter, "scout").id, h.id);
    assert_eq!(handle(&ZeroClawAdapter, "scout").id, "zeroclaw-scout");
    assert_eq!(handle(&PicoClawAdapter, "").id, "picoclaw-");
}

#[test]
fn send_echoes_or_fails() {
    let message = AgentMessage { role: "user".to_string(), content: "ping".to_string() };
    let z = handle(&ZeroClawAdapter, "a");
    assert_eq!(ZeroClawAdapter.send(&z, &message).unwrap().content, "ZeroClaw echo: ping");
    let p = handle(&PicoClawAdapter, "a");
    assert_eq!(PicoClawAdapter.send(&p, &message).unwrap().content, "PicoClaw echo: ping");
    let o = handle(&OpenClawAdapter, "a");
    assert_eq!(
        OpenClawAdapter.send(&o, &message).unwrap_err(),
        "OpenClawAdapter.send not implemented"
    );
}

#[test]
fn observation_of_an_unreachable_agent_is_unknown() {
    let h = handle(&PicoClawAdapter, "a");
    assert_eq!(PicoClawAdapter.health(&h), Ok(HealthStatus::Unknown));
    assert_eq!(OpenClawAdapter.health(&h), Ok(HealthStatus::Unknown));
    assert_eq!(ZeroClawAdapter.subscribe(&h, "any").unwrap().len(), 0);
    assert_eq!(ZeroClawAdapter.list_skills(&h).unwrap().len(), 0);
}

#[test]
fn lifecycle_operations_succeed() {
    let adapter = ZeroClawAdapter;
    assert!(adapter
        .install(&InstallConfig { runtime: ClawRuntime::ZeroClaw, image: None })
        .is_ok());
    let h = handle(&adapter, "a");
    assert!(adapter.restart(&h).is_ok());
    assert!(adapter.stop(&h).is_ok());
    let skill = SkillManifest {
        name: "s".to_string(),
        version: "0.1.0".to_string(),
        runtimes: vec![ClawRuntime::ZeroClaw],
    };
    assert!(adapter.install_skill(&h, &skill).is_ok());
    assert!(adapter
        .set_config(&h, &RuntimeConfig { values: serde_json::Value::Null })
        .is_ok());
}

#[test]
fn config_names_the_runtime() {
    let h = handle(&PicoClawAdapter, "a");
    let pico = PicoClawAdapter.get_config(&h).unwrap();
    assert_eq!(pico.values.get("runtime").and_then(|v| v.as_str()), Some("picoclaw"));
    let zero = ZeroClawAdapter.get_config(&h).unwrap();
    assert_eq!(zero.values.get("runtime").and_then(|v| v.as_str()), Some("zeroclaw"));
    let open = OpenClawAdapter.get_config(&h).unwrap();
    assert_eq!(open.values.as_object().map(|o| o.len()), Some(0));
}
