//! The adapters that come with the orchestrator: what each runtime
//! declares of itself, and the operations that need no backend to answer.

use vstd::prelude::*;
use vstd::string::*;
use crate::channel::{ChannelSupport, ChannelSupportView, ChannelType};
use crate::runtime::{
    AgentConfig, AgentHandle, AgentMessage, AgentResponse, ChannelSupportMap, ClawAdapter,
    ClawRuntime, EventStream, HealthStatus, InstallConfig, RuntimeConfig, RuntimeMetadata,
    RuntimeMetadataView, Skill, SkillManifest,
};
use crate::text::option_text;

verus! {

/// The JSON object that has one string member for each of the given pairs
/// of key and text, the members put in one after the other.
pub uninterp spec fn json_object_of(members: Seq<(Seq<char>, Seq<char>)>) -> serde_json::Value;

/// Pairs of strings as pairs of texts.
pub open spec fn member_texts(members: Seq<(String, String)>) -> Seq<(Seq<char>, Seq<char>)> {
    Seq::new(members.len(), |i: int| (members[i].0@, members[i].1@))
}

/// The members of the configuration that an adapter without a backend
/// answers with: the name of its runtime under the key `runtime`, or no
/// member at all.
pub open spec fn runtime_members(runtime: Option<Seq<char>>) -> Seq<(Seq<char>, Seq<char>)> {
    match runtime {
        Some(name) => seq![("runtime"@, name)],
        None => Seq::empty(),
    }
}

/// `serde_json::Map::new`, `serde_json::Map::insert` and the variants
/// `Object` and `String` of `serde_json::Value`: a JSON object with one
/// string member for each of the given pairs, put in one after the other.
/// The value is only named: equal pairs in the same order give equal
/// objects. The library hands the value on and never looks inside.
#[verifier::external_body]
fn json_object(members: Vec<(String, String)>) -> (value: serde_json::Value)
    ensures
        value == json_object_of(member_texts(members@)),
{
    let mut object = serde_json::Map::new();
    for (key, value) in members {
        object.insert(key, serde_json::Value::String(value));
    }
    serde_json::Value::Object(object)
}

fn runtime_config(runtime: Option<&str>) -> (config: RuntimeConfig)
    ensures
        config.values == json_object_of(runtime_members(option_text(runtime))),
{
    let mut members: Vec<(String, String)> = Vec::new();
    match runtime {
        Some(name) => {
            members.push(("runtime".to_string(), name.to_string()));
        },
        None => {},
    }
    assert(member_texts(members@) =~= runtime_members(option_text(runtime)));
    RuntimeConfig { values: json_object(members) }
}

/// The adapter of the TypeScript runtime.
#[derive(Debug, Clone, Copy)]
pub struct OpenClawAdapter;

/// The channels that OpenClaw declares.
pub open spec fn open_claw_channels() -> Map<ChannelType, ChannelSupportView> {
    Map::<ChannelType, ChannelSupportView>::empty().insert(
        ChannelType::Telegram,
        ChannelSupportView::Native,
    ).insert(
        ChannelType::Discord,
        ChannelSupportView::Native,
    ).insert(
        ChannelType::Slack,
        ChannelSupportView::Native,
    ).insert(
        ChannelType::Whatsapp,
        ChannelSupportView::Via("Baileys"@),
    ).insert(
        ChannelType::Signal,
        ChannelSupportView::Via("signal-cli"@),
    ).insert(
        ChannelType::Feishu,
        ChannelSupportView::Native,
    ).insert(
        ChannelType::Mattermost,
        ChannelSupportView::Native,
    ).insert(
        ChannelType::Irc,
        ChannelSupportView::Native,
    ).insert(
        ChannelType::Teams,
        ChannelSupportView::Native,
    ).insert(
        ChannelType::Imessage,
        ChannelSupportView::Native,
    ).insert(
        ChannelType::GoogleChat,
        ChannelSupportView::Native,
    ).insert(
        ChannelType::Nostr,
        ChannelSupportView::Native,
    )
}

#[allow(unused_variables)]
impl ClawAdapter for OpenClawAdapter {
    open spec fn spec_metadata(&self) -> RuntimeMetadataView {
        RuntimeMetadataView {
            runtime: ClawRuntime::OpenClaw,
            version: "unknown"@,
            language: "typescript"@,
            capabilities: seq!["chat"@, "tools"@],
            default_port: Some(18789),
            config_format: Some("json5"@),
            channel_support: open_claw_channels(),
        }
    }

    open spec fn handle_id(&self, agent_name: Seq<char>) -> Seq<char> {
        "openclaw-"@ + agent_name
    }

    fn metadata(&self) -> (m: RuntimeMetadata) {
        let mut channel_support = ChannelSupportMap::new();
        channel_support.insert(ChannelType::Telegram, ChannelSupport::Native);
        channel_support.insert(ChannelType::Discord, ChannelSupport::Native);
        channel_support.insert(ChannelType::Slack, ChannelSupport::Native);
        channel_support.insert(ChannelType::Whatsapp, ChannelSupport::Via("Baileys".to_string()));
        channel_support.insert(ChannelType::Signal, ChannelSupport::Via("signal-cli".to_string()));
        channel_support.insert(ChannelType::Feishu, ChannelSupport::Native);
        channel_support.insert(ChannelType::Mattermost, ChannelSupport::Native);
        channel_support.insert(ChannelType::Irc, ChannelSupport::Native);
        channel_support.insert(ChannelType::Teams, ChannelSupport::Native);
        channel_support.insert(ChannelType::Imessage, ChannelSupport::Native);
        channel_support.insert(ChannelType::GoogleChat, ChannelSupport::Native);
        channel_support.insert(ChannelType::Nostr, ChannelSupport::Native);
        let mut capabilities: Vec<String> = Vec::new();
        capabilities.push("chat".to_string());
        capabilities.push("tools".to_string());
        let m = RuntimeMetadata {
            runtime: ClawRuntime::OpenClaw,
            version: "unknown".to_string(),
            language: "typescript".to_string(),
            capabilities,
            default_port: Some(18789),
            config_format: Some("json5".to_string()),
            channel_support,
        };
        assert(m@.capabilities =~= seq!["chat"@, "tools"@]);
        m
    }

    fn install(&self, config: &InstallConfig) -> (r: Result<(), String>)
        ensures
            r is Ok,
    {
        Ok(())
    }

    fn start(&self, config: &AgentConfig) -> (r: Result<AgentHandle, String>)
        ensures
            r is Ok,
    {
        let mut id = "openclaw-".to_string();
        id.append(config.name.as_str());
        Ok(AgentHandle { id, name: config.name.clone(), runtime: ClawRuntime::OpenClaw })
    }

    fn stop(&self, handle: &AgentHandle) -> (r: Result<(), String>)
        ensures
            r is Ok,
    {
        Ok(())
    }

    fn restart(&self, handle: &AgentHandle) -> (r: Result<(), String>)
        ensures
            r is Ok,
    {
        Ok(())
    }

    fn health(&self, handle: &AgentHandle) -> (r: Result<HealthStatus, String>)
        ensures
            r == Ok::<HealthStatus, String>(HealthStatus::Unknown),
    {
        Ok(HealthStatus::Unknown)
    }

    /// This adapter takes no messages: the call fails.
    fn send(&self, handle: &AgentHandle, message: &AgentMessage) -> (r: Result<
        AgentResponse,
        String,
    >)
        ensures
            r matches Err(e) && e@ == "OpenClawAdapter.send not implemented"@,
    {
        Err("OpenClawAdapter.send not implemented".to_string())
    }

    fn subscribe(&self, handle: &AgentHandle, event: &str) -> (r: Result<EventStream, String>)
        ensures
            r matches Ok(events) && events@.len() == 0,
    {
        Ok(Vec::new())
    }

    /// Answers with an empty configuration.
    fn get_config(&self, handle: &AgentHandle) -> (r: Result<RuntimeConfig, String>)
        ensures
            r matches Ok(config) && config.values == json_object_of(runtime_members(None)),
    {
        Ok(runtime_config(None))
    }

    fn set_config(&self, handle: &AgentHandle, config: &RuntimeConfig) -> (r: Result<(), String>)
        ensures
            r is Ok,
    {
        Ok(())
    }

    fn list_skills(&self, handle: &AgentHandle) -> (r: Result<Vec<Skill>, String>)
        ensures
            r matches Ok(skills) && skills@.len() == 0,
    {
        Ok(Vec::new())
    }

    fn install_skill(&self, handle: &AgentHandle, skill: &SkillManifest) -> (r: Result<
        (),
        String,
    >)
        ensures
            r is Ok,
    {
        Ok(())
    }
}

/// The adapter of the Rust runtime.
#[derive(Debug, Clone, Copy)]
pub struct ZeroClawAdapter;

/// The channels that ZeroClaw declares.
pub open spec fn zero_claw_channels() -> Map<ChannelType, ChannelSupportView> {
    Map::<ChannelType, ChannelSupportView>::empty().insert(
        ChannelType::Telegram,
        ChannelSupportView::Native,
    ).insert(
        ChannelType::Discord,
        ChannelSupportView::Native,
    ).insert(
        ChannelType::Slack,
        ChannelSupportView::Native,
    ).insert(
        ChannelType::Whatsapp,
        ChannelSupportView::Via("Meta Cloud API"@),
    ).insert(
        ChannelType::Signal,
        ChannelSupportView::Native,
    ).insert(
        ChannelType::Feishu,
        ChannelSupportView::Native,
    ).insert(
        ChannelType::Matrix,
        ChannelSupportView::Native,
    ).insert(
        ChannelType::Email,
        ChannelSupportView::Native,
    ).insert(
        ChannelType::Mattermost,
        ChannelSupportView::Native,
    ).insert(
        ChannelType::Irc,
        ChannelSupportView::Native,
    ).insert(
        ChannelType::Imessage,
        ChannelSupportView::Native,
    ).insert(
        ChannelType::Nostr,
        ChannelSupportView::Native,
    )
}

#[allow(unused_variables)]
impl ClawAdapter for ZeroClawAdapter {
    open spec fn spec_metadata(&self) -> RuntimeMetadataView {
        RuntimeMetadataView {
            runtime: ClawRuntime::ZeroClaw,
            version: "unknown"@,
            language: "rust"@,
            capabilities: seq!["chat"@, "reasoning"@],
            default_port: Some(42617),
            config_format: Some("toml"@),
            channel_support: zero_claw_channels(),
        }
    }

    open spec fn handle_id(&self, agent_name: Seq<char>) -> Seq<char> {
        "zeroclaw-"@ + agent_name
    }

    fn metadata(&self) -> (m: RuntimeMetadata) {
        let mut channel_support = ChannelSupportMap::new();
        channel_support.insert(ChannelType::Telegram, ChannelSupport::Native);
        channel_support.insert(ChannelType::Discord, ChannelSupport::Native);
        channel_support.insert(ChannelType::Slack, ChannelSupport::Native);
        channel_support.insert(ChannelType::Whatsapp, ChannelSupport::Via("Meta Cloud API".to_string()));
        channel_support.insert(ChannelType::Signal, ChannelSupport::Native);
        channel_support.insert(ChannelType::Feishu, ChannelSupport::Native);
        channel_support.insert(ChannelType::Matrix, ChannelSupport::Native);
        channel_support.insert(ChannelType::Email, ChannelSupport::Native);
        channel_support.insert(ChannelType::Mattermost, ChannelSupport::Native);
        channel_support.insert(ChannelType::Irc, ChannelSupport::Native);
        channel_support.insert(ChannelType::Imessage, ChannelSupport::Native);
        channel_support.insert(ChannelType::Nostr, ChannelSupport::Native);
        let mut capabilities: Vec<String> = Vec::new();
        capabilities.push("chat".to_string());
        capabilities.push("reasoning".to_string());
        let m = RuntimeMetadata {
            runtime: ClawRuntime::ZeroClaw,
            version: "unknown".to_string(),
            language: "rust".to_string(),
            capabilities,
            default_port: Some(42617),
            config_format: Some("toml".to_string()),
            channel_support,
        };
        assert(m@.capabilities =~= seq!["chat"@, "reasoning"@]);
        m
    }

    fn install(&self, config: &InstallConfig) -> (r: Result<(), String>)
        ensures
            r is Ok,
    {
        Ok(())
    }

    fn start(&self, config: &AgentConfig) -> (r: Result<AgentHandle, String>)
        ensures
            r is Ok,
    {
        let mut id = "zeroclaw-".to_string();
        id.append(config.name.as_str());
        Ok(AgentHandle { id, name: config.name.clone(), runtime: ClawRuntime::ZeroClaw })
    }

    fn stop(&self, handle: &AgentHandle) -> (r: Result<(), String>)
        ensures
            r is Ok,
    {
        Ok(())
    }

    fn restart(&self, handle: &AgentHandle) -> (r: Result<(), String>)
        ensures
            r is Ok,
    {
        Ok(())
    }

    fn health(&self, handle: &AgentHandle) -> (r: Result<HealthStatus, String>)
        ensures
            r == Ok::<HealthStatus, String>(HealthStatus::Unknown),
    {
        Ok(HealthStatus::Unknown)
    }

    /// Echoes the message.
    fn send(&self, handle: &AgentHandle, message: &AgentMessage) -> (r: Result<
        AgentResponse,
        String,
    >)
        ensures
            r matches Ok(answer) && answer.content@ == "ZeroClaw echo: "@ + message.content@,
    {
        let mut content = "ZeroClaw echo: ".to_string();
        content.append(message.content.as_str());
        Ok(AgentResponse { content })
    }

    fn subscribe(&self, handle: &AgentHandle, event: &str) -> (r: Result<EventStream, String>)
        ensures
            r matches Ok(events) && events@.len() == 0,
    {
        Ok(Vec::new())
    }

    /// Answers with the configuration that names the runtime.
    fn get_config(&self, handle: &AgentHandle) -> (r: Result<RuntimeConfig, String>)
        ensures
            r matches Ok(config) && config.values == json_object_of(runtime_members(Some("zeroclaw"@))),
    {
        Ok(runtime_config(Some("zeroclaw")))
    }

    fn set_config(&self, handle: &AgentHandle, config: &RuntimeConfig) -> (r: Result<(), String>)
        ensures
            r is Ok,
    {
        Ok(())
    }

    fn list_skills(&self, handle: &AgentHandle) -> (r: Result<Vec<Skill>, String>)
        ensures
            r matches Ok(skills) && skills@.len() == 0,
    {
        Ok(Vec::new())
    }

    fn install_skill(&self, handle: &AgentHandle, skill: &SkillManifest) -> (r: Result<
        (),
        String,
    >)
        ensures
            r is Ok,
    {
        Ok(())
    }
}

/// The adapter of the Go runtime for small devices.
#[derive(Debug, Clone, Copy)]
pub struct PicoClawAdapter;

/// The channels that PicoClaw declares.
pub open spec fn pico_claw_channels() -> Map<ChannelType, ChannelSupportView> {
    Map::<ChannelType, ChannelSupportView>::empty().insert(
        ChannelType::Telegram,
        ChannelSupportView::Native,
    ).insert(
        ChannelType::Discord,
        ChannelSupportView::Native,
    ).insert(
        ChannelType::Slack,
        ChannelSupportView::Native,
    ).insert(
        ChannelType::Whatsapp,
        ChannelSupportView::Native,
    ).insert(
        ChannelType::Feishu,
        ChannelSupportView::Native,
    ).insert(
        ChannelType::Dingtalk,
        ChannelSupportView::Native,
    ).insert(
        ChannelType::Qq,
        ChannelSupportView::Native,
    ).insert(
        ChannelType::Line,
        ChannelSupportView::Native,
    )
}

#[allow(unused_variables)]
impl ClawAdapter for PicoClawAdapter {
    open spec fn spec_metadata(&self) -> RuntimeMetadataView {
        RuntimeMetadataView {
            runtime: ClawRuntime::PicoClaw,
            version: "unknown"@,
            language: "go"@,
            capabilities: seq!["chat"@, "embedded"@],
            default_port: None,
            config_format: Some("json"@),
            channel_support: pico_claw_channels(),
        }
    }

    open spec fn handle_id(&self, agent_name: Seq<char>) -> Seq<char> {
        "picoclaw-"@ + agent_name
    }

    fn metadata(&self) -> (m: RuntimeMetadata) {
        let mut channel_support = ChannelSupportMap::new();
        channel_support.insert(ChannelType::Telegram, ChannelSupport::Native);
        channel_support.insert(ChannelType::Discord, ChannelSupport::Native);
        channel_support.insert(ChannelType::Slack, ChannelSupport::Native);
        channel_support.insert(ChannelType::Whatsapp, ChannelSupport::Native);
        channel_support.insert(ChannelType::Feishu, ChannelSupport::Native);
        channel_support.insert(ChannelType::Dingtalk, ChannelSupport::Native);
        channel_support.insert(ChannelType::Qq, ChannelSupport::Native);
        channel_support.insert(ChannelType::Line, ChannelSupport::Native);
        let mut capabilities: Vec<String> = Vec::new();
        capabilities.push("chat".to_string());
        capabilities.push("embedded".to_string());
        let m = RuntimeMetadata {
            runtime: ClawRuntime::PicoClaw,
            version: "unknown".to_string(),
            language: "go".to_string(),
            capabilities,
            default_port: None,
            config_format: Some("json".to_string()),
            channel_support,
        };
        assert(m@.capabilities =~= seq!["chat"@, "embedded"@]);
        m
    }

    fn install(&self, config: &InstallConfig) -> (r: Result<(), String>)
        ensures
            r is Ok,
    {
        Ok(())
    }

    fn start(&self, config: &AgentConfig) -> (r: Result<AgentHandle, String>)
        ensures
            r is Ok,
    {
        let mut id = "picoclaw-".to_string();
        id.append(config.name.as_str());
        Ok(AgentHandle { id, name: config.name.clone(), runtime: ClawRuntime::PicoClaw })
    }

    fn stop(&self, handle: &AgentHandle) -> (r: Result<(), String>)
        ensures
            r is Ok,
    {
        Ok(())
    }

    fn restart(&self, handle: &AgentHandle) -> (r: Result<(), String>)
        ensures
            r is Ok,
    {
        Ok(())
    }

    fn health(&self, handle: &AgentHandle) -> (r: Result<HealthStatus, String>)
        ensures
            r == Ok::<HealthStatus, String>(HealthStatus::Unknown),
    {
        Ok(HealthStatus::Unknown)
    }

    /// Echoes the message.
    fn send(&self, handle: &AgentHandle, message: &AgentMessage) -> (r: Result<
        AgentResponse,
        String,
    >)
        ensures
            r matches Ok(answer) && answer.content@ == "PicoClaw echo: "@ + message.content@,
    {
        let mut content = "PicoClaw echo: ".to_string();
        content.append(message.content.as_str());
        Ok(AgentResponse { content })
    }

    fn subscribe(&self, handle: &AgentHandle, event: &str) -> (r: Result<EventStream, String>)
        ensures
            r matches Ok(events) && events@.len() == 0,
    {
        Ok(Vec::new())
    }

    /// Answers with the configuration that names the runtime.
    fn get_config(&self, handle: &AgentHandle) -> (r: Result<RuntimeConfig, String>)
        ensures
            r matches Ok(config) && config.values == json_object_of(runtime_members(Some("picoclaw"@))),
    {
        Ok(runtime_config(Some("picoclaw")))
    }

    fn set_config(&self, handle: &AgentHandle, config: &RuntimeConfig) -> (r: Result<(), String>)
        ensures
            r is Ok,
    {
        Ok(())
    }

    fn list_skills(&self, handle: &AgentHandle) -> (r: Result<Vec<Skill>, String>)
        ensures
            r matches Ok(skills) && skills@.len() == 0,
    {
        Ok(Vec::new())
    }

    fn install_skill(&self, handle: &AgentHandle, skill: &SkillManifest) -> (r: Result<
        (),
        String,
    >)
        ensures
            r is Ok,
    {
        Ok(())
    }
}

} // verus!
