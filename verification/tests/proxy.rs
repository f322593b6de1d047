use clawden::channel::{ChannelSupport, ChannelType};
use clawden::proxy::{create_proxy_message, format_proxy_response, needs_proxy, proxy_status};
use clawden::runtime::{AgentResponse, ChannelSupportMap, ClawRuntime, RuntimeMetadata};

fn metadata() -> RuntimeMetadata {
    let mut channel_support = ChannelSupportMap::new();
    channel_support.insert(ChannelType::Telegram, ChannelSupport::Native);
    channel_support.insert(ChannelType::Whatsapp, ChannelSupport::Via("Baileys".to_string()));
    channel_support.insert(ChannelType::Email, ChannelSupport::Unsupported);
    RuntimeMetadata {
        runtime: ClawRuntime::NanoClaw,
        version: "1".to_string(),
        language: "rust".to_string(),
        capabilities: vec!["chat".to_string()],
        default_port: None,
        config_format: None,
        channel_support,
    }
}

#[test]
fn needs_proxy_follows_declared_support() {
    let m = metadata();
    assert!(!needs_proxy(&m, &ChannelType::Telegram));
    assert!(!needs_proxy(&m, &ChannelType::Whatsapp));
    assert!(needs_proxy(&m, &ChannelType::Email));
    assert!(needs_proxy(&m, &ChannelType::Nostr));
}

#[test]
fn proxy_status_gives_reason_when_proxied() {
    let m = metadata();
    let proxied = proxy_status(&m, &ChannelType::GoogleChat);
    assert_eq!(proxied.channel_type, "google_chat");
    assert_eq!(proxied.runtime, "NanoClaw");
    assert!(proxied.is_proxied);
    assert_eq!(
        proxied.reason.as_deref(),
        Some("NanoClaw does not natively support google_chat; ClawDen will proxy")
    );
    let native = proxy_status(&m, &ChannelType::Telegram);
    assert_eq!(native.channel_type, "telegram");
    assert_eq!(native.runtime, "NanoClaw");
    assert!(!native.is_proxied);
    assert_eq!(native.reason, None);
}

#[test]
fn proxy_message_tags_channel_and_sender() {
    let message = create_proxy_message(&ChannelType::Irc, "alice", "hello there");
    assert_eq!(message.role, "proxy:irc");
    assert_eq!(message.content, "[alice] hello there");
    let empty = create_proxy_message(&ChannelType::GoogleChat, "", "");
    assert_eq!(empty.role, "proxy:google_chat");
    assert_eq!(empty.content, "[] ");
}

#[test]
fn proxy_response_is_the_content() {
    let response = AgentResponse { content: "done".to_string() };
    assert_eq!(format_proxy_response(&response), "done");
}
