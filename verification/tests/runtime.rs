use clawden::channel::{ChannelSupport, ChannelType};
use clawden::runtime::{ChannelSupportMap, ClawRuntime};

#[test]
fn channel_type_from_str_loose_ignores_case() {
    assert_eq!(ChannelType::from_str_loose("telegram"), Some(ChannelType::Telegram));
    assert_eq!(ChannelType::from_str_loose("TeleGram"), Some(ChannelType::Telegram));
    assert_eq!(ChannelType::from_str_loose("IRC"), Some(ChannelType::Irc));
    assert_eq!(ChannelType::from_str_loose("Lark"), Some(ChannelType::Feishu));
    assert_eq!(ChannelType::from_str_loose("feishu"), Some(ChannelType::Feishu));
    assert_eq!(ChannelType::from_str_loose("GOOGLECHAT"), Some(ChannelType::GoogleChat));
    assert_eq!(ChannelType::from_str_loose("Google_Chat"), Some(ChannelType::GoogleChat));
    assert_eq!(ChannelType::from_str_loose("google chat"), None);
    assert_eq!(ChannelType::from_str_loose(""), None);
    assert_eq!(ChannelType::from_str_loose(" telegram"), None);
}

#[test]
fn channel_type_from_lowercase_is_exact() {
    assert_eq!(ChannelType::from_lowercase("nostr"), Some(ChannelType::Nostr));
    assert_eq!(ChannelType::from_lowercase("Nostr"), None);
    assert_eq!(ChannelType::from_lowercase("lark"), Some(ChannelType::Feishu));
}

#[test]
fn every_channel_type_is_found_by_its_name() {
    let all = ChannelType::all();
    assert_eq!(all.len(), 17);
    for kind in all {
        assert_eq!(ChannelType::from_str_loose(kind.name()), Some(kind));
        assert_eq!(ChannelType::from_str_loose(&kind.to_string().to_uppercase()), Some(kind));
    }
    assert_eq!(ChannelType::GoogleChat.to_string(), "google_chat");
    assert_eq!(ChannelType::Imessage.to_string(), "imessage");
}

#[test]
fn runtime_names() {
    assert_eq!(ClawRuntime::OpenClaw.to_string(), "OpenClaw");
    assert_eq!(ClawRuntime::MimiClaw.name(), "MimiClaw");
    assert_eq!(ClawRuntime::OpenClaw.wire_name(), "open-claw");
    assert_eq!(ClawRuntime::MicroClaw.wire_name(), "micro-claw");
}

#[test]
fn canonical_order_is_sorted_by_name() {
    let order = ClawRuntime::all();
    assert_eq!(order.len(), 8);
    let names: Vec<String> = order.iter().map(|r| r.to_string()).collect();
    let mut sorted = names.clone();
    sorted.sort();
    assert_eq!(names, sorted);
    assert_eq!(names[0], "IronClaw");
    assert_eq!(names[7], "ZeroClaw");
}

#[test]
fn channel_support_map_insert_and_get() {
    let mut map = ChannelSupportMap::new();
    assert!(map.get(&ChannelType::Slack).is_none());
    assert!(!map.insert(ChannelType::Slack, ChannelSupport::Native));
    assert!(!map.insert(ChannelType::Signal, ChannelSupport::Via("signal-cli".to_string())));
    assert!(map.insert(ChannelType::Slack, ChannelSupport::Unsupported));
    assert_eq!(map.get(&ChannelType::Slack), Some(&ChannelSupport::Unsupported));
    assert_eq!(
        map.get(&ChannelType::Signal),
        Some(&ChannelSupport::Via("signal-cli".to_string()))
    );
    assert!(map.get(&ChannelType::Irc).is_none());
    let copy = map.clone();
    assert_eq!(copy.get(&ChannelType::Slack), Some(&ChannelSupport::Unsupported));
}
