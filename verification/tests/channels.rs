use clawden::channel::{
    ChannelBinding, ChannelBindingStatus, ChannelConnectionStatus, ChannelType,
};
use clawden::channels::{ChannelConfigRequest, ChannelStore};
use std::collections::HashMap;

const SHA256_ABC: &str = "ba7816bf8f01cfea414140de5dae2223b00361a396177a9cb410ff61f20015ad";
const SHA256_EMPTY: &str = "e3b0c44298fc1c149afbf4c8996fb92427ae41e4649b934ca495991b7852b855";

fn request(name: &str, kind: &str) -> ChannelConfigRequest {
    let mut credentials = HashMap::new();
    credentials.insert("token".to_string(), "secret".to_string());
    let mut options = HashMap::new();
    options.insert("retries".to_string(), serde_json::Value::from(3));
    ChannelConfigRequest {
        instance_name: name.to_string(),
        channel_type: kind.to_string(),
        credentials,
        options,
    }
}

#[test]
fn upsert_resolves_type_and_keeps_fields() {
    let mut store = ChannelStore::new();
    let stored = store.upsert_config(request("main", "Telegram")).unwrap();
    assert_eq!(stored.instance_name, "main");
    assert_eq!(stored.channel_type, ChannelType::Telegram);
    assert_eq!(stored.credentials.get("token").map(String::as_str), Some("secret"));
    assert_eq!(stored.options.get("retries"), Some(&serde_json::Value::from(3)));
    let found = store.get_config("main").unwrap();
    assert_eq!(found.channel_type, ChannelType::Telegram);
    assert_eq!(found.credentials.len(), 1);
}

#[test]
fn upsert_knows_aliases() {
    let mut store = ChannelStore::new();
    assert_eq!(
        store.upsert_config(request("a", "LARK")).unwrap().channel_type,
        ChannelType::Feishu
    );
    assert_eq!(
        store.upsert_config(request("b", "GoogleChat")).unwrap().channel_type,
        ChannelType::GoogleChat
    );
    assert_eq!(
        store.upsert_config(request("c", "google_chat")).unwrap().channel_type,
        ChannelType::GoogleChat
    );
}

#[test]
fn upsert_unknown_type_fails_and_changes_nothing() {
    let mut store = ChannelStore::new();
    let err = store.upsert_config(request("main", "carrier-pigeon")).unwrap_err();
    assert_eq!(err, "unknown channel type: carrier-pigeon");
    assert_eq!(store.list_configs().len(), 0);
    assert!(store.get_config("main").is_none());
}

#[test]
fn upsert_same_name_replaces_in_place() {
    let mut store = ChannelStore::new();
    store.upsert_config(request("one", "slack")).unwrap();
    store.upsert_config(request("two", "discord")).unwrap();
    store.upsert_config(request("one", "matrix")).unwrap();
    let all = store.list_configs();
    assert_eq!(all.len(), 2);
    assert_eq!(all[0].instance_name, "one");
    assert_eq!(all[0].channel_type, ChannelType::Matrix);
    assert_eq!(all[1].instance_name, "two");
}

#[test]
fn delete_config_says_whether_it_existed() {
    let mut store = ChannelStore::new();
    store.upsert_config(request("one", "slack")).unwrap();
    store.upsert_config(request("two", "slack")).unwrap();
    assert!(!store.delete_config("three"));
    assert!(store.delete_config("one"));
    assert!(!store.delete_config("one"));
    let all = store.list_configs();
    assert_eq!(all.len(), 1);
    assert_eq!(all[0].instance_name, "two");
}

#[test]
fn list_configs_by_type_filters() {
    let mut store = ChannelStore::new();
    store.upsert_config(request("s1", "slack")).unwrap();
    store.upsert_config(request("d1", "discord")).unwrap();
    store.upsert_config(request("s2", "slack")).unwrap();
    let slack = store.list_configs_by_type(&ChannelType::Slack);
    let names: Vec<&str> = slack.iter().map(|c| c.instance_name.as_str()).collect();
    assert_eq!(names, vec!["s1", "s2"]);
    assert_eq!(store.list_configs_by_type(&ChannelType::Irc).len(), 0);
}

#[test]
fn bind_hashes_the_credential() {
    let mut store = ChannelStore::new();
    let binding = store.bind("inst-a".to_string(), "telegram", "abc").unwrap();
    assert_eq!(binding.bot_token_hash, SHA256_ABC);
    assert_ne!(binding.bot_token_hash, "abc");
    assert_eq!(binding.instance_id, "inst-a");
    assert_eq!(binding.channel_type, ChannelType::Telegram);
    assert_eq!(binding.status, ChannelBindingStatus::Active);
    assert!(binding.bound_at_unix_ms > 1_500_000_000_000);
    let empty = store.bind("inst-b".to_string(), "telegram", "").unwrap();
    assert_eq!(empty.bot_token_hash, SHA256_EMPTY);
}

#[test]
fn bind_same_instance_twice_leaves_one_active_binding() {
    let mut store = ChannelStore::new();
    store.bind("inst-a".to_string(), "telegram", "tok").unwrap();
    store.bind("inst-a".to_string(), "Telegram", "tok").unwrap();
    let bindings = store.list_bindings();
    assert_eq!(bindings.len(), 1);
    assert_eq!(bindings[0].status, ChannelBindingStatus::Active);
    assert_eq!(bindings[0].instance_id, "inst-a");
}

#[test]
fn bind_other_instance_conflicts_and_names_the_holder() {
    let mut store = ChannelStore::new();
    store.bind("inst-a".to_string(), "telegram", "tok").unwrap();
    let err = store.bind("inst-b".to_string(), "telegram", "tok").unwrap_err();
    assert_eq!(err, "token already bound to instance inst-a");
    let bindings = store.list_bindings();
    assert_eq!(bindings.len(), 1);
    assert_eq!(bindings[0].instance_id, "inst-a");
}

#[test]
fn bind_same_credential_on_other_channel_type_is_no_conflict() {
    let mut store = ChannelStore::new();
    store.bind("inst-a".to_string(), "telegram", "tok").unwrap();
    store.bind("inst-b".to_string(), "discord", "tok").unwrap();
    assert_eq!(store.list_bindings().len(), 2);
    assert_eq!(store.detect_conflicts().len(), 0);
}

#[test]
fn bind_unknown_type_fails() {
    let mut store = ChannelStore::new();
    let err = store.bind("inst-a".to_string(), "smoke", "tok").unwrap_err();
    assert_eq!(err, "unknown channel type: smoke");
    assert_eq!(store.list_bindings().len(), 0);
}

#[test]
fn bind_after_release_passes_to_other_instance() {
    let mut store = ChannelStore::new();
    store.bind("inst-a".to_string(), "telegram", "tok").unwrap();
    let released = store.unbind(0).unwrap();
    assert_eq!(released.status, ChannelBindingStatus::Released);
    assert_eq!(released.instance_id, "inst-a");
    assert_eq!(store.list_bindings()[0].status, ChannelBindingStatus::Released);
    let again = store.bind("inst-b".to_string(), "telegram", "tok").unwrap();
    assert_eq!(again.instance_id, "inst-b");
    let bindings = store.list_bindings();
    assert_eq!(bindings.len(), 1);
    assert_eq!(bindings[0].instance_id, "inst-b");
    assert_eq!(bindings[0].status, ChannelBindingStatus::Active);
}

#[test]
fn unbind_unknown_index_fails() {
    let mut store = ChannelStore::new();
    store.bind("inst-a".to_string(), "telegram", "tok").unwrap();
    let err = store.unbind(12).unwrap_err();
    assert_eq!(err, "binding 12 not found");
    assert_eq!(store.list_bindings()[0].status, ChannelBindingStatus::Active);
}

#[test]
fn bind_hashed_records_the_given_time() {
    let mut store = ChannelStore::new();
    let b = store
        .bind_hashed("inst-a".to_string(), ChannelType::Slack, "h1".to_string(), 42)
        .unwrap();
    assert_eq!(b.bound_at_unix_ms, 42);
    assert_eq!(b.bot_token_hash, "h1");
    let again = store
        .bind_hashed("inst-a".to_string(), ChannelType::Slack, "h1".to_string(), 43)
        .unwrap();
    assert_eq!(again.bound_at_unix_ms, 43);
    let err = store
        .bind_hashed("inst-b".to_string(), ChannelType::Slack, "h1".to_string(), 44)
        .unwrap_err();
    assert_eq!(err, "token already bound to instance inst-a");
    let bindings = store.list_bindings();
    assert_eq!(bindings.len(), 1);
    assert_eq!(bindings[0].bound_at_unix_ms, 43);
}

#[test]
fn detect_conflicts_finds_bypassed_bindings() {
    let mut store = ChannelStore::new();
    store.bind("inst-a".to_string(), "telegram", "token-a").unwrap();
    store.bind("inst-b".to_string(), "telegram", "token-b").unwrap();
    assert_eq!(store.detect_conflicts().len(), 0);
    let mut records = store.list_bindings();
    records[1].bot_token_hash = records[0].bot_token_hash.clone();
    let shared = records[0].bot_token_hash.clone();
    let bypassed = ChannelStore::with_bindings(records);
    let conflicts = bypassed.detect_conflicts();
    assert_eq!(conflicts.len(), 1);
    assert_eq!(conflicts[0].channel_type, "telegram");
    assert_eq!(conflicts[0].bot_token_hash, shared);
    assert_eq!(conflicts[0].instance_ids, vec!["inst-a".to_string(), "inst-b".to_string()]);
}

fn record(instance: &str, kind: ChannelType, hash: &str, status: ChannelBindingStatus) -> ChannelBinding {
    ChannelBinding {
        instance_id: instance.to_string(),
        channel_type: kind,
        bot_token_hash: hash.to_string(),
        status,
        bound_at_unix_ms: 1,
    }
}

#[test]
fn detect_conflicts_counts_only_active_claims_of_different_instances() {
    let store = ChannelStore::with_bindings(vec![
        record("a", ChannelType::Slack, "h", ChannelBindingStatus::Active),
        record("b", ChannelType::Slack, "h", ChannelBindingStatus::Released),
        record("a", ChannelType::Slack, "h", ChannelBindingStatus::Active),
        record("c", ChannelType::Discord, "h", ChannelBindingStatus::Active),
        record("d", ChannelType::Irc, "k", ChannelBindingStatus::Active),
        record("e", ChannelType::Irc, "k", ChannelBindingStatus::Active),
        record("f", ChannelType::Irc, "k", ChannelBindingStatus::Draining),
    ]);
    let conflicts = store.detect_conflicts();
    assert_eq!(conflicts.len(), 1);
    assert_eq!(conflicts[0].channel_type, "irc");
    assert_eq!(conflicts[0].bot_token_hash, "k");
    assert_eq!(conflicts[0].instance_ids, vec!["d".to_string(), "e".to_string()]);
}

#[test]
fn assign_is_idempotent_and_unassign_removes() {
    let mut store = ChannelStore::new();
    store.upsert_config(request("c1", "slack")).unwrap();
    store.upsert_config(request("c2", "discord")).unwrap();
    store.assign_channel("agent", "c2");
    store.assign_channel("agent", "c1");
    store.assign_channel("agent", "c2");
    store.assign_channel("agent", "ghost");
    let names: Vec<&str> = store
        .get_agent_channels("agent")
        .iter()
        .map(|c| c.instance_name.as_str())
        .collect();
    assert_eq!(names, vec!["c2", "c1"]);
    store.unassign_channel("agent", "c2");
    store.unassign_channel("agent", "never");
    store.unassign_channel("nobody", "c1");
    let names: Vec<&str> = store
        .get_agent_channels("agent")
        .iter()
        .map(|c| c.instance_name.as_str())
        .collect();
    assert_eq!(names, vec!["c1"]);
    assert_eq!(store.get_agent_channels("nobody").len(), 0);
}

#[test]
fn connection_status_defaults_to_disconnected() {
    let mut store = ChannelStore::new();
    assert_eq!(
        store.get_connection_status("agent", "c1"),
        ChannelConnectionStatus::Disconnected
    );
    store.set_connection_status("agent", "c1", ChannelConnectionStatus::RateLimited);
    assert_eq!(
        store.get_connection_status("agent", "c1"),
        ChannelConnectionStatus::RateLimited
    );
    store.set_connection_status("agent", "c1", ChannelConnectionStatus::Connected);
    assert_eq!(
        store.get_connection_status("agent", "c1"),
        ChannelConnectionStatus::Connected
    );
    assert_eq!(
        store.get_connection_status("c1", "agent"),
        ChannelConnectionStatus::Disconnected
    );
}

#[test]
fn matrix_has_a_row_per_config_and_a_cell_per_agent() {
    let mut store = ChannelStore::new();
    store.upsert_config(request("c1", "slack")).unwrap();
    store.upsert_config(request("c2", "google_chat")).unwrap();
    store.set_connection_status("a1", "c1", ChannelConnectionStatus::Connected);
    store.set_connection_status("a2", "c2", ChannelConnectionStatus::Proxied);
    let agents = vec![
        ("a1".to_string(), "OpenClaw".to_string()),
        ("a2".to_string(), "ZeroClaw".to_string()),
    ];
    let rows = store.build_matrix(&agents);
    assert_eq!(rows.len(), 2);
    assert_eq!(rows[0].channel_instance, "c1");
    assert_eq!(rows[0].channel_type, "slack");
    assert_eq!(rows[1].channel_instance, "c2");
    assert_eq!(rows[1].channel_type, "google_chat");
    assert_eq!(rows[0].cells.len(), 2);
    assert_eq!(rows[0].cells[0].agent_id, "a1");
    assert_eq!(rows[0].cells[0].runtime, "OpenClaw");
    assert_eq!(rows[0].cells[0].status, ChannelConnectionStatus::Connected);
    assert_eq!(rows[0].cells[1].agent_id, "a2");
    assert_eq!(rows[0].cells[1].status, ChannelConnectionStatus::Disconnected);
    assert_eq!(rows[1].cells[0].status, ChannelConnectionStatus::Disconnected);
    assert_eq!(rows[1].cells[1].runtime, "ZeroClaw");
    assert_eq!(rows[1].cells[1].status, ChannelConnectionStatus::Proxied);
    assert_eq!(ChannelStore::new().build_matrix(&agents).len(), 0);
}

#[test]
fn summaries_count_instances_and_connections() {
    let mut store = ChannelStore::new();
    store.upsert_config(request("s1", "slack")).unwrap();
    store.upsert_config(request("t1", "telegram")).unwrap();
    store.upsert_config(request("s2", "slack")).unwrap();
    store.set_connection_status("a1", "s1", ChannelConnectionStatus::Connected);
    store.set_connection_status("a2", "s1", ChannelConnectionStatus::Proxied);
    store.set_connection_status("a1", "s2", ChannelConnectionStatus::RateLimited);
    store.set_connection_status("a1", "t1", ChannelConnectionStatus::Disconnected);
    store.set_connection_status("a1", "ghost", ChannelConnectionStatus::Connected);
    let summaries = store.list_channel_summaries();
    assert_eq!(summaries.len(), 2);
    assert_eq!(summaries[0].channel_type, "telegram");
    assert_eq!(summaries[0].instance_count, 1);
    assert_eq!(summaries[0].connected, 0);
    assert_eq!(summaries[0].disconnected, 1);
    assert_eq!(summaries[1].channel_type, "slack");
    assert_eq!(summaries[1].instance_count, 2);
    assert_eq!(summaries[1].connected, 2);
    assert_eq!(summaries[1].disconnected, 1);
    assert_eq!(ChannelStore::new().list_channel_summaries().len(), 0);
}
