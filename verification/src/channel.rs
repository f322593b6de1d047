//! Messaging channels: their kinds, how a runtime supports them, their
//! configurations and the bindings of credentials to agent instances.

use vstd::prelude::*;
use vstd::string::*;
use std::collections::HashMap;
use crate::text::unicode_lowercase;

verus! {

/// `serde_json::Value`, a JSON value. The library carries such values in
/// options and configurations and never looks inside one.
#[verifier::external_type_specification]
#[verifier::external_body]
pub struct ExJsonValue(serde_json::Value);

/// `Clone` of `serde_json::Value` copies the whole value: the copy is equal
/// to the original.
pub assume_specification[ <serde_json::Value as Clone>::clone ](value: &serde_json::Value) -> (copy:
    serde_json::Value)
    ensures
        copy == *value,
;

/// A kind of external messaging surface.
#[derive(Debug, Clone, Copy, PartialEq, Eq, Hash, Structural)]
pub enum ChannelType {
    Telegram,
    Discord,
    Slack,
    Whatsapp,
    Signal,
    Matrix,
    Email,
    Feishu,
    Dingtalk,
    Mattermost,
    Irc,
    Teams,
    Imessage,
    GoogleChat,
    Qq,
    Line,
    Nostr,
}

/// The kind of channel that a lowercase text names: each kind by its own
/// name, Feishu also as `lark`, Google Chat also as `googlechat`.
pub open spec fn channel_type_named(t: Seq<char>) -> Option<ChannelType> {
    if t == "telegram"@ {
        Some(ChannelType::Telegram)
    } else if t == "discord"@ {
        Some(ChannelType::Discord)
    } else if t == "slack"@ {
        Some(ChannelType::Slack)
    } else if t == "whatsapp"@ {
        Some(ChannelType::Whatsapp)
    } else if t == "signal"@ {
        Some(ChannelType::Signal)
    } else if t == "matrix"@ {
        Some(ChannelType::Matrix)
    } else if t == "email"@ {
        Some(ChannelType::Email)
    } else if t == "feishu"@ || t == "lark"@ {
        Some(ChannelType::Feishu)
    } else if t == "dingtalk"@ {
        Some(ChannelType::Dingtalk)
    } else if t == "mattermost"@ {
        Some(ChannelType::Mattermost)
    } else if t == "irc"@ {
        Some(ChannelType::Irc)
    } else if t == "teams"@ {
        Some(ChannelType::Teams)
    } else if t == "imessage"@ {
        Some(ChannelType::Imessage)
    } else if t == "google_chat"@ || t == "googlechat"@ {
        Some(ChannelType::GoogleChat)
    } else if t == "qq"@ {
        Some(ChannelType::Qq)
    } else if t == "line"@ {
        Some(ChannelType::Line)
    } else if t == "nostr"@ {
        Some(ChannelType::Nostr)
    } else {
        None
    }
}

/// Every kind of channel, in the order of their declaration.
pub open spec fn all_channel_types() -> Seq<ChannelType> {
    seq![
        ChannelType::Telegram,
        ChannelType::Discord,
        ChannelType::Slack,
        ChannelType::Whatsapp,
        ChannelType::Signal,
        ChannelType::Matrix,
        ChannelType::Email,
        ChannelType::Feishu,
        ChannelType::Dingtalk,
        ChannelType::Mattermost,
        ChannelType::Irc,
        ChannelType::Teams,
        ChannelType::Imessage,
        ChannelType::GoogleChat,
        ChannelType::Qq,
        ChannelType::Line,
        ChannelType::Nostr,
    ]
}

impl ChannelType {
    /// Every kind of channel, in the order of their declaration.
    pub fn all() -> (kinds: Vec<ChannelType>)
        ensures
            kinds@ == all_channel_types(),
    {
        let mut kinds: Vec<ChannelType> = Vec::new();
        kinds.push(ChannelType::Telegram);
        kinds.push(ChannelType::Discord);
        kinds.push(ChannelType::Slack);
        kinds.push(ChannelType::Whatsapp);
        kinds.push(ChannelType::Signal);
        kinds.push(ChannelType::Matrix);
        kinds.push(ChannelType::Email);
        kinds.push(ChannelType::Feishu);
        kinds.push(ChannelType::Dingtalk);
        kinds.push(ChannelType::Mattermost);
        kinds.push(ChannelType::Irc);
        kinds.push(ChannelType::Teams);
        kinds.push(ChannelType::Imessage);
        kinds.push(ChannelType::GoogleChat);
        kinds.push(ChannelType::Qq);
        kinds.push(ChannelType::Line);
        kinds.push(ChannelType::Nostr);
        assert(kinds@ =~= all_channel_types());
        kinds
    }

    /// The name of the kind, in small letters.
    pub open spec fn spec_name(self) -> Seq<char> {
        match self {
            ChannelType::Telegram => "telegram"@,
            ChannelType::Discord => "discord"@,
            ChannelType::Slack => "slack"@,
            ChannelType::Whatsapp => "whatsapp"@,
            ChannelType::Signal => "signal"@,
            ChannelType::Matrix => "matrix"@,
            ChannelType::Email => "email"@,
            ChannelType::Feishu => "feishu"@,
            ChannelType::Dingtalk => "dingtalk"@,
            ChannelType::Mattermost => "mattermost"@,
            ChannelType::Irc => "irc"@,
            ChannelType::Teams => "teams"@,
            ChannelType::Imessage => "imessage"@,
            ChannelType::GoogleChat => "google_chat"@,
            ChannelType::Qq => "qq"@,
            ChannelType::Line => "line"@,
            ChannelType::Nostr => "nostr"@,
        }
    }

    /// The name of the kind, in small letters.
    pub fn name(&self) -> (s: &'static str)
        ensures
            s@ == self.spec_name(),
    {
        match self {
            ChannelType::Telegram => "telegram",
            ChannelType::Discord => "discord",
            ChannelType::Slack => "slack",
            ChannelType::Whatsapp => "whatsapp",
            ChannelType::Signal => "signal",
            ChannelType::Matrix => "matrix",
            ChannelType::Email => "email",
            ChannelType::Feishu => "feishu",
            ChannelType::Dingtalk => "dingtalk",
            ChannelType::Mattermost => "mattermost",
            ChannelType::Irc => "irc",
            ChannelType::Teams => "teams",
            ChannelType::Imessage => "imessage",
            ChannelType::GoogleChat => "google_chat",
            ChannelType::Qq => "qq",
            ChannelType::Line => "line",
            ChannelType::Nostr => "nostr",
        }
    }

    /// The name of the kind as an owned string.
    pub fn to_string(&self) -> (s: String)
        ensures
            s@ == self.spec_name(),
    {
        self.name().to_string()
    }

    /// Resolves a text that is already in small letters.
    pub fn from_lowercase(lowered: &str) -> (kind: Option<ChannelType>)
        ensures
            kind == channel_type_named(lowered@),
    {
        if lowered.eq("telegram") {
            Some(ChannelType::Telegram)
        } else if lowered.eq("discord") {
            Some(ChannelType::Discord)
        } else if lowered.eq("slack") {
            Some(ChannelType::Slack)
        } else if lowered.eq("whatsapp") {
            Some(ChannelType::Whatsapp)
        } else if lowered.eq("signal") {
            Some(ChannelType::Signal)
        } else if lowered.eq("matrix") {
            Some(ChannelType::Matrix)
        } else if lowered.eq("email") {
            Some(ChannelType::Email)
        } else if lowered.eq("feishu") || lowered.eq("lark") {
            Some(ChannelType::Feishu)
        } else if lowered.eq("dingtalk") {
            Some(ChannelType::Dingtalk)
        } else if lowered.eq("mattermost") {
            Some(ChannelType::Mattermost)
        } else if lowered.eq("irc") {
            Some(ChannelType::Irc)
        } else if lowered.eq("teams") {
            Some(ChannelType::Teams)
        } else if lowered.eq("imessage") {
            Some(ChannelType::Imessage)
        } else if lowered.eq("google_chat") || lowered.eq("googlechat") {
            Some(ChannelType::GoogleChat)
        } else if lowered.eq("qq") {
            Some(ChannelType::Qq)
        } else if lowered.eq("line") {
            Some(ChannelType::Line)
        } else if lowered.eq("nostr") {
            Some(ChannelType::Nostr)
        } else {
            None
        }
    }

    /// Resolves a loosely written name: capitals count as small letters,
    /// and the aliases are known.
    pub fn from_str_loose(s: &str) -> (kind: Option<ChannelType>)
        ensures
            kind == channel_type_named(unicode_lowercase(s@)),
    {
        let lowered = s.to_lowercase();
        ChannelType::from_lowercase(lowered.as_str())
    }
}

/// Every kind is resolved from its own name.
pub proof fn lemma_name_resolves(kind: ChannelType)
    ensures
        channel_type_named(kind.spec_name()) == Some(kind),
{
    reveal_strlit("telegram");
    reveal_strlit("discord");
    reveal_strlit("slack");
    reveal_strlit("whatsapp");
    reveal_strlit("signal");
    reveal_strlit("matrix");
    reveal_strlit("email");
    reveal_strlit("feishu");
    reveal_strlit("lark");
    reveal_strlit("dingtalk");
    reveal_strlit("mattermost");
    reveal_strlit("irc");
    reveal_strlit("teams");
    reveal_strlit("imessage");
    reveal_strlit("google_chat");
    reveal_strlit("googlechat");
    reveal_strlit("qq");
    reveal_strlit("line");
    reveal_strlit("nostr");
    // Two of the names differ in their length or at one of these places.
    let name = kind.spec_name();
    assert(name.len() >= 2);
    let first = name[0];
    let second = name[1];
    if name.len() >= 5 {
        let fifth = name[4];
    }
}

/// Two kinds with the same name are the same kind.
pub proof fn lemma_name_injective(a: ChannelType, b: ChannelType)
    requires
        a.spec_name() == b.spec_name(),
    ensures
        a == b,
{
    lemma_name_resolves(a);
    lemma_name_resolves(b);
}

/// How a runtime supports a channel by itself.
#[derive(Debug, PartialEq, Eq)]
pub enum ChannelSupport {
    /// Built into the runtime.
    Native,
    /// Through a mechanism of the runtime, named here.
    Via(String),
    /// Not at all: the orchestrator has to proxy the channel.
    Unsupported,
}

/// How a runtime supports a channel, in mathematical terms.
pub enum ChannelSupportView {
    Native,
    Via(Seq<char>),
    Unsupported,
}

impl View for ChannelSupport {
    type V = ChannelSupportView;

    open spec fn view(&self) -> ChannelSupportView {
        match self {
            ChannelSupport::Native => ChannelSupportView::Native,
            ChannelSupport::Via(m) => ChannelSupportView::Via(m@),
            ChannelSupport::Unsupported => ChannelSupportView::Unsupported,
        }
    }
}

impl Clone for ChannelSupport {
    fn clone(&self) -> (copy: Self)
        ensures
            copy == *self,
    {
        match self {
            ChannelSupport::Native => ChannelSupport::Native,
            ChannelSupport::Via(m) => ChannelSupport::Via(m.clone()),
            ChannelSupport::Unsupported => ChannelSupport::Unsupported,
        }
    }
}

/// Whether a claim on a credential is in force.
#[derive(Debug, Clone, Copy, PartialEq, Eq, Structural)]
pub enum ChannelBindingStatus {
    Active,
    Draining,
    Released,
}

/// The state of the connection between one agent and one channel instance.
#[derive(Debug, Clone, Copy, PartialEq, Eq, Structural)]
pub enum ChannelConnectionStatus {
    Connected,
    Disconnected,
    RateLimited,
    Proxied,
}

/// A named configuration of one channel. The credentials are secrets and
/// pass through the library untouched.
#[derive(Debug)]
pub struct ChannelInstanceConfig {
    pub instance_name: String,
    pub channel_type: ChannelType,
    pub credentials: HashMap<String, String>,
    pub options: HashMap<String, serde_json::Value>,
}

/// A channel configuration in mathematical terms.
pub struct ChannelInstanceConfigView {
    pub instance_name: Seq<char>,
    pub channel_type: ChannelType,
    pub credentials: Map<String, String>,
    pub options: Map<String, serde_json::Value>,
}

impl View for ChannelInstanceConfig {
    type V = ChannelInstanceConfigView;

    open spec fn view(&self) -> ChannelInstanceConfigView {
        ChannelInstanceConfigView {
            instance_name: self.instance_name@,
            channel_type: self.channel_type,
            credentials: self.credentials@,
            options: self.options@,
        }
    }
}

impl Clone for ChannelInstanceConfig {
    fn clone(&self) -> (copy: Self)
        ensures
            copy@ == self@,
    {
        ChannelInstanceConfig {
            instance_name: self.instance_name.clone(),
            channel_type: self.channel_type,
            credentials: self.credentials.clone(),
            options: self.options.clone(),
        }
    }
}

/// The claim of one agent instance on one credential of one kind of
/// channel. Only the hash of the credential is kept.
#[derive(Debug)]
pub struct ChannelBinding {
    pub instance_id: String,
    pub channel_type: ChannelType,
    pub bot_token_hash: String,
    pub status: ChannelBindingStatus,
    pub bound_at_unix_ms: u64,
}

/// A binding in mathematical terms.
pub struct ChannelBindingView {
    pub instance_id: Seq<char>,
    pub channel_type: ChannelType,
    pub bot_token_hash: Seq<char>,
    pub status: ChannelBindingStatus,
    pub bound_at_unix_ms: u64,
}

impl View for ChannelBinding {
    type V = ChannelBindingView;

    open spec fn view(&self) -> ChannelBindingView {
        ChannelBindingView {
            instance_id: self.instance_id@,
            channel_type: self.channel_type,
            bot_token_hash: self.bot_token_hash@,
            status: self.status,
            bound_at_unix_ms: self.bound_at_unix_ms,
        }
    }
}

impl Clone for ChannelBinding {
    fn clone(&self) -> (copy: Self)
        ensures
            copy == *self,
    {
        ChannelBinding {
            instance_id: self.instance_id.clone(),
            channel_type: self.channel_type,
            bot_token_hash: self.bot_token_hash.clone(),
            status: self.status,
            bound_at_unix_ms: self.bound_at_unix_ms,
        }
    }
}

} // verus!
