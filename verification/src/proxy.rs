//! The proxy router: whether a channel reaches a runtime by the runtime's
//! own means or through the orchestrator, and the shape of the messages
//! that go through the orchestrator.

use vstd::prelude::*;
use vstd::string::*;
use crate::channel::{ChannelSupport, ChannelType};
use crate::runtime::{AgentMessage, AgentResponse, RuntimeMetadata, RuntimeMetadataView};

verus! {

/// The routing of one channel to one runtime.
#[derive(Debug)]
pub struct ProxyStatus {
    pub channel_type: String,
    pub runtime: String,
    pub is_proxied: bool,
    pub reason: Option<String>,
}

/// A channel needs the proxy unless the runtime declares it native or
/// supported through a mechanism of its own. A channel that the runtime
/// does not mention needs the proxy like one that it declares unsupported.
pub open spec fn proxy_needed(metadata: RuntimeMetadataView, channel: ChannelType) -> bool {
    if metadata.channel_support.contains_key(channel) {
        metadata.channel_support[channel] is Unsupported
    } else {
        true
    }
}

/// Why the proxy is used for a channel of a runtime.
pub open spec fn proxy_reason(metadata: RuntimeMetadataView, channel: ChannelType) -> Seq<char> {
    metadata.runtime.spec_name() + " does not natively support "@ + channel.spec_name()
        + "; ClawDen will proxy"@
}

/// Says whether a channel needs the proxy to reach a runtime.
pub fn needs_proxy(metadata: &RuntimeMetadata, channel: &ChannelType) -> (needed: bool)
    ensures
        needed == proxy_needed(metadata@, *channel),
{
    match metadata.channel_support.get(channel) {
        Some(ChannelSupport::Native) => false,
        Some(ChannelSupport::Via(_)) => false,
        Some(ChannelSupport::Unsupported) => true,
        None => true,
    }
}

/// The routing of a channel to a runtime, with the reason where the proxy
/// is used.
pub fn proxy_status(metadata: &RuntimeMetadata, channel: &ChannelType) -> (status: ProxyStatus)
    ensures
        status.channel_type@ == channel.spec_name(),
        status.runtime@ == metadata@.runtime.spec_name(),
        status.is_proxied == proxy_needed(metadata@, *channel),
        match status.reason {
            Some(reason) => status.is_proxied && reason@ == proxy_reason(metadata@, *channel),
            None => !status.is_proxied,
        },
{
    let proxied = needs_proxy(metadata, channel);
    let reason = if proxied {
        let mut text = metadata.runtime.to_string();
        text.append(" does not natively support ");
        text.append(channel.name());
        text.append("; ClawDen will proxy");
        Some(text)
    } else {
        None
    };
    ProxyStatus {
        channel_type: channel.to_string(),
        runtime: metadata.runtime.to_string(),
        is_proxied: proxied,
        reason,
    }
}

/// Wraps a message that came in on a channel for the generic message path
/// of a runtime: the role names the channel, and the content begins with
/// the sender.
pub fn create_proxy_message(channel_type: &ChannelType, sender: &str, content: &str) -> (message:
    AgentMessage)
    ensures
        message.role@ == "proxy:"@ + channel_type.spec_name(),
        message.content@ == "["@ + sender@ + "] "@ + content@,
{
    let mut role = "proxy:".to_string();
    role.append(channel_type.name());
    let mut text = "[".to_string();
    text.append(sender);
    text.append("] ");
    text.append(content);
    AgentMessage { role, content: text }
}

/// The text of an answer that goes back to the channel.
pub fn format_proxy_response(response: &AgentResponse) -> (text: String)
    ensures
        text@ == response.content@,
{
    response.content.clone()
}

/// A channel that a runtime supports natively or through a mechanism of
/// its own goes without the proxy; one that it declares unsupported, or
/// does not mention, goes through it.
pub proof fn lemma_proxy_by_support(metadata: RuntimeMetadataView, channel: ChannelType)
    ensures
        metadata.channel_support.contains_key(channel) && (metadata.channel_support[channel]
            is Native || metadata.channel_support[channel] is Via) ==> !proxy_needed(
            metadata,
            channel,
        ),
        !metadata.channel_support.contains_key(channel) || metadata.channel_support[channel]
            is Unsupported ==> proxy_needed(metadata, channel),
{
}

} // verus!
