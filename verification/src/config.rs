//! The declarative configuration of one agent, and what makes it valid.

use vstd::prelude::*;
use vstd::string::*;
use crate::runtime::ClawRuntime;
use crate::text::chars_of;

verus! {

/// `serde_json::Map`, the members of a JSON object. The library carries the
/// settings that it does not know in one and never looks inside.
#[verifier::external_type_specification]
#[verifier::external_body]
#[verifier::reject_recursive_types(K)]
#[verifier::reject_recursive_types(V)]
pub struct ExJsonMap<K, V>(serde_json::Map<K, V>);

/// Whether a character has the property White_Space of Unicode.
pub uninterp spec fn is_white_space(c: char) -> bool;

/// `char::is_whitespace` of the standard library says whether the
/// character has the property White_Space of Unicode. The property is a
/// table, so it is only named here.
pub assume_specification[ char::is_whitespace ](c: char) -> (yes: bool)
    ensures
        yes == is_white_space(c),
;

/// The model that an agent talks to.
#[derive(Debug)]
pub struct ModelConfig {
    pub provider: String,
    pub name: String,
    pub api_key_ref: Option<String>,
}

/// A tool and whether the agent may use it.
#[derive(Debug)]
pub struct ToolConfig {
    pub name: String,
    pub allowed: bool,
}

/// A channel and whether it is switched on.
#[derive(Debug)]
pub struct ChannelConfig {
    pub channel: String,
    pub enabled: bool,
}

/// What an agent is allowed to reach.
#[derive(Debug)]
pub struct SecurityConfig {
    pub allowlist: Vec<String>,
    pub sandboxed: bool,
}

/// The configuration of one agent.
#[derive(Debug)]
pub struct AgentConfig {
    pub name: String,
    pub runtime: ClawRuntime,
    pub model: ModelConfig,
    pub tools: Vec<ToolConfig>,
    pub channels: Vec<ChannelConfig>,
    pub security: SecurityConfig,
    pub extras: serde_json::Map<String, serde_json::Value>,
}

/// A configuration file.
#[derive(Debug)]
pub struct ClawLabConfig {
    pub agent: AgentConfig,
}

/// Whether a text is empty once the white space around it is taken away:
/// whether it holds nothing but white space.
pub open spec fn blank(text: Seq<char>) -> bool {
    forall|i: int| 0 <= i < text.len() ==> is_white_space(#[trigger] text[i])
}

/// Why a configuration is not valid, if it is not: the agent has no name,
/// or its model lacks the provider or the name.
pub open spec fn invalid_because(
    agent_name: Seq<char>,
    provider: Seq<char>,
    model_name: Seq<char>,
) -> Option<Seq<char>> {
    if blank(agent_name) {
        Some("agent.name must not be empty"@)
    } else if blank(provider) || blank(model_name) {
        Some("agent.model provider and name must not be empty"@)
    } else {
        None
    }
}

fn is_blank(text: &str) -> (yes: bool)
    ensures
        yes == blank(text@),
{
    let chars = chars_of(text);
    let mut i: usize = 0;
    while i < chars.len()
        invariant
            i <= chars.len(),
            chars@ == text@,
            forall|j: int| 0 <= j < i ==> is_white_space(#[trigger] chars@[j]),
        decreases chars.len() - i,
    {
        if !chars[i].is_whitespace() {
            return false;
        }
        i += 1;
    }
    true
}

impl ClawLabConfig {
    /// Checks that the agent has a name and its model a provider and a
    /// name.
    pub fn validate(&self) -> (r: Result<(), String>)
        ensures
            match invalid_because(
                self.agent.name@,
                self.agent.model.provider@,
                self.agent.model.name@,
            ) {
                Some(reason) => (r matches Err(e) && e@ == reason),
                None => r is Ok,
            },
    {
        if is_blank(self.agent.name.as_str()) {
            return Err("agent.name must not be empty".to_string());
        }
        if is_blank(self.agent.model.provider.as_str()) || is_blank(
            self.agent.model.name.as_str(),
        ) {
            return Err("agent.model provider and name must not be empty".to_string());
        }
        Ok(())
    }
}

} // verus!
