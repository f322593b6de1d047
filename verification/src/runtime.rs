//! Agent runtimes: their identifiers, what a runtime declares of itself,
//! and the contract by which the orchestrator controls any of them.

use vstd::prelude::*;
use vstd::string::*;
use crate::channel::{ChannelSupport, ChannelSupportView, ChannelType};
use crate::seqs::{first_where, lemma_first_where, lemma_first_where_is, views};
use crate::text::{lex_le, lemma_lex_le_transitive};

verus! {

/// The identifier of a runtime backend.
#[derive(Debug, Clone, Copy, PartialEq, Eq, Hash, Structural)]
pub enum ClawRuntime {
    OpenClaw,
    ZeroClaw,
    PicoClaw,
    NanoClaw,
    IronClaw,
    NullClaw,
    MicroClaw,
    MimiClaw,
}

impl ClawRuntime {
    /// The canonical name of the runtime.
    pub open spec fn spec_name(self) -> Seq<char> {
        match self {
            ClawRuntime::OpenClaw => "OpenClaw"@,
            ClawRuntime::ZeroClaw => "ZeroClaw"@,
            ClawRuntime::PicoClaw => "PicoClaw"@,
            ClawRuntime::NanoClaw => "NanoClaw"@,
            ClawRuntime::IronClaw => "IronClaw"@,
            ClawRuntime::NullClaw => "NullClaw"@,
            ClawRuntime::MicroClaw => "MicroClaw"@,
            ClawRuntime::MimiClaw => "MimiClaw"@,
        }
    }

    /// The name of the runtime in small letters, its words joined by a
    /// hyphen: the form in which a runtime is written on the wire.
    pub open spec fn spec_wire_name(self) -> Seq<char> {
        match self {
            ClawRuntime::OpenClaw => "open-claw"@,
            ClawRuntime::ZeroClaw => "zero-claw"@,
            ClawRuntime::PicoClaw => "pico-claw"@,
            ClawRuntime::NanoClaw => "nano-claw"@,
            ClawRuntime::IronClaw => "iron-claw"@,
            ClawRuntime::NullClaw => "null-claw"@,
            ClawRuntime::MicroClaw => "micro-claw"@,
            ClawRuntime::MimiClaw => "mimi-claw"@,
        }
    }

    /// The place of the runtime in the canonical order.
    pub open spec fn rank(self) -> int {
        match self {
            ClawRuntime::IronClaw => 0,
            ClawRuntime::MicroClaw => 1,
            ClawRuntime::MimiClaw => 2,
            ClawRuntime::NanoClaw => 3,
            ClawRuntime::NullClaw => 4,
            ClawRuntime::OpenClaw => 5,
            ClawRuntime::PicoClaw => 6,
            ClawRuntime::ZeroClaw => 7,
        }
    }

    /// The canonical name of the runtime.
    pub fn name(&self) -> (s: &'static str)
        ensures
            s@ == self.spec_name(),
    {
        match self {
            ClawRuntime::OpenClaw => "OpenClaw",
            ClawRuntime::ZeroClaw => "ZeroClaw",
            ClawRuntime::PicoClaw => "PicoClaw",
            ClawRuntime::NanoClaw => "NanoClaw",
            ClawRuntime::IronClaw => "IronClaw",
            ClawRuntime::NullClaw => "NullClaw",
            ClawRuntime::MicroClaw => "MicroClaw",
            ClawRuntime::MimiClaw => "MimiClaw",
        }
    }

    /// The canonical name as an owned string.
    pub fn to_string(&self) -> (s: String)
        ensures
            s@ == self.spec_name(),
    {
        self.name().to_string()
    }

    /// The name of the runtime as it is written on the wire.
    pub fn wire_name(&self) -> (s: &'static str)
        ensures
            s@ == self.spec_wire_name(),
    {
        match self {
            ClawRuntime::OpenClaw => "open-claw",
            ClawRuntime::ZeroClaw => "zero-claw",
            ClawRuntime::PicoClaw => "pico-claw",
            ClawRuntime::NanoClaw => "nano-claw",
            ClawRuntime::IronClaw => "iron-claw",
            ClawRuntime::NullClaw => "null-claw",
            ClawRuntime::MicroClaw => "micro-claw",
            ClawRuntime::MimiClaw => "mimi-claw",
        }
    }

    /// All runtimes in the canonical order.
    pub fn all() -> (order: Vec<ClawRuntime>)
        ensures
            order@ == canonical_order(),
    {
        let mut order: Vec<ClawRuntime> = Vec::new();
        order.push(ClawRuntime::IronClaw);
        order.push(ClawRuntime::MicroClaw);
        order.push(ClawRuntime::MimiClaw);
        order.push(ClawRuntime::NanoClaw);
        order.push(ClawRuntime::NullClaw);
        order.push(ClawRuntime::OpenClaw);
        order.push(ClawRuntime::PicoClaw);
        order.push(ClawRuntime::ZeroClaw);
        assert(order@ =~= canonical_order());
        order
    }
}

/// The runtimes in the order of their canonical names.
pub open spec fn canonical_order() -> Seq<ClawRuntime> {
    seq![
        ClawRuntime::IronClaw,
        ClawRuntime::MicroClaw,
        ClawRuntime::MimiClaw,
        ClawRuntime::NanoClaw,
        ClawRuntime::NullClaw,
        ClawRuntime::OpenClaw,
        ClawRuntime::PicoClaw,
        ClawRuntime::ZeroClaw,
    ]
}

/// The canonical order lists every runtime once, at the place of its rank.
pub proof fn lemma_canonical_order_complete(runtime: ClawRuntime)
    ensures
        0 <= runtime.rank() < canonical_order().len(),
        canonical_order()[runtime.rank()] == runtime,
        forall|i: int|
            0 <= i < canonical_order().len() && #[trigger] canonical_order()[i] == runtime ==> i
                == runtime.rank(),
{
}

/// The canonical order is the order of the canonical names as strings.
pub proof fn lemma_canonical_order_by_name(a: ClawRuntime, b: ClawRuntime)
    requires
        a.rank() <= b.rank(),
    ensures
        lex_le(a.spec_name(), b.spec_name()),
    decreases b.rank() - a.rank(),
{
    reveal_strlit("OpenClaw");
    reveal_strlit("ZeroClaw");
    reveal_strlit("PicoClaw");
    reveal_strlit("NanoClaw");
    reveal_strlit("IronClaw");
    reveal_strlit("NullClaw");
    reveal_strlit("MicroClaw");
    reveal_strlit("MimiClaw");
    let order = canonical_order();
    if a.rank() == b.rank() {
        lemma_lex_le_same(a.spec_name());
    } else if a.rank() + 1 == b.rank() {
        let x = a.spec_name();
        let y = b.spec_name();
        assert(x[0] <= y[0]);
        if x[0] == y[0] {
            assert(x.drop_first()[0] == x[1]);
            assert(y.drop_first()[0] == y[1]);
            assert(x[1] <= y[1]);
            if x[1] == y[1] {
                assert(x.drop_first().drop_first()[0] == x[2]);
                assert(y.drop_first().drop_first()[0] == y[2]);
                assert(x[2] < y[2]);
            }
        }
        reveal_with_fuel(lex_le, 4);
    } else {
        let mid = order[a.rank() + 1];
        lemma_canonical_order_by_name(a, mid);
        lemma_canonical_order_by_name(mid, b);
        lemma_lex_le_transitive(a.spec_name(), mid.spec_name(), b.spec_name());
    }
}

proof fn lemma_lex_le_same(a: Seq<char>)
    ensures
        lex_le(a, a),
    decreases a.len(),
{
    if a.len() > 0 {
        lemma_lex_le_same(a.drop_first());
    }
}

/// What a runtime declares of its support for channels: for some kinds of
/// channel a level of support, for the others nothing.
#[derive(Debug)]
pub struct ChannelSupportMap {
    entries: Vec<(ChannelType, ChannelSupport)>,
}

/// The place of the first entry for a kind of channel, or the number of
/// entries where there is none.
pub open spec fn support_index(entries: Seq<(ChannelType, ChannelSupport)>, kind: ChannelType) -> int {
    first_where(entries, declares(kind))
}

/// The entries that declare something for the given kind of channel.
pub open spec fn declares(kind: ChannelType) -> spec_fn((ChannelType, ChannelSupport)) -> bool {
    |e: (ChannelType, ChannelSupport)| e.0 == kind
}

/// The declarations as a map from the kind of channel to the support.
pub open spec fn support_map(entries: Seq<(ChannelType, ChannelSupport)>) -> Map<
    ChannelType,
    ChannelSupportView,
> {
    Map::new(
        |kind: ChannelType| support_index(entries, kind) < entries.len(),
        |kind: ChannelType| entries[support_index(entries, kind)].1@,
    )
}

impl View for ChannelSupportMap {
    type V = Map<ChannelType, ChannelSupportView>;

    closed spec fn view(&self) -> Map<ChannelType, ChannelSupportView> {
        support_map(self.entries@)
    }
}

impl ChannelSupportMap {
    /// A map that declares nothing.
    pub fn new() -> (m: Self)
        ensures
            m@ == Map::<ChannelType, ChannelSupportView>::empty(),
    {
        let m = ChannelSupportMap { entries: Vec::new() };
        assert(m@ =~= Map::<ChannelType, ChannelSupportView>::empty());
        m
    }

    fn find(&self, kind: ChannelType) -> (at: usize)
        ensures
            at as int == support_index(self.entries@, kind),
            at <= self.entries@.len(),
    {
        let ghost p = declares(kind);
        let mut i: usize = 0;
        while i < self.entries.len()
            invariant
                i <= self.entries.len(),
                p == declares(kind),
                forall|j: int| 0 <= j < i ==> !p(#[trigger] self.entries@[j]),
            decreases self.entries.len() - i,
        {
            if self.entries[i].0 == kind {
                proof {
                    assert(p(self.entries@[i as int]));
                    lemma_first_where_is(self.entries@, p, i as int);
                }
                return i;
            }
            i += 1;
        }
        proof {
            lemma_first_where_is(self.entries@, p, i as int);
        }
        i
    }

    /// Declares the support for a kind of channel, in place of what was
    /// declared for it before. Returns whether something was declared before.
    pub fn insert(&mut self, kind: ChannelType, support: ChannelSupport) -> (replaced: bool)
        ensures
            final(self)@ == old(self)@.insert(kind, support@),
            replaced == old(self)@.contains_key(kind),
    {
        let ghost before = self.entries@;
        let ghost declared = support@;
        let at = self.find(kind);
        let replaced = at < self.entries.len();
        if replaced {
            self.entries[at].1 = support;
        } else {
            self.entries.push((kind, support));
        }
        proof {
            let after = self.entries@;
            lemma_first_where(before, declares(kind));
            assert(after[at as int].0 == kind);
            assert(after[at as int].1@ == declared);
            assert(forall|j: int| 0 <= j < before.len() && j != at ==> after[j] == before[j]);
            let m1 = support_map(after);
            let m2 = support_map(before).insert(kind, declared);
            assert forall|k: ChannelType|
                #![trigger m1.dom().contains(k)]
                #![trigger m2.dom().contains(k)]
                #![trigger m1[k]]
                #![trigger m2[k]]
                m1.dom().contains(k) == m2.dom().contains(k) && (m1.dom().contains(k) ==> m1[k]
                    == m2[k]) by {
                let p = declares(k);
                lemma_first_where(before, p);
                let i = support_index(before, k);
                if k == kind {
                    lemma_first_where_is(after, p, at as int);
                } else if i < before.len() {
                    assert(p(before[i]));
                    assert(i != at);
                    lemma_first_where_is(after, p, i);
                } else {
                    lemma_first_where_is(after, p, after.len() as int);
                }
            }
            assert(m1 =~= m2);
        }
        replaced
    }

    /// What is declared for a kind of channel.
    pub fn get(&self, kind: &ChannelType) -> (support: Option<&ChannelSupport>)
        ensures
            match support {
                Some(s) => self@.contains_key(*kind) && s@ == self@[*kind],
                None => !self@.contains_key(*kind),
            },
    {
        let at = self.find(*kind);
        if at < self.entries.len() {
            Some(&self.entries[at].1)
        } else {
            None
        }
    }
}

impl Clone for ChannelSupportMap {
    fn clone(&self) -> (copy: Self)
        ensures
            copy@ == self@,
    {
        let mut entries: Vec<(ChannelType, ChannelSupport)> = Vec::new();
        let mut i: usize = 0;
        while i < self.entries.len()
            invariant
                i <= self.entries.len(),
                entries@ == self.entries@.take(i as int),
            decreases self.entries.len() - i,
        {
            entries.push((self.entries[i].0, self.entries[i].1.clone()));
            assert(self.entries@.take(i + 1) =~= self.entries@.take(i as int).push(
                self.entries@[i as int],
            ));
            i += 1;
        }
        assert(self.entries@.take(i as int) =~= self.entries@);
        ChannelSupportMap { entries }
    }
}

/// What a runtime declares of itself.
#[derive(Debug)]
pub struct RuntimeMetadata {
    pub runtime: ClawRuntime,
    pub version: String,
    pub language: String,
    pub capabilities: Vec<String>,
    pub default_port: Option<u16>,
    pub config_format: Option<String>,
    pub channel_support: ChannelSupportMap,
}

/// The declaration of a runtime in mathematical terms.
pub struct RuntimeMetadataView {
    pub runtime: ClawRuntime,
    pub version: Seq<char>,
    pub language: Seq<char>,
    pub capabilities: Seq<Seq<char>>,
    pub default_port: Option<u16>,
    pub config_format: Option<Seq<char>>,
    pub channel_support: Map<ChannelType, ChannelSupportView>,
}

impl View for RuntimeMetadata {
    type V = RuntimeMetadataView;

    open spec fn view(&self) -> RuntimeMetadataView {
        RuntimeMetadataView {
            runtime: self.runtime,
            version: self.version@,
            language: self.language@,
            capabilities: views(self.capabilities@),
            default_port: self.default_port,
            config_format: match self.config_format {
                Some(f) => Some(f@),
                None => None,
            },
            channel_support: self.channel_support@,
        }
    }
}

impl Clone for RuntimeMetadata {
    fn clone(&self) -> (copy: Self)
        ensures
            copy@ == self@,
    {
        let capabilities = self.capabilities.clone();
        assert(views(capabilities@) =~= views(self.capabilities@));
        RuntimeMetadata {
            runtime: self.runtime,
            version: self.version.clone(),
            language: self.language.clone(),
            capabilities,
            default_port: self.default_port,
            config_format: match &self.config_format {
                Some(f) => Some(f.clone()),
                None => None,
            },
            channel_support: self.channel_support.clone(),
        }
    }
}

/// What to install.
#[derive(Debug)]
pub struct InstallConfig {
    pub runtime: ClawRuntime,
    pub image: Option<String>,
}

impl Clone for InstallConfig {
    fn clone(&self) -> (copy: Self)
        ensures
            copy == *self,
    {
        InstallConfig {
            runtime: self.runtime,
            image: match &self.image {
                Some(i) => Some(i.clone()),
                None => None,
            },
        }
    }
}

/// The agent to start.
#[derive(Debug)]
pub struct AgentConfig {
    pub name: String,
    pub runtime: ClawRuntime,
    pub model: Option<String>,
}

impl Clone for AgentConfig {
    fn clone(&self) -> (copy: Self)
        ensures
            copy == *self,
    {
        AgentConfig {
            name: self.name.clone(),
            runtime: self.runtime,
            model: match &self.model {
                Some(m) => Some(m.clone()),
                None => None,
            },
        }
    }
}

/// One running agent instance.
#[derive(Debug)]
pub struct AgentHandle {
    pub id: String,
    pub name: String,
    pub runtime: ClawRuntime,
}

impl Clone for AgentHandle {
    fn clone(&self) -> (copy: Self)
        ensures
            copy == *self,
    {
        AgentHandle { id: self.id.clone(), name: self.name.clone(), runtime: self.runtime }
    }
}

/// What a health check found.
#[derive(Debug, Clone, Copy, PartialEq, Eq, Structural)]
pub enum HealthStatus {
    Healthy,
    Degraded,
    Unhealthy,
    Unknown,
}

/// A message for an agent.
#[derive(Debug)]
pub struct AgentMessage {
    pub role: String,
    pub content: String,
}

impl Clone for AgentMessage {
    fn clone(&self) -> (copy: Self)
        ensures
            copy == *self,
    {
        AgentMessage { role: self.role.clone(), content: self.content.clone() }
    }
}

/// The answer of an agent.
#[derive(Debug)]
pub struct AgentResponse {
    pub content: String,
}

impl Clone for AgentResponse {
    fn clone(&self) -> (copy: Self)
        ensures
            copy == *self,
    {
        AgentResponse { content: self.content.clone() }
    }
}

/// The configuration of a runtime, as the JSON value that the runtime
/// understands.
#[derive(Debug)]
pub struct RuntimeConfig {
    pub values: serde_json::Value,
}

impl Clone for RuntimeConfig {
    fn clone(&self) -> (copy: Self)
        ensures
            copy == *self,
    {
        RuntimeConfig { values: self.values.clone() }
    }
}

/// An extension that an agent has installed.
#[derive(Debug)]
pub struct Skill {
    pub name: String,
    pub version: String,
}

impl Clone for Skill {
    fn clone(&self) -> (copy: Self)
        ensures
            copy == *self,
    {
        Skill { name: self.name.clone(), version: self.version.clone() }
    }
}

/// An extension on offer, with the runtimes it is made for.
#[derive(Debug)]
pub struct SkillManifest {
    pub name: String,
    pub version: String,
    pub runtimes: Vec<ClawRuntime>,
}

impl Clone for SkillManifest {
    fn clone(&self) -> (copy: Self)
        ensures
            copy.name == self.name,
            copy.version == self.version,
            copy.runtimes@ == self.runtimes@,
    {
        SkillManifest {
            name: self.name.clone(),
            version: self.version.clone(),
            runtimes: self.runtimes.clone(),
        }
    }
}

/// The events of a subscription.
pub type EventStream = Vec<serde_json::Value>;

/// The control-plane contract of a runtime backend. One implementation
/// stands for one backend; the orchestrator drives every backend through
/// these operations alone. An operation fails with a message of the backend.
pub trait ClawAdapter: Send + Sync {
    /// What the backend declares of itself: the same at every call.
    spec fn spec_metadata(&self) -> RuntimeMetadataView;

    /// The identifier that the backend gives the agent of a given name.
    spec fn handle_id(&self, agent_name: Seq<char>) -> Seq<char>;

    /// The declaration of the backend.
    fn metadata(&self) -> (m: RuntimeMetadata)
        ensures
            m@ == self.spec_metadata(),
    ;

    /// Makes the backend ready to host agents.
    fn install(&self, config: &InstallConfig) -> Result<(), String>;

    /// Starts an agent. The identifier of the handle follows from the
    /// backend and the agent's name alone, so a second start of the same
    /// agent is recognised.
    fn start(&self, config: &AgentConfig) -> (r: Result<AgentHandle, String>)
        ensures
            r matches Ok(handle) ==> {
                &&& handle.id@ == self.handle_id(config.name@)
                &&& handle.name@ == config.name@
                &&& handle.runtime == self.spec_metadata().runtime
            },
    ;

    /// Stops an agent.
    fn stop(&self, handle: &AgentHandle) -> Result<(), String>;

    /// Stops an agent and starts it again.
    fn restart(&self, handle: &AgentHandle) -> Result<(), String>;

    /// Looks at an agent. One that cannot be reached is `Unknown`, not an
    /// error.
    fn health(&self, handle: &AgentHandle) -> Result<HealthStatus, String>;

    /// Hands a message to an agent and returns its answer.
    fn send(&self, handle: &AgentHandle, message: &AgentMessage) -> Result<AgentResponse, String>;

    /// The events of one kind. A backend without events returns none.
    fn subscribe(&self, handle: &AgentHandle, event: &str) -> Result<EventStream, String>;

    /// The configuration of an agent.
    fn get_config(&self, handle: &AgentHandle) -> Result<RuntimeConfig, String>;

    /// Replaces the configuration of an agent.
    fn set_config(&self, handle: &AgentHandle, config: &RuntimeConfig) -> Result<(), String>;

    /// The extensions of an agent.
    fn list_skills(&self, handle: &AgentHandle) -> Result<Vec<Skill>, String>;

    /// Adds an extension to an agent.
    fn install_skill(&self, handle: &AgentHandle, skill: &SkillManifest) -> Result<(), String>;
}

} // verus!
