//! The channel store: configurations of channel instances, the bindings
//! that claim credentials for agent instances, the channels assigned to
//! each agent and the state of every connection.
//!
//! Each part is a list in the order in which its entries came, and each
//! key occurs in its list at most once.

use vstd::prelude::*;
use vstd::string::*;
use vstd::utf8::encode_utf8;
use std::collections::HashMap;
use sha2::{Digest, Sha256};
use crate::channel::{
    all_channel_types, channel_type_named, ChannelBinding, ChannelBindingStatus, ChannelBindingView,
    ChannelConnectionStatus, ChannelInstanceConfig, ChannelInstanceConfigView, ChannelType,
};
use crate::clock::{clock_error, current_unix_ms};
use crate::seqs::{
    first_where, lemma_filter_empty, lemma_filter_single, lemma_filter_step, lemma_first_where,
    lemma_first_where_is, views,
};
use crate::text::{decimal, decimal_string, hex_lower, hex_string, unicode_lowercase};

verus! {

/// A request to create or replace a channel configuration. The kind of
/// channel is still a loosely written name.
#[derive(Debug)]
pub struct ChannelConfigRequest {
    pub instance_name: String,
    pub channel_type: String,
    pub credentials: HashMap<String, String>,
    pub options: HashMap<String, serde_json::Value>,
}

/// A request to bind a credential to an agent instance.
#[derive(Debug)]
pub struct BindChannelRequest {
    pub instance_id: String,
    pub channel_type: String,
    pub bot_token: String,
}

/// The channels that one agent consumes.
pub struct Assignment {
    agent_id: String,
    channels: Vec<String>,
}

/// The channels of one agent in mathematical terms.
pub struct AssignmentView {
    pub agent_id: Seq<char>,
    pub channels: Seq<Seq<char>>,
}

impl View for Assignment {
    type V = AssignmentView;

    closed spec fn view(&self) -> AssignmentView {
        AssignmentView { agent_id: self.agent_id@, channels: views(self.channels@) }
    }
}

/// The recorded state of one connection.
pub struct Connection {
    agent_id: String,
    channel_name: String,
    status: ChannelConnectionStatus,
}

/// The recorded state of one connection in mathematical terms.
pub struct ConnectionView {
    pub agent_id: Seq<char>,
    pub channel_name: Seq<char>,
    pub status: ChannelConnectionStatus,
}

impl View for Connection {
    type V = ConnectionView;

    closed spec fn view(&self) -> ConnectionView {
        ConnectionView {
            agent_id: self.agent_id@,
            channel_name: self.channel_name@,
            status: self.status,
        }
    }
}

/// What a channel store holds.
pub struct ChannelStoreView {
    pub configs: Seq<ChannelInstanceConfigView>,
    pub bindings: Seq<ChannelBindingView>,
    pub assignments: Seq<AssignmentView>,
    pub connections: Seq<ConnectionView>,
}

/// The configurations of a given instance name.
pub open spec fn config_named(name: Seq<char>) -> spec_fn(ChannelInstanceConfigView) -> bool {
    |c: ChannelInstanceConfigView| c.instance_name == name
}

/// The configurations of a given kind of channel.
pub open spec fn config_of_kind(kind: ChannelType) -> spec_fn(ChannelInstanceConfigView) -> bool {
    |c: ChannelInstanceConfigView| c.channel_type == kind
}

/// The place of the configuration of a given name, or the number of
/// configurations where there is none.
pub open spec fn config_index(configs: Seq<ChannelInstanceConfigView>, name: Seq<char>) -> int {
    first_where(configs, config_named(name))
}

/// The instance names of the configurations, in their order.
pub open spec fn config_names(configs: Seq<ChannelInstanceConfigView>) -> Seq<Seq<char>> {
    Seq::new(configs.len(), |i: int| configs[i].instance_name)
}

/// The configurations after one is put in: in the place of the one of the
/// same name, or behind all others where the name is new.
pub open spec fn with_config(
    configs: Seq<ChannelInstanceConfigView>,
    config: ChannelInstanceConfigView,
) -> Seq<ChannelInstanceConfigView> {
    let at = config_index(configs, config.instance_name);
    if at < configs.len() {
        configs.update(at, config)
    } else {
        configs.push(config)
    }
}

/// The configurations after the one of the given name is taken out.
pub open spec fn without_config(configs: Seq<ChannelInstanceConfigView>, name: Seq<char>) -> Seq<
    ChannelInstanceConfigView,
> {
    let at = config_index(configs, name);
    if at < configs.len() {
        configs.remove(at)
    } else {
        configs
    }
}

/// The agents of the assignments, in their order.
pub open spec fn assignment_agents(assignments: Seq<AssignmentView>) -> Seq<Seq<char>> {
    Seq::new(assignments.len(), |i: int| assignments[i].agent_id)
}

/// The pairs of agent and channel instance of the connections, in their
/// order.
pub open spec fn connection_keys(connections: Seq<ConnectionView>) -> Seq<(Seq<char>, Seq<char>)> {
    Seq::new(connections.len(), |i: int| (connections[i].agent_id, connections[i].channel_name))
}

/// The invariant of a store: no instance name, no agent and no pair of
/// agent and channel instance occurs twice in its list, and no agent has a
/// channel twice.
pub open spec fn store_wf(s: ChannelStoreView) -> bool {
    &&& config_names(s.configs).no_duplicates()
    &&& assignment_agents(s.assignments).no_duplicates()
    &&& forall|i: int|
        0 <= i < s.assignments.len() ==> (#[trigger] s.assignments[i]).channels.no_duplicates()
    &&& connection_keys(s.connections).no_duplicates()
}

/// Putting a configuration in keeps the instance names apart.
pub proof fn lemma_with_config_names(
    configs: Seq<ChannelInstanceConfigView>,
    config: ChannelInstanceConfigView,
)
    requires
        config_names(configs).no_duplicates(),
    ensures
        config_names(with_config(configs, config)).no_duplicates(),
        config_index(with_config(configs, config), config.instance_name) < with_config(
            configs,
            config,
        ).len(),
        with_config(configs, config)[config_index(
            with_config(configs, config),
            config.instance_name,
        )] == config,
{
    let at = config_index(configs, config.instance_name);
    let after = with_config(configs, config);
    let p = config_named(config.instance_name);
    lemma_first_where(configs, p);
    if at < configs.len() {
        assert(config_names(after) =~= config_names(configs));
        lemma_first_where_is(after, p, at);
    } else {
        assert forall|i: int, j: int|
            0 <= i < after.len() && 0 <= j < after.len() && i != j implies config_names(after)[i]
            != config_names(after)[j] by {
            if i < configs.len() && j < configs.len() {
                assert(config_names(configs)[i] != config_names(configs)[j]);
            } else if i < configs.len() {
                assert(!p(configs[i]));
            } else {
                assert(!p(configs[j]));
            }
        }
        lemma_first_where_is(after, p, at);
    }
}

/// Taking a configuration out keeps the instance names apart, and leaves
/// none of the name that was taken out.
pub proof fn lemma_without_config_names(configs: Seq<ChannelInstanceConfigView>, name: Seq<char>)
    requires
        config_names(configs).no_duplicates(),
    ensures
        config_names(without_config(configs, name)).no_duplicates(),
        config_index(without_config(configs, name), name) == without_config(configs, name).len(),
{
    let at = config_index(configs, name);
    let after = without_config(configs, name);
    let p = config_named(name);
    lemma_first_where(configs, p);
    if at < configs.len() {
        assert forall|i: int, j: int|
            0 <= i < after.len() && 0 <= j < after.len() && i != j implies config_names(after)[i]
            != config_names(after)[j] by {
            let a = if i < at { i } else { i + 1 };
            let b = if j < at { j } else { j + 1 };
            assert(config_names(configs)[a] != config_names(configs)[b]);
        }
        assert forall|j: int| 0 <= j < after.len() implies !p(#[trigger] after[j]) by {
            let b = if j < at { j } else { j + 1 };
            assert(config_names(configs)[b] != config_names(configs)[at]);
        }
    }
    lemma_first_where_is(after, p, after.len() as int);
}

/// One credential that several agent instances claim at once.
#[derive(Debug)]
pub struct BindingConflict {
    pub channel_type: String,
    pub bot_token_hash: String,
    pub instance_ids: Vec<String>,
}

/// A conflict in mathematical terms.
pub struct BindingConflictView {
    pub channel_type: Seq<char>,
    pub bot_token_hash: Seq<char>,
    pub instance_ids: Seq<Seq<char>>,
}

impl View for BindingConflict {
    type V = BindingConflictView;

    open spec fn view(&self) -> BindingConflictView {
        BindingConflictView {
            channel_type: self.channel_type@,
            bot_token_hash: self.bot_token_hash@,
            instance_ids: views(self.instance_ids@),
        }
    }
}

/// The SHA-256 digest of a sequence of bytes.
pub uninterp spec fn sha256(data: Seq<u8>) -> Seq<u8>;

/// `Sha256::digest` of the crate `sha2` computes the SHA-256 digest of the
/// data. The digest is only named here: equal data have equal digests.
#[verifier::external_body]
fn sha256_digest(data: &[u8]) -> (digest: Vec<u8>)
    ensures
        digest@ == sha256(data@),
{
    Sha256::digest(data).to_vec()
}

/// What the store keeps of a credential: the SHA-256 digest of its UTF-8
/// bytes, in small-letter hexadecimal notation.
pub open spec fn token_hash(token: Seq<char>) -> Seq<char> {
    hex_lower(sha256(encode_utf8(token)))
}

fn hash_token(token: &str) -> (hash: String)
    ensures
        hash@ == token_hash(token@),
{
    let digest = sha256_digest(token.as_bytes());
    hex_string(digest.as_slice())
}

/// The bindings of one credential of one kind of channel.
pub open spec fn binding_keyed(kind: ChannelType, hash: Seq<char>) -> spec_fn(
    ChannelBindingView,
) -> bool {
    |b: ChannelBindingView| b.channel_type == kind && b.bot_token_hash == hash
}

/// The bindings of one credential of one kind of channel that are in force.
pub open spec fn active_claim(kind: ChannelType, hash: Seq<char>) -> spec_fn(
    ChannelBindingView,
) -> bool {
    |b: ChannelBindingView|
        b.status == ChannelBindingStatus::Active && b.channel_type == kind && b.bot_token_hash
            == hash
}

/// The place of the first binding of a credential, or the number of
/// bindings where there is none.
pub open spec fn binding_index(
    bindings: Seq<ChannelBindingView>,
    kind: ChannelType,
    hash: Seq<char>,
) -> int {
    first_where(bindings, binding_keyed(kind, hash))
}

/// The kinds and hashes of the bindings, in their order.
pub open spec fn binding_keys(bindings: Seq<ChannelBindingView>) -> Seq<(ChannelType, Seq<char>)> {
    Seq::new(bindings.len(), |i: int| (bindings[i].channel_type, bindings[i].bot_token_hash))
}

/// The binding that a successful bind records.
pub open spec fn fresh_binding(
    instance_id: Seq<char>,
    kind: ChannelType,
    hash: Seq<char>,
    now: u64,
) -> ChannelBindingView {
    ChannelBindingView {
        instance_id: instance_id,
        channel_type: kind,
        bot_token_hash: hash,
        status: ChannelBindingStatus::Active,
        bound_at_unix_ms: now,
    }
}

/// The message with which a bind is refused, if it is: the credential is
/// bound to another instance, with a binding in force.
pub open spec fn bind_refusal(
    bindings: Seq<ChannelBindingView>,
    instance_id: Seq<char>,
    kind: ChannelType,
    hash: Seq<char>,
) -> Option<Seq<char>> {
    let at = binding_index(bindings, kind, hash);
    if at < bindings.len() && bindings[at].status == ChannelBindingStatus::Active
        && bindings[at].instance_id != instance_id {
        Some("token already bound to instance "@ + bindings[at].instance_id)
    } else {
        None
    }
}

/// The bindings after a bind that is not refused: the new binding stands in
/// the place of the earlier binding of the credential, or behind all others.
pub open spec fn with_binding(
    bindings: Seq<ChannelBindingView>,
    binding: ChannelBindingView,
) -> Seq<ChannelBindingView> {
    let at = binding_index(bindings, binding.channel_type, binding.bot_token_hash);
    if at < bindings.len() {
        bindings.update(at, binding)
    } else {
        bindings.push(binding)
    }
}

/// What binding a credential comes to: the bindings afterwards, or the
/// message of the conflict.
pub open spec fn bind_outcome(
    bindings: Seq<ChannelBindingView>,
    instance_id: Seq<char>,
    kind: ChannelType,
    hash: Seq<char>,
    now: u64,
) -> Result<Seq<ChannelBindingView>, Seq<char>> {
    match bind_refusal(bindings, instance_id, kind, hash) {
        Some(message) => Err(message),
        None => Ok(with_binding(bindings, fresh_binding(instance_id, kind, hash, now))),
    }
}

/// The instances that claim a credential with a binding in force, in the
/// order of the bindings.
pub open spec fn claimants(bindings: Seq<ChannelBindingView>, kind: ChannelType, hash: Seq<char>) -> Seq<
    Seq<char>,
> {
    let claims = bindings.filter(active_claim(kind, hash));
    Seq::new(claims.len(), |i: int| claims[i].instance_id)
}

/// Whether the claimants are more than one instance.
pub open spec fn disputed(owners: Seq<Seq<char>>) -> bool {
    exists|i: int| 0 <= i < owners.len() && #[trigger] owners[i] != owners[0]
}

/// Whether the binding at a place opens a conflict: it is the first one in
/// force for its credential, and the claimants of the credential are more
/// than one instance.
pub open spec fn opens_conflict(bindings: Seq<ChannelBindingView>, i: int) -> bool {
    let kind = bindings[i].channel_type;
    let hash = bindings[i].bot_token_hash;
    &&& bindings[i].status == ChannelBindingStatus::Active
    &&& first_where(bindings, active_claim(kind, hash)) == i
    &&& disputed(claimants(bindings, kind, hash))
}

/// The conflict that the binding at a place opens.
pub open spec fn conflict_at(bindings: Seq<ChannelBindingView>, i: int) -> BindingConflictView {
    BindingConflictView {
        channel_type: bindings[i].channel_type.spec_name(),
        bot_token_hash: bindings[i].bot_token_hash,
        instance_ids: claimants(bindings, bindings[i].channel_type, bindings[i].bot_token_hash),
    }
}

/// The conflicts among the first `n` places of the bindings, each with all
/// claimants of its credential.
pub open spec fn conflicts_upto(bindings: Seq<ChannelBindingView>, n: int) -> Seq<
    BindingConflictView,
>
    decreases n,
{
    if n <= 0 {
        Seq::empty()
    } else if opens_conflict(bindings, n - 1) {
        conflicts_upto(bindings, n - 1).push(conflict_at(bindings, n - 1))
    } else {
        conflicts_upto(bindings, n - 1)
    }
}

/// The conflicts among the bindings: one for each credential that more
/// than one instance claims, in the order of the first claims.
pub open spec fn conflicts(bindings: Seq<ChannelBindingView>) -> Seq<BindingConflictView> {
    conflicts_upto(bindings, bindings.len() as int)
}

/// Binding keeps the credentials apart: where no credential had two
/// bindings, none has two afterwards.
pub proof fn lemma_bind_keeps_keys_apart(
    bindings: Seq<ChannelBindingView>,
    instance_id: Seq<char>,
    kind: ChannelType,
    hash: Seq<char>,
    now: u64,
)
    requires
        binding_keys(bindings).no_duplicates(),
    ensures
        bind_outcome(bindings, instance_id, kind, hash, now) matches Ok(after)
            ==> binding_keys(after).no_duplicates(),
{
    let at = binding_index(bindings, kind, hash);
    let p = binding_keyed(kind, hash);
    lemma_first_where(bindings, p);
    if let Ok(after) = bind_outcome(bindings, instance_id, kind, hash, now) {
        if at < bindings.len() {
            assert(binding_keys(after) =~= binding_keys(bindings));
        } else {
            assert forall|i: int, j: int|
                0 <= i < after.len() && 0 <= j < after.len() && i != j implies binding_keys(
                after,
            )[i] != binding_keys(after)[j] by {
                if i < bindings.len() && j < bindings.len() {
                    assert(binding_keys(bindings)[i] != binding_keys(bindings)[j]);
                } else if i < bindings.len() {
                    assert(!p(bindings[i]));
                } else {
                    assert(!p(bindings[j]));
                }
            }
        }
    }
}

/// Binding a credential to the instance that holds it already succeeds, and
/// leaves one binding in force for the credential: the new one.
pub proof fn lemma_rebind_same_instance(
    bindings: Seq<ChannelBindingView>,
    instance_id: Seq<char>,
    kind: ChannelType,
    hash: Seq<char>,
    first: u64,
    second: u64,
)
    requires
        binding_keys(bindings).no_duplicates(),
        bind_outcome(bindings, instance_id, kind, hash, first) is Ok,
    ensures
        ({
            let once = bind_outcome(bindings, instance_id, kind, hash, first)->Ok_0;
            let twice = bind_outcome(once, instance_id, kind, hash, second);
            &&& twice is Ok
            &&& twice->Ok_0.len() == once.len()
            &&& twice->Ok_0.filter(active_claim(kind, hash)) == seq![
                fresh_binding(instance_id, kind, hash, second),
            ]
        }),
{
    let p = binding_keyed(kind, hash);
    let once = bind_outcome(bindings, instance_id, kind, hash, first)->Ok_0;
    let at = binding_index(bindings, kind, hash);
    lemma_first_where(bindings, p);
    lemma_bind_keeps_keys_apart(bindings, instance_id, kind, hash, first);
    let here = if at < bindings.len() {
        at
    } else {
        bindings.len() as int
    };
    assert(once[here] == fresh_binding(instance_id, kind, hash, first));
    assert forall|j: int| 0 <= j < here implies !p(#[trigger] once[j]) by {
        assert(once[j] == bindings[j]);
    }
    lemma_first_where_is(once, p, here);
    let twice = bind_outcome(once, instance_id, kind, hash, second)->Ok_0;
    assert(twice == once.update(here, fresh_binding(instance_id, kind, hash, second)));
    let q = active_claim(kind, hash);
    assert forall|i: int| 0 <= i < twice.len() && i != here implies !q(#[trigger] twice[i]) by {
        assert(twice[i] == once[i]);
        assert(binding_keys(once)[i] != binding_keys(once)[here]);
    }
    lemma_filter_single(twice, q, here);
}

/// While an instance holds a credential with a binding in force, binding
/// the credential to another instance fails with a conflict that names the
/// holder.
pub proof fn lemma_bind_other_instance_conflicts(
    bindings: Seq<ChannelBindingView>,
    holder: Seq<char>,
    other: Seq<char>,
    kind: ChannelType,
    hash: Seq<char>,
    first: u64,
    second: u64,
)
    requires
        bind_outcome(bindings, holder, kind, hash, first) is Ok,
        other != holder,
    ensures
        bind_outcome(
            bind_outcome(bindings, holder, kind, hash, first)->Ok_0,
            other,
            kind,
            hash,
            second,
        ) == Err::<Seq<ChannelBindingView>, Seq<char>>(
            "token already bound to instance "@ + holder,
        ),
{
    let p = binding_keyed(kind, hash);
    let once = bind_outcome(bindings, holder, kind, hash, first)->Ok_0;
    let at = binding_index(bindings, kind, hash);
    lemma_first_where(bindings, p);
    let here = if at < bindings.len() {
        at
    } else {
        bindings.len() as int
    };
    assert(once[here] == fresh_binding(holder, kind, hash, first));
    assert forall|j: int| 0 <= j < here implies !p(#[trigger] once[j]) by {
        assert(once[j] == bindings[j]);
    }
    lemma_first_where_is(once, p, here);
}

/// Where no credential has two bindings, there is no conflict.
pub proof fn lemma_keys_apart_no_conflict(bindings: Seq<ChannelBindingView>, n: int)
    requires
        binding_keys(bindings).no_duplicates(),
        0 <= n <= bindings.len(),
    ensures
        conflicts_upto(bindings, n).len() == 0,
    decreases n,
{
    if n > 0 {
        lemma_keys_apart_no_conflict(bindings, n - 1);
        let i = n - 1;
        let kind = bindings[i].channel_type;
        let hash = bindings[i].bot_token_hash;
        let q = active_claim(kind, hash);
        if bindings[i].status == ChannelBindingStatus::Active {
            assert forall|j: int| 0 <= j < bindings.len() && j != i implies !q(
                #[trigger] bindings[j],
            ) by {
                assert(binding_keys(bindings)[j] != binding_keys(bindings)[i]);
            }
            lemma_filter_single(bindings, q, i);
            assert(claimants(bindings, kind, hash).len() == 1);
        }
    }
}


/// One type of channel with the number of its instances and of their
/// connections.
#[derive(Debug)]
pub struct ChannelTypeSummary {
    pub channel_type: String,
    pub instance_count: usize,
    pub connected: usize,
    pub disconnected: usize,
}

/// A summary in mathematical terms.
pub struct ChannelTypeSummaryView {
    pub channel_type: Seq<char>,
    pub instance_count: nat,
    pub connected: nat,
    pub disconnected: nat,
}

impl View for ChannelTypeSummary {
    type V = ChannelTypeSummaryView;

    open spec fn view(&self) -> ChannelTypeSummaryView {
        ChannelTypeSummaryView {
            channel_type: self.channel_type@,
            instance_count: self.instance_count as nat,
            connected: self.connected as nat,
            disconnected: self.disconnected as nat,
        }
    }
}

/// One cell of the connectivity matrix: the state of the connection of one
/// agent to the channel instance of the row.
#[derive(Debug)]
pub struct MatrixCell {
    pub agent_id: String,
    pub runtime: String,
    pub status: ChannelConnectionStatus,
}

/// One row of the connectivity matrix: a channel instance with one cell
/// for each agent.
#[derive(Debug)]
pub struct MatrixRow {
    pub channel_instance: String,
    pub channel_type: String,
    pub cells: Vec<MatrixCell>,
}

/// A cell in mathematical terms.
pub struct MatrixCellView {
    pub agent_id: Seq<char>,
    pub runtime: Seq<char>,
    pub status: ChannelConnectionStatus,
}

/// A row in mathematical terms.
pub struct MatrixRowView {
    pub channel_instance: Seq<char>,
    pub channel_type: Seq<char>,
    pub cells: Seq<MatrixCellView>,
}

impl View for MatrixCell {
    type V = MatrixCellView;

    open spec fn view(&self) -> MatrixCellView {
        MatrixCellView { agent_id: self.agent_id@, runtime: self.runtime@, status: self.status }
    }
}

impl View for MatrixRow {
    type V = MatrixRowView;

    open spec fn view(&self) -> MatrixRowView {
        MatrixRowView {
            channel_instance: self.channel_instance@,
            channel_type: self.channel_type@,
            cells: views(self.cells@),
        }
    }
}

/// The assignments of a given agent.
pub open spec fn assignment_of(agent: Seq<char>) -> spec_fn(AssignmentView) -> bool {
    |a: AssignmentView| a.agent_id == agent
}

/// The place of the assignment of an agent, or the number of assignments
/// where the agent has none.
pub open spec fn assignment_index(assignments: Seq<AssignmentView>, agent: Seq<char>) -> int {
    first_where(assignments, assignment_of(agent))
}

/// The texts that are the given one.
pub open spec fn same_text(text: Seq<char>) -> spec_fn(Seq<char>) -> bool {
    |t: Seq<char>| t == text
}

/// The instance names of the channels assigned to an agent, in the order in
/// which they were assigned.
pub open spec fn assigned_channels(assignments: Seq<AssignmentView>, agent: Seq<char>) -> Seq<
    Seq<char>,
> {
    let at = assignment_index(assignments, agent);
    if at < assignments.len() {
        assignments[at].channels
    } else {
        Seq::empty()
    }
}

/// The assignments after a channel is assigned to an agent: nothing changes
/// where the agent has the channel already.
pub open spec fn with_assignment(
    assignments: Seq<AssignmentView>,
    agent: Seq<char>,
    channel: Seq<char>,
) -> Seq<AssignmentView> {
    let at = assignment_index(assignments, agent);
    if at >= assignments.len() {
        assignments.push(AssignmentView { agent_id: agent, channels: seq![channel] })
    } else if first_where(assignments[at].channels, same_text(channel))
        < assignments[at].channels.len() {
        assignments
    } else {
        assignments.update(
            at,
            AssignmentView { agent_id: agent, channels: assignments[at].channels.push(channel) },
        )
    }
}

/// The assignments after a channel is taken from an agent: nothing changes
/// where the agent does not have the channel.
pub open spec fn without_assignment(
    assignments: Seq<AssignmentView>,
    agent: Seq<char>,
    channel: Seq<char>,
) -> Seq<AssignmentView> {
    let at = assignment_index(assignments, agent);
    if at >= assignments.len() {
        assignments
    } else {
        let k = first_where(assignments[at].channels, same_text(channel));
        if k < assignments[at].channels.len() {
            assignments.update(
                at,
                AssignmentView { agent_id: agent, channels: assignments[at].channels.remove(k) },
            )
        } else {
            assignments
        }
    }
}

/// The instance names that have a configuration.
pub open spec fn configured(configs: Seq<ChannelInstanceConfigView>) -> spec_fn(Seq<char>) -> bool {
    |name: Seq<char>| config_index(configs, name) < configs.len()
}

/// The configurations of the channels assigned to an agent, in the order of
/// the assignment. An assigned name without a configuration is passed over.
pub open spec fn agent_channels(s: ChannelStoreView, agent: Seq<char>) -> Seq<
    ChannelInstanceConfigView,
> {
    let names = assigned_channels(s.assignments, agent).filter(configured(s.configs));
    Seq::new(names.len(), |i: int| s.configs[config_index(s.configs, names[i])])
}

/// The connections of a given agent to a given channel instance.
pub open spec fn connection_of(agent: Seq<char>, channel: Seq<char>) -> spec_fn(
    ConnectionView,
) -> bool {
    |c: ConnectionView| c.agent_id == agent && c.channel_name == channel
}

/// The place of the connection of an agent to a channel instance, or the
/// number of connections where none is recorded.
pub open spec fn connection_index(
    connections: Seq<ConnectionView>,
    agent: Seq<char>,
    channel: Seq<char>,
) -> int {
    first_where(connections, connection_of(agent, channel))
}

/// The state of the connection of an agent to a channel instance:
/// disconnected where none is recorded.
pub open spec fn status_of(connections: Seq<ConnectionView>, agent: Seq<char>, channel: Seq<char>) -> ChannelConnectionStatus {
    let at = connection_index(connections, agent, channel);
    if at < connections.len() {
        connections[at].status
    } else {
        ChannelConnectionStatus::Disconnected
    }
}

/// The connections after the state of one is recorded.
pub open spec fn with_connection(
    connections: Seq<ConnectionView>,
    connection: ConnectionView,
) -> Seq<ConnectionView> {
    let at = connection_index(connections, connection.agent_id, connection.channel_name);
    if at < connections.len() {
        connections.update(at, connection)
    } else {
        connections.push(connection)
    }
}

/// Agents as pairs of identifier and runtime name, in mathematical terms.
pub open spec fn agent_pairs(agents: Seq<(String, String)>) -> Seq<(Seq<char>, Seq<char>)> {
    Seq::new(agents.len(), |i: int| (agents[i].0@, agents[i].1@))
}

/// The row of the connectivity matrix for one configuration.
pub open spec fn matrix_row(
    connections: Seq<ConnectionView>,
    config: ChannelInstanceConfigView,
    agents: Seq<(Seq<char>, Seq<char>)>,
) -> MatrixRowView {
    MatrixRowView {
        channel_instance: config.instance_name,
        channel_type: config.channel_type.spec_name(),
        cells: Seq::new(
            agents.len(),
            |j: int|
                MatrixCellView {
                    agent_id: agents[j].0,
                    runtime: agents[j].1,
                    status: status_of(connections, agents[j].0, config.instance_name),
                },
        ),
    }
}

/// The connectivity matrix: one row for each configuration, in their order,
/// with one cell for each agent, in the order given.
pub open spec fn matrix(s: ChannelStoreView, agents: Seq<(Seq<char>, Seq<char>)>) -> Seq<
    MatrixRowView,
> {
    Seq::new(s.configs.len(), |i: int| matrix_row(s.connections, s.configs[i], agents))
}

/// Whether a state counts as connected: connected and proxied do, the
/// others count as disconnected.
pub open spec fn is_up(status: ChannelConnectionStatus) -> bool {
    status == ChannelConnectionStatus::Connected || status == ChannelConnectionStatus::Proxied
}

/// The connections to configured instances of one kind of channel that
/// count as connected, or those that count as disconnected.
pub open spec fn connection_counted(
    configs: Seq<ChannelInstanceConfigView>,
    kind: ChannelType,
    up: bool,
) -> spec_fn(ConnectionView) -> bool {
    |c: ConnectionView|
        {
            let at = config_index(configs, c.channel_name);
            at < configs.len() && configs[at].channel_type == kind && is_up(c.status) == up
        }
}

/// The summary of one kind of channel.
pub open spec fn summary_of(s: ChannelStoreView, kind: ChannelType) -> ChannelTypeSummaryView {
    ChannelTypeSummaryView {
        channel_type: kind.spec_name(),
        instance_count: s.configs.filter(config_of_kind(kind)).len(),
        connected: s.connections.filter(connection_counted(s.configs, kind, true)).len(),
        disconnected: s.connections.filter(connection_counted(s.configs, kind, false)).len(),
    }
}

/// The kinds of channel that have a configuration.
pub open spec fn kind_configured(configs: Seq<ChannelInstanceConfigView>) -> spec_fn(
    ChannelType,
) -> bool {
    |kind: ChannelType| configs.filter(config_of_kind(kind)).len() > 0
}

/// The summaries of a store: one for each kind of channel that has a
/// configuration, in the order in which the kinds are declared.
pub open spec fn summaries(s: ChannelStoreView) -> Seq<ChannelTypeSummaryView> {
    let kinds = all_channel_types().filter(kind_configured(s.configs));
    Seq::new(kinds.len(), |i: int| summary_of(s, kinds[i]))
}


/// Assigning a channel keeps the agents apart and gives no agent a channel
/// twice.
pub proof fn lemma_with_assignment_wf(
    assignments: Seq<AssignmentView>,
    agent: Seq<char>,
    channel: Seq<char>,
)
    requires
        assignment_agents(assignments).no_duplicates(),
        forall|i: int|
            0 <= i < assignments.len() ==> (#[trigger] assignments[i]).channels.no_duplicates(),
    ensures
        assignment_agents(with_assignment(assignments, agent, channel)).no_duplicates(),
        forall|i: int|
            0 <= i < with_assignment(assignments, agent, channel).len() ==> (#[trigger] with_assignment(
                assignments,
                agent,
                channel,
            )[i]).channels.no_duplicates(),
{
    let after = with_assignment(assignments, agent, channel);
    let at = assignment_index(assignments, agent);
    let p = assignment_of(agent);
    lemma_first_where(assignments, p);
    if at >= assignments.len() {
        assert forall|i: int, j: int|
            0 <= i < after.len() && 0 <= j < after.len() && i != j implies assignment_agents(
            after,
        )[i] != assignment_agents(after)[j] by {
            if i < assignments.len() && j < assignments.len() {
                assert(assignment_agents(assignments)[i] != assignment_agents(assignments)[j]);
            } else if i < assignments.len() {
                assert(!p(assignments[i]));
            } else {
                assert(!p(assignments[j]));
            }
        }
        assert forall|i: int| 0 <= i < after.len() implies (#[trigger] after[i]).channels.no_duplicates() by {
            if i < assignments.len() {
                assert(after[i] == assignments[i]);
            }
        }
    } else {
        let had = assignments[at].channels;
        let q = same_text(channel);
        lemma_first_where(had, q);
        assert(assignment_agents(after) =~= assignment_agents(assignments));
        assert forall|i: int| 0 <= i < after.len() implies (#[trigger] after[i]).channels.no_duplicates() by {
            if i != at || first_where(had, q) < had.len() {
                assert(after[i] == assignments[i]);
            } else {
                let now = had.push(channel);
                assert forall|a: int, b: int|
                    0 <= a < now.len() && 0 <= b < now.len() && a != b implies now[a] != now[b] by {
                    if a < had.len() && b < had.len() {
                        assert(had[a] != had[b]);
                    } else if a < had.len() {
                        assert(!q(had[a]));
                    } else {
                        assert(!q(had[b]));
                    }
                }
            }
        }
    }
}

/// Taking a channel from an agent keeps the agents apart, gives no agent a
/// channel twice, and leaves the agent without that channel.
pub proof fn lemma_without_assignment_wf(
    assignments: Seq<AssignmentView>,
    agent: Seq<char>,
    channel: Seq<char>,
)
    requires
        assignment_agents(assignments).no_duplicates(),
        forall|i: int|
            0 <= i < assignments.len() ==> (#[trigger] assignments[i]).channels.no_duplicates(),
    ensures
        assignment_agents(without_assignment(assignments, agent, channel)).no_duplicates(),
        forall|i: int|
            0 <= i < without_assignment(assignments, agent, channel).len() ==> (#[trigger] without_assignment(
                assignments,
                agent,
                channel,
            )[i]).channels.no_duplicates(),
        !assigned_channels(without_assignment(assignments, agent, channel), agent).contains(
            channel,
        ),
{
    let after = without_assignment(assignments, agent, channel);
    let at = assignment_index(assignments, agent);
    let p = assignment_of(agent);
    lemma_first_where(assignments, p);
    if at < assignments.len() {
        let had = assignments[at].channels;
        let q = same_text(channel);
        lemma_first_where(had, q);
        let k = first_where(had, q);
        assert(assignment_agents(after) =~= assignment_agents(assignments));
        assert forall|j: int| 0 <= j < at implies !p(#[trigger] after[j]) by {
            assert(after[j] == assignments[j]);
        }
        lemma_first_where_is(after, p, at);
        if k < had.len() {
            let now = had.remove(k);
            assert forall|i: int| 0 <= i < after.len() implies (#[trigger] after[i]).channels.no_duplicates() by {
                if i != at {
                    assert(after[i] == assignments[i]);
                } else {
                    assert forall|a: int, b: int|
                        0 <= a < now.len() && 0 <= b < now.len() && a != b implies now[a]
                        != now[b] by {
                        let x = if a < k { a } else { a + 1 };
                        let y = if b < k { b } else { b + 1 };
                        assert(had[x] != had[y]);
                    }
                }
            }
            assert forall|a: int| 0 <= a < now.len() implies now[a] != channel by {
                let x = if a < k { a } else { a + 1 };
                assert(had[x] != had[k]);
            }
        } else {
            assert forall|a: int| 0 <= a < had.len() implies had[a] != channel by {
                assert(!q(had[a]));
            }
        }
    } else {
        lemma_first_where_is(after, p, after.len() as int);
    }
}

/// Recording the state of a connection keeps the pairs of agent and channel
/// instance apart, and the state can be read back.
pub proof fn lemma_with_connection_keys(connections: Seq<ConnectionView>, connection: ConnectionView)
    requires
        connection_keys(connections).no_duplicates(),
    ensures
        connection_keys(with_connection(connections, connection)).no_duplicates(),
        status_of(
            with_connection(connections, connection),
            connection.agent_id,
            connection.channel_name,
        ) == connection.status,
{
    let after = with_connection(connections, connection);
    let p = connection_of(connection.agent_id, connection.channel_name);
    let at = connection_index(connections, connection.agent_id, connection.channel_name);
    lemma_first_where(connections, p);
    if at < connections.len() {
        assert(connection_keys(after) =~= connection_keys(connections));
    } else {
        assert forall|i: int, j: int|
            0 <= i < after.len() && 0 <= j < after.len() && i != j implies connection_keys(
            after,
        )[i] != connection_keys(after)[j] by {
            if i < connections.len() && j < connections.len() {
                assert(connection_keys(connections)[i] != connection_keys(connections)[j]);
            } else if i < connections.len() {
                assert(!p(connections[i]));
            } else {
                assert(!p(connections[j]));
            }
        }
    }
    assert forall|j: int| 0 <= j < at implies !p(#[trigger] after[j]) by {
        assert(after[j] == connections[j]);
    }
    lemma_first_where_is(after, p, at);
}

/// Configurations, bindings, assignments and connection states of the
/// channels of a fleet.
pub struct ChannelStore {
    configs: Vec<ChannelInstanceConfig>,
    bindings: Vec<ChannelBinding>,
    assignments: Vec<Assignment>,
    connections: Vec<Connection>,
}

impl View for ChannelStore {
    type V = ChannelStoreView;

    closed spec fn view(&self) -> ChannelStoreView {
        ChannelStoreView {
            configs: views(self.configs@),
            bindings: views(self.bindings@),
            assignments: views(self.assignments@),
            connections: views(self.connections@),
        }
    }
}

impl ChannelStore {
    /// The invariant of the store.
    pub open spec fn wf(&self) -> bool {
        store_wf(self@)
    }

    /// A store that holds nothing.
    pub fn new() -> (store: Self)
        ensures
            store.wf(),
            store@.configs.len() == 0,
            store@.bindings.len() == 0,
            store@.assignments.len() == 0,
            store@.connections.len() == 0,
    {
        ChannelStore {
            configs: Vec::new(),
            bindings: Vec::new(),
            assignments: Vec::new(),
            connections: Vec::new(),
        }
    }

    fn find_config(&self, name: &str) -> (at: usize)
        ensures
            at as int == config_index(self@.configs, name@),
            at <= self@.configs.len(),
            at < self@.configs.len() ==> self@.configs[at as int].instance_name == name@,
    {
        let ghost all = views(self.configs@);
        let ghost p = config_named(name@);
        let mut i: usize = 0;
        while i < self.configs.len()
            invariant
                i <= self.configs.len(),
                all == views(self.configs@),
                p == config_named(name@),
                forall|j: int| 0 <= j < i ==> !p(#[trigger] all[j]),
            decreases self.configs.len() - i,
        {
            if self.configs[i].instance_name.as_str().eq(name) {
                proof {
                    assert(p(all[i as int]));
                    lemma_first_where_is(all, p, i as int);
                }
                return i;
            }
            i += 1;
        }
        proof {
            lemma_first_where_is(all, p, i as int);
        }
        i
    }

    /// Puts a configuration in: in the place of the one of the same
    /// instance name, or behind all others. Returns a copy of it.
    pub fn put_config(&mut self, config: ChannelInstanceConfig) -> (stored: ChannelInstanceConfig)
        requires
            old(self).wf(),
        ensures
            final(self).wf(),
            stored@ == config@,
            final(self)@ == (ChannelStoreView {
                configs: with_config(old(self)@.configs, config@),
                ..old(self)@
            }),
    {
        let ghost before = views(self.configs@);
        let copy = config.clone();
        let at = self.find_config(config.instance_name.as_str());
        proof {
            lemma_with_config_names(before, config@);
        }
        if at < self.configs.len() {
            self.configs[at] = config;
            assert(views(self.configs@) =~= before.update(at as int, copy@));
        } else {
            self.configs.push(config);
            assert(views(self.configs@) =~= before.push(copy@));
        }
        copy
    }

    /// Creates or replaces the configuration of the instance that the
    /// request names. The kind of channel is resolved from its loosely
    /// written name; where that fails, nothing changes.
    pub fn upsert_config(&mut self, req: ChannelConfigRequest) -> (r: Result<
        ChannelInstanceConfig,
        String,
    >)
        requires
            old(self).wf(),
        ensures
            final(self).wf(),
            match channel_type_named(unicode_lowercase(req.channel_type@)) {
                Some(kind) => (r matches Ok(stored) && stored@ == (ChannelInstanceConfigView {
                    instance_name: req.instance_name@,
                    channel_type: kind,
                    credentials: req.credentials@,
                    options: req.options@,
                }) && final(self)@ == (ChannelStoreView {
                    configs: with_config(old(self)@.configs, stored@),
                    ..old(self)@
                })),
                None => (r matches Err(e) && e@ == "unknown channel type: "@ + req.channel_type@
                    && final(self)@ == old(self)@),
            },
    {
        match ChannelType::from_str_loose(req.channel_type.as_str()) {
            Some(kind) => {
                let config = ChannelInstanceConfig {
                    instance_name: req.instance_name,
                    channel_type: kind,
                    credentials: req.credentials,
                    options: req.options,
                };
                Ok(self.put_config(config))
            },
            None => {
                let mut message = "unknown channel type: ".to_string();
                message.append(req.channel_type.as_str());
                Err(message)
            },
        }
    }

    /// The configuration of the given instance name.
    pub fn get_config(&self, instance_name: &str) -> (config: Option<&ChannelInstanceConfig>)
        ensures
            match config {
                Some(c) => config_index(self@.configs, instance_name@) < self@.configs.len()
                    && c@ == self@.configs[config_index(self@.configs, instance_name@)],
                None => config_index(self@.configs, instance_name@) == self@.configs.len(),
            },
    {
        let at = self.find_config(instance_name);
        if at < self.configs.len() {
            Some(&self.configs[at])
        } else {
            None
        }
    }

    /// Takes the configuration of the given instance name out. Says
    /// whether there was one.
    pub fn delete_config(&mut self, instance_name: &str) -> (existed: bool)
        requires
            old(self).wf(),
        ensures
            final(self).wf(),
            existed == (config_index(old(self)@.configs, instance_name@) < old(
                self,
            )@.configs.len()),
            final(self)@ == (ChannelStoreView {
                configs: without_config(old(self)@.configs, instance_name@),
                ..old(self)@
            }),
    {
        let ghost before = views(self.configs@);
        let at = self.find_config(instance_name);
        proof {
            lemma_without_config_names(before, instance_name@);
        }
        if at < self.configs.len() {
            self.configs.remove(at);
            assert(views(self.configs@) =~= before.remove(at as int));
            true
        } else {
            false
        }
    }

    /// All configurations, in the order in which their names came.
    pub fn list_configs(&self) -> (configs: Vec<&ChannelInstanceConfig>)
        ensures
            views(configs@) == self@.configs,
    {
        let mut found: Vec<&ChannelInstanceConfig> = Vec::new();
        let mut i: usize = 0;
        while i < self.configs.len()
            invariant
                i <= self.configs.len(),
                views(found@) == views(self.configs@).take(i as int),
            decreases self.configs.len() - i,
        {
            let ghost so_far = views(found@);
            found.push(&self.configs[i]);
            assert(views(found@) =~= so_far.push(self.configs@[i as int]@));
            assert(views(self.configs@).take(i + 1) =~= views(self.configs@).take(i as int).push(
                self.configs@[i as int]@,
            ));
            i += 1;
        }
        assert(views(self.configs@).take(i as int) =~= views(self.configs@));
        found
    }

    /// The configurations of one kind of channel, in the order in which
    /// their names came.
    pub fn list_configs_by_type(&self, channel_type: &ChannelType) -> (configs: Vec<
        &ChannelInstanceConfig,
    >)
        ensures
            views(configs@) == self@.configs.filter(config_of_kind(*channel_type)),
    {
        let ghost all = views(self.configs@);
        let ghost p = config_of_kind(*channel_type);
        let mut found: Vec<&ChannelInstanceConfig> = Vec::new();
        let mut i: usize = 0;
        proof {
            lemma_filter_empty(all.take(0), p);
            assert(views(found@) =~= all.take(0).filter(p));
        }
        while i < self.configs.len()
            invariant
                i <= self.configs.len(),
                all == views(self.configs@),
                p == config_of_kind(*channel_type),
                views(found@) == all.take(i as int).filter(p),
            decreases self.configs.len() - i,
        {
            proof {
                lemma_filter_step(all, p, i as int);
            }
            if self.configs[i].channel_type == *channel_type {
                let ghost so_far = views(found@);
                found.push(&self.configs[i]);
                assert(views(found@) =~= so_far.push(all[i as int]));
            }
            i += 1;
        }
        assert(all.take(i as int) =~= all);
        found
    }
}

impl ChannelStore {
    /// A store that starts from recorded bindings, taken as they are. The
    /// records may hold what `bind` would have refused; `detect_conflicts`
    /// finds it.
    pub fn with_bindings(bindings: Vec<ChannelBinding>) -> (store: Self)
        ensures
            store.wf(),
            store@.bindings == views(bindings@),
            store@.configs.len() == 0,
            store@.assignments.len() == 0,
            store@.connections.len() == 0,
    {
        ChannelStore {
            configs: Vec::new(),
            bindings,
            assignments: Vec::new(),
            connections: Vec::new(),
        }
    }

    fn find_binding(&self, kind: ChannelType, hash: &str) -> (at: usize)
        ensures
            at as int == binding_index(self@.bindings, kind, hash@),
            at <= self@.bindings.len(),
    {
        let ghost all = views(self.bindings@);
        let ghost p = binding_keyed(kind, hash@);
        let mut i: usize = 0;
        while i < self.bindings.len()
            invariant
                i <= self.bindings.len(),
                all == views(self.bindings@),
                p == binding_keyed(kind, hash@),
                forall|j: int| 0 <= j < i ==> !p(#[trigger] all[j]),
            decreases self.bindings.len() - i,
        {
            let binding = &self.bindings[i];
            if binding.channel_type == kind && binding.bot_token_hash.as_str().eq(hash) {
                proof {
                    assert(p(all[i as int]));
                    lemma_first_where_is(all, p, i as int);
                }
                return i;
            }
            i += 1;
        }
        proof {
            lemma_first_where_is(all, p, i as int);
        }
        i
    }

    fn check_claim(&self, instance_id: &str, kind: ChannelType, hash: &str) -> (r: Result<
        usize,
        String,
    >)
        ensures
            match bind_refusal(self@.bindings, instance_id@, kind, hash@) {
                Some(message) => (r matches Err(e) && e@ == message),
                None => (r matches Ok(at) && at as int == binding_index(
                    self@.bindings,
                    kind,
                    hash@,
                ) && at <= self@.bindings.len()),
            },
    {
        let at = self.find_binding(kind, hash);
        if at < self.bindings.len() {
            let existing = &self.bindings[at];
            if existing.status == ChannelBindingStatus::Active && !existing.instance_id.as_str().eq(
                instance_id,
            ) {
                let mut message = "token already bound to instance ".to_string();
                message.append(existing.instance_id.as_str());
                return Err(message);
            }
        }
        Ok(at)
    }

    fn record(&mut self, at: usize, binding: ChannelBinding) -> (copy: ChannelBinding)
        requires
            old(self).wf(),
            at as int == binding_index(
                old(self)@.bindings,
                binding.channel_type,
                binding.bot_token_hash@,
            ),
            at <= old(self)@.bindings.len(),
        ensures
            final(self).wf(),
            copy == binding,
            final(self)@ == (ChannelStoreView {
                bindings: with_binding(old(self)@.bindings, binding@),
                ..old(self)@
            }),
    {
        let ghost before = views(self.bindings@);
        let copy = binding.clone();
        if at < self.bindings.len() {
            self.bindings[at] = binding;
            assert(views(self.bindings@) =~= before.update(at as int, copy@));
        } else {
            self.bindings.push(binding);
            assert(views(self.bindings@) =~= before.push(copy@));
        }
        copy
    }

    /// Binds a credential, given by its hash, to an agent instance at the
    /// given time. The binding is refused while the credential is bound to
    /// another instance with a binding in force; then nothing changes and
    /// the error names that instance. Else the binding is recorded as in
    /// force, in place of an earlier binding of the credential.
    pub fn bind_hashed(
        &mut self,
        instance_id: String,
        channel_type: ChannelType,
        token_hash: String,
        now_unix_ms: u64,
    ) -> (r: Result<ChannelBinding, String>)
        requires
            old(self).wf(),
        ensures
            final(self).wf(),
            match bind_outcome(
                old(self)@.bindings,
                instance_id@,
                channel_type,
                token_hash@,
                now_unix_ms,
            ) {
                Ok(bindings) => (r matches Ok(b) && b@ == fresh_binding(
                    instance_id@,
                    channel_type,
                    token_hash@,
                    now_unix_ms,
                ) && final(self)@ == (ChannelStoreView { bindings: bindings, ..old(self)@ })),
                Err(message) => (r matches Err(e) && e@ == message
                    && final(self)@ == old(self)@),
            },
    {
        match self.check_claim(instance_id.as_str(), channel_type, token_hash.as_str()) {
            Ok(at) => {
                let binding = ChannelBinding {
                    instance_id,
                    channel_type,
                    bot_token_hash: token_hash,
                    status: ChannelBindingStatus::Active,
                    bound_at_unix_ms: now_unix_ms,
                };
                Ok(self.record(at, binding))
            },
            Err(message) => Err(message),
        }
    }

    /// Binds a credential to an agent instance. The kind of channel is
    /// resolved from its loosely written name and the credential is hashed
    /// at once. The binding is refused as `bind_hashed` refuses it; else it
    /// is recorded with the time of the clock. Where the kind is unknown,
    /// where the binding is refused or where the clock stands before the
    /// Unix epoch, nothing changes.
    pub fn bind(&mut self, instance_id: String, channel_type: &str, bot_token: &str) -> (r: Result<
        ChannelBinding,
        String,
    >)
        requires
            old(self).wf(),
        ensures
            final(self).wf(),
            match channel_type_named(unicode_lowercase(channel_type@)) {
                None => (r matches Err(e) && e@ == "unknown channel type: "@ + channel_type@
                    && final(self)@ == old(self)@),
                Some(kind) => match bind_refusal(
                    old(self)@.bindings,
                    instance_id@,
                    kind,
                    token_hash(bot_token@),
                ) {
                    Some(message) => (r matches Err(e) && e@ == message
                        && final(self)@ == old(self)@),
                    None => match r {
                        Ok(b) => b@ == fresh_binding(
                            instance_id@,
                            kind,
                            token_hash(bot_token@),
                            b.bound_at_unix_ms,
                        ) && final(self)@ == (ChannelStoreView {
                            bindings: with_binding(old(self)@.bindings, b@),
                            ..old(self)@
                        }),
                        Err(e) => e@ == clock_error() && final(self)@ == old(self)@,
                    },
                },
            },
    {
        let kind = match ChannelType::from_str_loose(channel_type) {
            Some(kind) => kind,
            None => {
                let mut message = "unknown channel type: ".to_string();
                message.append(channel_type);
                return Err(message);
            },
        };
        let hash = hash_token(bot_token);
        let at = match self.check_claim(instance_id.as_str(), kind, hash.as_str()) {
            Ok(at) => at,
            Err(message) => {
                return Err(message);
            },
        };
        match current_unix_ms() {
            Some(now) => {
                let binding = ChannelBinding {
                    instance_id,
                    channel_type: kind,
                    bot_token_hash: hash,
                    status: ChannelBindingStatus::Active,
                    bound_at_unix_ms: now,
                };
                Ok(self.record(at, binding))
            },
            None => Err("system clock before UNIX_EPOCH".to_string()),
        }
    }

    /// Releases the binding at a place in the list of bindings and returns
    /// it. The record stays, so that earlier ownership can be looked up.
    /// Where the list has no such place, nothing changes.
    pub fn unbind(&mut self, binding_id: usize) -> (r: Result<ChannelBinding, String>)
        requires
            old(self).wf(),
        ensures
            final(self).wf(),
            ({
                let bindings = old(self)@.bindings;
                if binding_id < bindings.len() {
                    let released = ChannelBindingView {
                        status: ChannelBindingStatus::Released,
                        ..bindings[binding_id as int]
                    };
                    r matches Ok(b) && b@ == released && final(self)@ == (ChannelStoreView {
                        bindings: bindings.update(binding_id as int, released),
                        ..old(self)@
                    })
                } else {
                    r matches Err(e) && e@ == "binding "@ + decimal(binding_id as nat)
                        + " not found"@ && final(self)@ == old(self)@
                }
            }),
    {
        let ghost before = views(self.bindings@);
        if binding_id < self.bindings.len() {
            self.bindings[binding_id].status = ChannelBindingStatus::Released;
            let copy = self.bindings[binding_id].clone();
            assert(views(self.bindings@) =~= before.update(binding_id as int, copy@));
            Ok(copy)
        } else {
            let mut message = "binding ".to_string();
            let number = decimal_string(binding_id as u64);
            message.append(number.as_str());
            message.append(" not found");
            Err(message)
        }
    }

    /// All bindings, released ones too, in the order of the list.
    pub fn list_bindings(&self) -> (bindings: Vec<ChannelBinding>)
        ensures
            views(bindings@) == self@.bindings,
    {
        let mut copies: Vec<ChannelBinding> = Vec::new();
        let mut i: usize = 0;
        while i < self.bindings.len()
            invariant
                i <= self.bindings.len(),
                views(copies@) == views(self.bindings@).take(i as int),
            decreases self.bindings.len() - i,
        {
            let ghost so_far = views(copies@);
            copies.push(self.bindings[i].clone());
            assert(views(copies@) =~= so_far.push(self.bindings@[i as int]@));
            assert(views(self.bindings@).take(i + 1) =~= views(self.bindings@).take(
                i as int,
            ).push(self.bindings@[i as int]@));
            i += 1;
        }
        assert(views(self.bindings@).take(i as int) =~= views(self.bindings@));
        copies
    }

    fn first_active_claim(&self, kind: ChannelType, hash: &str) -> (at: usize)
        ensures
            at as int == first_where(self@.bindings, active_claim(kind, hash@)),
    {
        let ghost all = views(self.bindings@);
        let ghost p = active_claim(kind, hash@);
        let mut i: usize = 0;
        while i < self.bindings.len()
            invariant
                i <= self.bindings.len(),
                all == views(self.bindings@),
                p == active_claim(kind, hash@),
                forall|j: int| 0 <= j < i ==> !p(#[trigger] all[j]),
            decreases self.bindings.len() - i,
        {
            let binding = &self.bindings[i];
            if binding.status == ChannelBindingStatus::Active && binding.channel_type == kind
                && binding.bot_token_hash.as_str().eq(hash) {
                proof {
                    assert(p(all[i as int]));
                    lemma_first_where_is(all, p, i as int);
                }
                return i;
            }
            i += 1;
        }
        proof {
            lemma_first_where_is(all, p, i as int);
        }
        i
    }

    fn claimants_of(&self, kind: ChannelType, hash: &str) -> (owners: Vec<String>)
        ensures
            views(owners@) == claimants(self@.bindings, kind, hash@),
    {
        let ghost all = views(self.bindings@);
        let ghost p = active_claim(kind, hash@);
        let mut owners: Vec<String> = Vec::new();
        let ghost mut claims: Seq<ChannelBindingView> = Seq::empty();
        let mut i: usize = 0;
        proof {
            lemma_filter_empty(all.take(0), p);
            assert(claims =~= all.take(0).filter(p));
        }
        while i < self.bindings.len()
            invariant
                i <= self.bindings.len(),
                all == views(self.bindings@),
                p == active_claim(kind, hash@),
                claims == all.take(i as int).filter(p),
                owners@.len() == claims.len(),
                forall|k: int| 0 <= k < owners@.len() ==> (#[trigger] owners@[k])@ == claims[k].instance_id,
            decreases self.bindings.len() - i,
        {
            proof {
                lemma_filter_step(all, p, i as int);
            }
            let binding = &self.bindings[i];
            if binding.status == ChannelBindingStatus::Active && binding.channel_type == kind
                && binding.bot_token_hash.as_str().eq(hash) {
                owners.push(binding.instance_id.clone());
                proof {
                    claims = claims.push(all[i as int]);
                }
            }
            i += 1;
        }
        assert(all.take(i as int) =~= all);
        assert(views(owners@) =~= claimants(all, kind, hash@));
        owners
    }

    /// The credentials that more than one instance claims with bindings in
    /// force, each with all its claimants. The check in `bind` keeps the
    /// list empty; an entry shows that bindings were recorded past it.
    pub fn detect_conflicts(&self) -> (found: Vec<BindingConflict>)
        ensures
            views(found@) == conflicts(self@.bindings),
    {
        let ghost all = views(self.bindings@);
        let mut found: Vec<BindingConflict> = Vec::new();
        let mut i: usize = 0;
        while i < self.bindings.len()
            invariant
                i <= self.bindings.len(),
                all == views(self.bindings@),
                views(found@) == conflicts_upto(all, i as int),
            decreases self.bindings.len() - i,
        {
            let binding = &self.bindings[i];
            if binding.status == ChannelBindingStatus::Active {
                let head = self.first_active_claim(
                    binding.channel_type,
                    binding.bot_token_hash.as_str(),
                );
                if head == i {
                    let owners = self.claimants_of(
                        binding.channel_type,
                        binding.bot_token_hash.as_str(),
                    );
                    if is_disputed(&owners) {
                        let ghost so_far = views(found@);
                        let conflict = BindingConflict {
                            channel_type: binding.channel_type.to_string(),
                            bot_token_hash: binding.bot_token_hash.clone(),
                            instance_ids: owners,
                        };
                        assert(conflict@ == conflict_at(all, i as int));
                        found.push(conflict);
                        assert(views(found@) =~= so_far.push(conflict_at(all, i as int)));
                    }
                }
            }
            i += 1;
        }
        found
    }
}

fn is_disputed(owners: &Vec<String>) -> (yes: bool)
    ensures
        yes == disputed(views(owners@)),
{
    let ghost all = views(owners@);
    let mut i: usize = 1;
    while i < owners.len()
        invariant
            1 <= i,
            all == views(owners@),
            forall|j: int| 0 <= j < i && j < all.len() ==> #[trigger] all[j] == all[0],
        decreases owners.len() - i,
    {
        if !owners[i].as_str().eq(owners[0].as_str()) {
            assert(all[i as int] != all[0]);
            return true;
        }
        i += 1;
    }
    false
}

impl Default for ChannelStore {
    fn default() -> (store: Self)
        ensures
            store.wf(),
            store@.configs.len() == 0,
            store@.bindings.len() == 0,
            store@.assignments.len() == 0,
            store@.connections.len() == 0,
    {
        ChannelStore::new()
    }
}

fn find_text(texts: &Vec<String>, text: &str) -> (at: usize)
    ensures
        at as int == first_where(views(texts@), same_text(text@)),
        at <= texts@.len(),
{
    let ghost all = views(texts@);
    let ghost p = same_text(text@);
    let mut i: usize = 0;
    while i < texts.len()
        invariant
            i <= texts.len(),
            all == views(texts@),
            p == same_text(text@),
            forall|j: int| 0 <= j < i ==> !p(#[trigger] all[j]),
        decreases texts.len() - i,
    {
        if texts[i].as_str().eq(text) {
            proof {
                assert(p(all[i as int]));
                lemma_first_where_is(all, p, i as int);
            }
            return i;
        }
        i += 1;
    }
    proof {
        lemma_first_where_is(all, p, i as int);
    }
    i
}

impl ChannelStore {
    fn find_assignment(&self, agent_id: &str) -> (at: usize)
        ensures
            at as int == assignment_index(self@.assignments, agent_id@),
            at <= self@.assignments.len(),
    {
        let ghost all = views(self.assignments@);
        let ghost p = assignment_of(agent_id@);
        let mut i: usize = 0;
        while i < self.assignments.len()
            invariant
                i <= self.assignments.len(),
                all == views(self.assignments@),
                p == assignment_of(agent_id@),
                forall|j: int| 0 <= j < i ==> !p(#[trigger] all[j]),
            decreases self.assignments.len() - i,
        {
            if self.assignments[i].agent_id.as_str().eq(agent_id) {
                proof {
                    assert(p(all[i as int]));
                    lemma_first_where_is(all, p, i as int);
                }
                return i;
            }
            i += 1;
        }
        proof {
            lemma_first_where_is(all, p, i as int);
        }
        i
    }

    /// Gives an agent a channel instance to consume. An agent that has the
    /// channel already keeps its list as it is.
    pub fn assign_channel(&mut self, agent_id: &str, channel_instance_name: &str)
        requires
            old(self).wf(),
        ensures
            final(self).wf(),
            final(self)@ == (ChannelStoreView {
                assignments: with_assignment(
                    old(self)@.assignments,
                    agent_id@,
                    channel_instance_name@,
                ),
                ..old(self)@
            }),
    {
        let ghost before = views(self.assignments@);
        proof {
            lemma_with_assignment_wf(before, agent_id@, channel_instance_name@);
        }
        let at = self.find_assignment(agent_id);
        if at >= self.assignments.len() {
            let mut channels: Vec<String> = Vec::new();
            channels.push(channel_instance_name.to_string());
            assert(views(channels@) =~= seq![channel_instance_name@]);
            let assignment = Assignment { agent_id: agent_id.to_string(), channels };
            let ghost added = assignment@;
            self.assignments.push(assignment);
            assert(views(self.assignments@) =~= before.push(added));
        } else {
            let ghost had = views(self.assignments@[at as int].channels@);
            proof {
                lemma_first_where(before, assignment_of(agent_id@));
                assert(before[at as int].channels == had);
                assert(before[at as int].agent_id == agent_id@);
            }
            let k = find_text(&self.assignments[at].channels, channel_instance_name);
            if k >= self.assignments[at].channels.len() {
                let name = channel_instance_name.to_string();
                self.assignments[at].channels.push(name);
                proof {
                    assert(views(self.assignments@[at as int].channels@) =~= had.push(
                        channel_instance_name@,
                    ));
                    assert(views(self.assignments@) =~= before.update(
                        at as int,
                        AssignmentView {
                            agent_id: agent_id@,
                            channels: had.push(channel_instance_name@),
                        },
                    ));
                }
            } else {
                assert(views(self.assignments@) =~= before);
            }
        }
    }

    /// Takes a channel instance from an agent. An agent that does not have
    /// the channel keeps its list as it is.
    pub fn unassign_channel(&mut self, agent_id: &str, channel_instance_name: &str)
        requires
            old(self).wf(),
        ensures
            final(self).wf(),
            final(self)@ == (ChannelStoreView {
                assignments: without_assignment(
                    old(self)@.assignments,
                    agent_id@,
                    channel_instance_name@,
                ),
                ..old(self)@
            }),
            !assigned_channels(final(self)@.assignments, agent_id@).contains(
                channel_instance_name@,
            ),
    {
        let ghost before = views(self.assignments@);
        proof {
            lemma_without_assignment_wf(before, agent_id@, channel_instance_name@);
        }
        let at = self.find_assignment(agent_id);
        if at < self.assignments.len() {
            let ghost had = views(self.assignments@[at as int].channels@);
            proof {
                lemma_first_where(before, assignment_of(agent_id@));
                assert(before[at as int].channels == had);
                assert(before[at as int].agent_id == agent_id@);
            }
            let k = find_text(&self.assignments[at].channels, channel_instance_name);
            if k < self.assignments[at].channels.len() {
                self.assignments[at].channels.remove(k);
                proof {
                    assert(views(self.assignments@[at as int].channels@) =~= had.remove(k as int));
                    assert(views(self.assignments@) =~= before.update(
                        at as int,
                        AssignmentView { agent_id: agent_id@, channels: had.remove(k as int) },
                    ));
                }
            } else {
                assert(views(self.assignments@) =~= before);
            }
        }
    }

    /// The configurations of the channels assigned to an agent, in the
    /// order of the assignment.
    pub fn get_agent_channels(&self, agent_id: &str) -> (configs: Vec<&ChannelInstanceConfig>)
        ensures
            views(configs@) == agent_channels(self@, agent_id@),
    {
        let ghost all = views(self.configs@);
        let ghost p = configured(all);
        let mut found: Vec<&ChannelInstanceConfig> = Vec::new();
        let at = self.find_assignment(agent_id);
        if at >= self.assignments.len() {
            proof {
                lemma_filter_empty(assigned_channels(self@.assignments, agent_id@), p);
                assert(views(found@) =~= agent_channels(self@, agent_id@));
            }
            return found;
        }
        let names = &self.assignments[at].channels;
        let ghost wanted = views(names@);
        assert(wanted == assigned_channels(self@.assignments, agent_id@));
        let ghost mut kept: Seq<Seq<char>> = Seq::empty();
        let mut i: usize = 0;
        proof {
            lemma_filter_empty(wanted.take(0), p);
            assert(kept =~= wanted.take(0).filter(p));
        }
        while i < names.len()
            invariant
                i <= names.len(),
                all == views(self.configs@),
                p == configured(all),
                wanted == views(names@),
                kept == wanted.take(i as int).filter(p),
                found@.len() == kept.len(),
                forall|k: int|
                    0 <= k < found@.len() ==> (#[trigger] found@[k])@ == all[config_index(
                        all,
                        kept[k],
                    )],
            decreases names.len() - i,
        {
            proof {
                lemma_filter_step(wanted, p, i as int);
            }
            let c = self.find_config(names[i].as_str());
            if c < self.configs.len() {
                found.push(&self.configs[c]);
                proof {
                    kept = kept.push(wanted[i as int]);
                }
            }
            i += 1;
        }
        assert(wanted.take(i as int) =~= wanted);
        assert(views(found@) =~= agent_channels(self@, agent_id@));
        found
    }

    fn find_connection(&self, agent_id: &str, channel_name: &str) -> (at: usize)
        ensures
            at as int == connection_index(self@.connections, agent_id@, channel_name@),
            at <= self@.connections.len(),
    {
        let ghost all = views(self.connections@);
        let ghost p = connection_of(agent_id@, channel_name@);
        let mut i: usize = 0;
        while i < self.connections.len()
            invariant
                i <= self.connections.len(),
                all == views(self.connections@),
                p == connection_of(agent_id@, channel_name@),
                forall|j: int| 0 <= j < i ==> !p(#[trigger] all[j]),
            decreases self.connections.len() - i,
        {
            let connection = &self.connections[i];
            if connection.agent_id.as_str().eq(agent_id) && connection.channel_name.as_str().eq(
                channel_name,
            ) {
                proof {
                    assert(p(all[i as int]));
                    lemma_first_where_is(all, p, i as int);
                }
                return i;
            }
            i += 1;
        }
        proof {
            lemma_first_where_is(all, p, i as int);
        }
        i
    }

    /// Records the state of the connection of an agent to a channel
    /// instance, in place of the state recorded before.
    pub fn set_connection_status(
        &mut self,
        agent_id: &str,
        channel_name: &str,
        status: ChannelConnectionStatus,
    )
        requires
            old(self).wf(),
        ensures
            final(self).wf(),
            final(self)@ == (ChannelStoreView {
                connections: with_connection(
                    old(self)@.connections,
                    ConnectionView {
                        agent_id: agent_id@,
                        channel_name: channel_name@,
                        status: status,
                    },
                ),
                ..old(self)@
            }),
            status_of(final(self)@.connections, agent_id@, channel_name@) == status,
    {
        let ghost before = views(self.connections@);
        let ghost recorded = ConnectionView {
            agent_id: agent_id@,
            channel_name: channel_name@,
            status: status,
        };
        proof {
            lemma_with_connection_keys(before, recorded);
        }
        let at = self.find_connection(agent_id, channel_name);
        if at < self.connections.len() {
            proof {
                lemma_first_where(before, connection_of(agent_id@, channel_name@));
            }
            self.connections[at].status = status;
            assert(views(self.connections@) =~= before.update(at as int, recorded));
        } else {
            self.connections.push(
                Connection {
                    agent_id: agent_id.to_string(),
                    channel_name: channel_name.to_string(),
                    status,
                },
            );
            assert(views(self.connections@) =~= before.push(recorded));
        }
    }

    /// The state of the connection of an agent to a channel instance:
    /// disconnected where none was recorded.
    pub fn get_connection_status(&self, agent_id: &str, channel_name: &str) -> (status:
        ChannelConnectionStatus)
        ensures
            status == status_of(self@.connections, agent_id@, channel_name@),
    {
        let at = self.find_connection(agent_id, channel_name);
        if at < self.connections.len() {
            self.connections[at].status
        } else {
            ChannelConnectionStatus::Disconnected
        }
    }

    /// The connectivity matrix of the given agents, each a pair of
    /// identifier and runtime name: one row for each configuration, one cell
    /// for each agent.
    pub fn build_matrix(&self, agents: &[(String, String)]) -> (rows: Vec<MatrixRow>)
        ensures
            views(rows@) == matrix(self@, agent_pairs(agents@)),
    {
        let ghost pairs = agent_pairs(agents@);
        let ghost configs = views(self.configs@);
        let ghost connections = views(self.connections@);
        let mut rows: Vec<MatrixRow> = Vec::new();
        let mut i: usize = 0;
        while i < self.configs.len()
            invariant
                i <= self.configs.len(),
                pairs == agent_pairs(agents@),
                configs == views(self.configs@),
                connections == views(self.connections@),
                rows@.len() == i,
                forall|k: int|
                    0 <= k < i ==> (#[trigger] rows@[k])@ == matrix_row(
                        connections,
                        configs[k],
                        pairs,
                    ),
            decreases self.configs.len() - i,
        {
            let config = &self.configs[i];
            let mut cells: Vec<MatrixCell> = Vec::new();
            let mut j: usize = 0;
            while j < agents.len()
                invariant
                    j <= agents.len(),
                    i < self.configs.len(),
                    config == &self.configs@[i as int],
                    pairs == agent_pairs(agents@),
                    connections == views(self.connections@),
                    cells@.len() == j,
                    forall|k: int|
                        0 <= k < j ==> (#[trigger] cells@[k])@ == (MatrixCellView {
                            agent_id: pairs[k].0,
                            runtime: pairs[k].1,
                            status: status_of(connections, pairs[k].0, config.instance_name@),
                        }),
                decreases agents.len() - j,
            {
                let agent = &agents[j];
                let status = self.get_connection_status(
                    agent.0.as_str(),
                    config.instance_name.as_str(),
                );
                cells.push(
                    MatrixCell { agent_id: agent.0.clone(), runtime: agent.1.clone(), status },
                );
                j += 1;
            }
            let row = MatrixRow {
                channel_instance: config.instance_name.clone(),
                channel_type: config.channel_type.to_string(),
                cells,
            };
            assert(row@.cells =~= matrix_row(connections, configs[i as int], pairs).cells);
            rows.push(row);
            i += 1;
        }
        assert(views(rows@) =~= matrix(self@, pairs));
        rows
    }

    fn count_configs(&self, kind: ChannelType) -> (count: usize)
        ensures
            count as nat == self@.configs.filter(config_of_kind(kind)).len(),
    {
        let ghost all = views(self.configs@);
        let ghost p = config_of_kind(kind);
        let mut count: usize = 0;
        let mut i: usize = 0;
        proof {
            lemma_filter_empty(all.take(0), p);
        }
        while i < self.configs.len()
            invariant
                i <= self.configs.len(),
                all == views(self.configs@),
                p == config_of_kind(kind),
                count as nat == all.take(i as int).filter(p).len(),
                count <= i,
            decreases self.configs.len() - i,
        {
            proof {
                lemma_filter_step(all, p, i as int);
            }
            if self.configs[i].channel_type == kind {
                count += 1;
            }
            i += 1;
        }
        assert(all.take(i as int) =~= all);
        count
    }

    fn count_connections(&self, kind: ChannelType, up: bool) -> (count: usize)
        ensures
            count as nat == self@.connections.filter(
                connection_counted(self@.configs, kind, up),
            ).len(),
    {
        let ghost all = views(self.connections@);
        let ghost configs = views(self.configs@);
        let ghost p = connection_counted(configs, kind, up);
        let mut count: usize = 0;
        let mut i: usize = 0;
        proof {
            lemma_filter_empty(all.take(0), p);
        }
        while i < self.connections.len()
            invariant
                i <= self.connections.len(),
                all == views(self.connections@),
                configs == views(self.configs@),
                p == connection_counted(configs, kind, up),
                count as nat == all.take(i as int).filter(p).len(),
                count <= i,
            decreases self.connections.len() - i,
        {
            proof {
                lemma_filter_step(all, p, i as int);
            }
            let connection = &self.connections[i];
            let c = self.find_config(connection.channel_name.as_str());
            if c < self.configs.len() && self.configs[c].channel_type == kind {
                let is_up = connection.status == ChannelConnectionStatus::Connected
                    || connection.status == ChannelConnectionStatus::Proxied;
                if is_up == up {
                    count += 1;
                }
            }
            i += 1;
        }
        assert(all.take(i as int) =~= all);
        count
    }

    /// One summary for each kind of channel that has a configuration, in
    /// the order in which the kinds are declared: the number of its
    /// instances, and how many connections to them count as connected and
    /// as disconnected.
    pub fn list_channel_summaries(&self) -> (found: Vec<ChannelTypeSummary>)
        ensures
            views(found@) == summaries(self@),
    {
        let ghost s = self@;
        let ghost p = kind_configured(s.configs);
        let kinds = ChannelType::all();
        let ghost all = kinds@;
        let ghost mut kept: Seq<ChannelType> = Seq::empty();
        let mut found: Vec<ChannelTypeSummary> = Vec::new();
        let mut i: usize = 0;
        proof {
            lemma_filter_empty(all.take(0), p);
            assert(kept =~= all.take(0).filter(p));
        }
        while i < kinds.len()
            invariant
                i <= kinds.len(),
                s == self@,
                all == kinds@,
                all == all_channel_types(),
                p == kind_configured(s.configs),
                kept == all.take(i as int).filter(p),
                found@.len() == kept.len(),
                forall|k: int|
                    0 <= k < found@.len() ==> (#[trigger] found@[k])@ == summary_of(s, kept[k]),
            decreases kinds.len() - i,
        {
            proof {
                lemma_filter_step(all, p, i as int);
            }
            let kind = kinds[i];
            let instance_count = self.count_configs(kind);
            if instance_count > 0 {
                let summary = ChannelTypeSummary {
                    channel_type: kind.to_string(),
                    instance_count,
                    connected: self.count_connections(kind, true),
                    disconnected: self.count_connections(kind, false),
                };
                assert(summary@ == summary_of(s, kind));
                found.push(summary);
                proof {
                    kept = kept.push(kind);
                }
            }
            i += 1;
        }
        assert(all.take(i as int) =~= all);
        assert(views(found@) =~= summaries(s));
        found
    }
}

} // verus!
