//! The audit log: what was done, by whom, to what and when, in the order
//! in which it was recorded.

use vstd::prelude::*;
use vstd::string::*;
use crate::clock::{clock_error, current_unix_ms};
use crate::seqs::views;

verus! {

/// One recorded action.
#[derive(Debug)]
pub struct AuditEvent {
    pub actor: String,
    pub action: String,
    pub target: String,
    pub timestamp_unix_ms: u64,
}

/// A recorded action in mathematical terms.
pub struct AuditEventView {
    pub actor: Seq<char>,
    pub action: Seq<char>,
    pub target: Seq<char>,
    pub timestamp_unix_ms: u64,
}

impl View for AuditEvent {
    type V = AuditEventView;

    open spec fn view(&self) -> AuditEventView {
        AuditEventView {
            actor: self.actor@,
            action: self.action@,
            target: self.target@,
            timestamp_unix_ms: self.timestamp_unix_ms,
        }
    }
}

impl Clone for AuditEvent {
    fn clone(&self) -> (copy: Self)
        ensures
            copy == *self,
    {
        AuditEvent {
            actor: self.actor.clone(),
            action: self.action.clone(),
            target: self.target.clone(),
            timestamp_unix_ms: self.timestamp_unix_ms,
        }
    }
}

/// The recorded actions. Sharing a log between threads is the matter of
/// whoever owns it: the log itself is changed by one writer at a time.
pub struct AuditLog {
    events: Vec<AuditEvent>,
}

impl View for AuditLog {
    type V = Seq<AuditEventView>;

    closed spec fn view(&self) -> Seq<AuditEventView> {
        views(self.events@)
    }
}

impl AuditLog {
    /// An empty log.
    pub fn new() -> (log: Self)
        ensures
            log@.len() == 0,
    {
        AuditLog { events: Vec::new() }
    }

    /// Records an event behind all events recorded before. No event is
    /// lost and none changes its place.
    pub fn append(&mut self, event: AuditEvent)
        ensures
            final(self)@ == old(self)@.push(event@),
    {
        let ghost before = views(self.events@);
        let ghost added = event@;
        self.events.push(event);
        assert(views(self.events@) =~= before.push(added));
    }

    /// The recorded events, in the order in which they were recorded.
    pub fn list(&self) -> (events: Vec<AuditEvent>)
        ensures
            views(events@) == self@,
    {
        let mut copies: Vec<AuditEvent> = Vec::new();
        let mut i: usize = 0;
        while i < self.events.len()
            invariant
                i <= self.events.len(),
                views(copies@) == views(self.events@).take(i as int),
            decreases self.events.len() - i,
        {
            let ghost so_far = views(copies@);
            copies.push(self.events[i].clone());
            assert(views(copies@) =~= so_far.push(self.events@[i as int]@));
            assert(views(self.events@).take(i + 1) =~= views(self.events@).take(i as int).push(
                self.events@[i as int]@,
            ));
            i += 1;
        }
        assert(views(self.events@).take(i as int) =~= views(self.events@));
        copies
    }
}

impl Default for AuditLog {
    fn default() -> (log: Self)
        ensures
            log@.len() == 0,
    {
        AuditLog::new()
    }
}

/// The event that records an action at a given time.
pub open spec fn audit_event(
    actor: Seq<char>,
    action: Seq<char>,
    target: Seq<char>,
    now: u64,
) -> AuditEventView {
    AuditEventView { actor: actor, action: action, target: target, timestamp_unix_ms: now }
}

/// Records an action with the given time.
pub fn append_audit_at(audit: &mut AuditLog, actor: &str, action: &str, target: &str, now: u64)
    ensures
        final(audit)@ == old(audit)@.push(audit_event(actor@, action@, target@, now)),
{
    audit.append(
        AuditEvent {
            actor: actor.to_string(),
            action: action.to_string(),
            target: target.to_string(),
            timestamp_unix_ms: now,
        },
    );
}

/// Records an action with the time of the clock. Where the clock stands
/// before the Unix epoch, nothing is recorded.
pub fn append_audit(audit: &mut AuditLog, actor: &str, action: &str, target: &str) -> (r: Result<
    (),
    String,
>)
    ensures
        match r {
            Ok(_) => exists|now: u64|
                final(audit)@ == old(audit)@.push(
                    #[trigger] audit_event(actor@, action@, target@, now),
                ),
            Err(e) => e@ == clock_error() && final(audit)@ == old(audit)@,
        },
{
    match current_unix_ms() {
        Some(now) => {
            append_audit_at(audit, actor, action, target, now);
            Ok(())
        },
        None => Err("system clock before UNIX_EPOCH".to_string()),
    }
}

} // verus!
