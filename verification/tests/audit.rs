use clawden::audit::{append_audit, append_audit_at, AuditEvent, AuditLog};

fn event(actor: &str, at: u64) -> AuditEvent {
    AuditEvent {
        actor: actor.to_string(),
        action: "act".to_string(),
        target: "it".to_string(),
        timestamp_unix_ms: at,
    }
}

#[test]
fn append_keeps_every_event_in_order() {
    let mut log = AuditLog::new();
    assert_eq!(log.list().len(), 0);
    for i in 0..50u64 {
        log.append(event(&format!("actor-{}", i), i));
    }
    let events = log.list();
    assert_eq!(events.len(), 50);
    for (i, e) in events.iter().enumerate() {
        assert_eq!(e.actor, format!("actor-{}", i));
        assert_eq!(e.timestamp_unix_ms, i as u64);
    }
}

#[test]
fn append_audit_stamps_the_time() {
    let mut log = AuditLog::default();
    append_audit(&mut log, "system", "server.start", "clawden-server").unwrap();
    append_audit_at(&mut log, "admin", "agent.stop", "agent-1", 7);
    let events = log.list();
    assert_eq!(events.len(), 2);
    assert_eq!(events[0].actor, "system");
    assert_eq!(events[0].action, "server.start");
    assert_eq!(events[0].target, "clawden-server");
    assert!(events[0].timestamp_unix_ms > 1_500_000_000_000);
    assert_eq!(events[1].actor, "admin");
    assert_eq!(events[1].action, "agent.stop");
    assert_eq!(events[1].target, "agent-1");
    assert_eq!(events[1].timestamp_unix_ms, 7);
}
