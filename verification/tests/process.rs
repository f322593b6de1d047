use clawden::process::{
    record_runtime, stop_begin, stop_step, ExecutionMode, ProcessInfo, ProcessManager,
    ProcessProbe, StopAction, StopEvent, StopState, MAX_POLLS, POLL_INTERVAL_MS,
};

fn manager(mode: ExecutionMode) -> ProcessManager {
    ProcessManager::new(mode, "/home/u/.clawden/run".to_string(), "/home/u/.clawden/logs".to_string())
}

#[test]
fn manager_keeps_its_directories() {
    let m = manager(ExecutionMode::Auto);
    assert_eq!(m.state_dir(), "/home/u/.clawden/run");
    assert_eq!(m.log_dir(), "/home/u/.clawden/logs");
}

#[test]
fn resolve_mode_table() {
    for mode in [ExecutionMode::Docker, ExecutionMode::Direct, ExecutionMode::Auto] {
        for available in [false, true] {
            assert_eq!(manager(mode).resolve_mode(true, available), ExecutionMode::Direct);
        }
    }
    assert_eq!(manager(ExecutionMode::Auto).resolve_mode(false, true), ExecutionMode::Docker);
    assert_eq!(manager(ExecutionMode::Auto).resolve_mode(false, false), ExecutionMode::Direct);
    assert_eq!(manager(ExecutionMode::Docker).resolve_mode(false, false), ExecutionMode::Docker);
    assert_eq!(manager(ExecutionMode::Docker).resolve_mode(false, true), ExecutionMode::Docker);
    assert_eq!(manager(ExecutionMode::Direct).resolve_mode(false, true), ExecutionMode::Direct);
}

#[test]
fn docker_is_probed_only_for_auto() {
    assert!(manager(ExecutionMode::Auto).needs_docker_probe(false));
    assert!(!manager(ExecutionMode::Auto).needs_docker_probe(true));
    assert!(!manager(ExecutionMode::Docker).needs_docker_probe(false));
    assert!(!manager(ExecutionMode::Direct).needs_docker_probe(false));
}

#[test]
fn file_names_of_a_runtime() {
    let m = manager(ExecutionMode::Direct);
    assert_eq!(m.pid_file("zeroclaw"), "zeroclaw.pid");
    assert_eq!(m.log_file("zeroclaw"), "zeroclaw.log");
    assert_eq!(m.pid_file(""), ".pid");
}

#[test]
fn start_is_refused_without_executable() {
    let m = manager(ExecutionMode::Direct);
    let err = m.plan_start("zeroclaw", "/opt/zeroclaw/bin", false).unwrap_err();
    assert_eq!(err, "runtime executable not found: /opt/zeroclaw/bin");
    let plan = m.plan_start("zeroclaw", "/opt/zeroclaw/bin", true).unwrap();
    assert_eq!(plan.log_file, "zeroclaw.log");
    assert_eq!(plan.pid_file, "zeroclaw.pid");
}

#[test]
fn direct_record_is_in_direct_mode() {
    let m = manager(ExecutionMode::Auto);
    let info = m.direct_record("zeroclaw", 4242, 99, "/logs/zeroclaw.log".to_string());
    assert_eq!(info.runtime, "zeroclaw");
    assert_eq!(info.pid, 4242);
    assert_eq!(info.started_at_unix_ms, 99);
    assert_eq!(info.mode, ExecutionMode::Direct);
    assert_eq!(info.log_path, "/logs/zeroclaw.log");
}

fn answer(action: StopAction, alive_for: u32, probes: &mut u32) -> StopEvent {
    match action {
        StopAction::SendTerm(_) | StopAction::SendKill(_) => StopEvent::SignalSent,
        StopAction::Probe(_) => {
            *probes += 1;
            StopEvent::Probed(*probes <= alive_for)
        }
        StopAction::Sleep(_) => StopEvent::Slept,
        StopAction::RemoveRecord => StopEvent::RecordRemoved,
        StopAction::Finish => unreachable!(),
    }
}

fn run_stop(record: Option<u32>, alive_for: u32) -> Vec<StopAction> {
    let mut actions = Vec::new();
    let mut probes = 0;
    let mut state = stop_begin();
    let mut event = StopEvent::RecordRead(record);
    loop {
        let (next, action) = stop_step(state, event).unwrap();
        actions.push(action);
        if action == StopAction::Finish {
            assert_eq!(next, StopState::Done);
            return actions;
        }
        assert!(actions.len() < 100);
        event = answer(action, alive_for, &mut probes);
        state = next;
    }
}

#[test]
fn stop_without_record_sends_no_signal() {
    assert_eq!(stop_begin(), StopState::Lookup);
    assert_eq!(run_stop(None, 0), vec![StopAction::Finish]);
}

#[test]
fn stop_of_a_process_that_exits_at_once() {
    assert_eq!(
        run_stop(Some(7), 0),
        vec![
            StopAction::SendTerm(7),
            StopAction::Probe(7),
            StopAction::RemoveRecord,
            StopAction::Finish
        ]
    );
}

#[test]
fn stop_of_a_process_that_exits_after_two_probes() {
    assert_eq!(
        run_stop(Some(7), 2),
        vec![
            StopAction::SendTerm(7),
            StopAction::Probe(7),
            StopAction::Sleep(100),
            StopAction::Probe(7),
            StopAction::Sleep(100),
            StopAction::Probe(7),
            StopAction::RemoveRecord,
            StopAction::Finish
        ]
    );
}

#[test]
fn stop_of_a_process_that_never_exits_escalates_after_twenty_probes() {
    assert_eq!(MAX_POLLS, 20);
    assert_eq!(POLL_INTERVAL_MS, 100);
    let actions = run_stop(Some(9), 1000);
    let probes = actions.iter().filter(|a| **a == StopAction::Probe(9)).count();
    let sleeps = actions.iter().filter(|a| **a == StopAction::Sleep(100)).count();
    assert_eq!(probes, 20);
    assert_eq!(sleeps, 20);
    assert_eq!(actions.len(), 44);
    assert_eq!(actions[0], StopAction::SendTerm(9));
    assert_eq!(actions[41], StopAction::SendKill(9));
    assert_eq!(actions[42], StopAction::RemoveRecord);
    assert_eq!(actions[43], StopAction::Finish);
    assert_eq!(actions.iter().filter(|a| **a == StopAction::SendKill(9)).count(), 1);
}

#[test]
fn stop_exits_on_the_last_probe_without_kill() {
    let actions = run_stop(Some(9), 19);
    assert!(!actions.contains(&StopAction::SendKill(9)));
    assert_eq!(actions.iter().filter(|a| **a == StopAction::Probe(9)).count(), 20);
}

#[test]
fn stop_refuses_reports_that_do_not_fit() {
    assert_eq!(stop_step(StopState::Lookup, StopEvent::Slept), None);
    assert_eq!(stop_step(StopState::Done, StopEvent::RecordRemoved), None);
    assert_eq!(stop_step(StopState::Terminating { pid: 1 }, StopEvent::Probed(true)), None);
    assert_eq!(stop_step(StopState::Removing, StopEvent::SignalSent), None);
}

#[test]
fn record_files_are_told_by_their_name() {
    assert_eq!(record_runtime("zeroclaw.pid"), Some("zeroclaw".to_string()));
    assert_eq!(record_runtime("a.b.pid"), Some("a.b".to_string()));
    assert_eq!(record_runtime("a..pid"), Some("a.".to_string()));
    assert_eq!(record_runtime(".pid"), None);
    assert_eq!(record_runtime("pid"), None);
    assert_eq!(record_runtime("zeroclaw.log"), None);
    assert_eq!(record_runtime("zeroclaw.pid.bak"), None);
    assert_eq!(record_runtime("zeroclaw.PID"), None);
    assert_eq!(record_runtime("zeroclaw.pi"), None);
    assert_eq!(record_runtime("zeroclaw.pidx"), None);
    assert_eq!(record_runtime("zeroclaw."), None);
    assert_eq!(record_runtime(""), None);
    assert_eq!(record_runtime("\u{e9}t\u{e9}.pid"), Some("\u{e9}t\u{e9}".to_string()));
}

fn probe(runtime: &str, pid: u32, running: bool) -> ProcessProbe {
    ProcessProbe {
        runtime: runtime.to_string(),
        info: ProcessInfo {
            runtime: format!("recorded-{}", runtime),
            pid,
            started_at_unix_ms: 5,
            mode: ExecutionMode::Direct,
            log_path: format!("/logs/{}.log", runtime),
        },
        running,
    }
}

#[test]
fn statuses_are_sorted_by_runtime_name() {
    let m = manager(ExecutionMode::Auto);
    let statuses = m.list_statuses(vec![
        probe("zeroclaw", 3, true),
        probe("openclaw", 1, false),
        probe("picoclaw", 2, true),
        probe("Zeta", 4, false),
        probe("open", 5, true),
        probe("openclaw", 6, true),
    ]);
    let seen: Vec<(&str, Option<u32>, bool)> =
        statuses.iter().map(|s| (s.runtime.as_str(), s.pid, s.running)).collect();
    assert_eq!(
        seen,
        vec![
            ("Zeta", Some(4), false),
            ("open", Some(5), true),
            ("openclaw", Some(1), false),
            ("openclaw", Some(6), true),
            ("picoclaw", Some(2), true),
            ("zeroclaw", Some(3), true),
        ]
    );
    assert_eq!(statuses[2].mode, ExecutionMode::Direct);
    assert_eq!(statuses[2].log_path, "/logs/openclaw.log");
    assert_eq!(m.list_statuses(Vec::new()).len(), 0);
}

#[test]
fn statuses_sort_as_strings_do() {
    let names = ["b", "a\u{e9}", "a", "", "ab", "B", "\u{1F600}", "a\u{7f}", "\u{e9}"];
    let m = manager(ExecutionMode::Auto);
    let statuses = m.list_statuses(names.iter().map(|n| probe(n, 1, true)).collect());
    let got: Vec<&str> = statuses.iter().map(|s| s.runtime.as_str()).collect();
    let mut expected: Vec<&str> = names.to_vec();
    expected.sort();
    assert_eq!(got, expected);
}

#[test]
fn tail_returns_the_last_lines() {
    let m = manager(ExecutionMode::Auto);
    let log = "one\ntwo\nthree\nfour\n";
    assert_eq!(m.tail_logs(Some(log), 2), "three\nfour");
    assert_eq!(m.tail_logs(Some(log), 4), "one\ntwo\nthree\nfour");
    assert_eq!(m.tail_logs(Some(log), 10), "one\ntwo\nthree\nfour");
    assert_eq!(m.tail_logs(Some(log), 1), "four");
    assert_eq!(m.tail_logs(Some(log), 0), "");
    assert_eq!(m.tail_logs(Some("one\ntwo"), 1), "two");
    assert_eq!(m.tail_logs(Some(""), 3), "");
    assert_eq!(m.tail_logs(None, 3), "");
}

#[test]
fn tail_splits_lines_as_the_standard_library_does() {
    let m = manager(ExecutionMode::Auto);
    for log in [
        "a\r\nb\r\n",
        "a\n\nb",
        "\n",
        "\n\n",
        "a\r",
        "a\r\n\r\n",
        "\r\n",
        "a\rb\nc",
        "x\r\r\ny",
        "last\n",
        "only",
    ] {
        for count in 0..4usize {
            let rows: Vec<&str> = log.lines().collect();
            let start = rows.len().saturating_sub(count);
            assert_eq!(m.tail_logs(Some(log), count), rows[start..].join("\n"), "{:?}", log);
        }
    }
}
