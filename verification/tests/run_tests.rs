use rsp::cmd::common::{PortForwardRule, RuleTable};
use rsp::services::{make_rule, start_rules, stop_rules};
use rsp::start_run::{StartAction, StartError, StartRun, READY_PROBES};
use rsp::stop_run::{StopAction, StopError, StopRun, STOP_PROBES};

fn rule(local: u16, remote: u16, host: &str, status: bool, pid: Option<u32>) -> PortForwardRule {
    make_rule(local, remote, host.to_string(), status, pid)
}

fn table(rows: Vec<(&str, PortForwardRule)>) -> RuleTable {
    let mut t = RuleTable::new();
    for (name, r) in rows {
        t.insert(name.to_string(), r);
    }
    t
}

fn names(v: &[&str]) -> Vec<String> {
    v.iter().map(|s| s.to_string()).collect()
}

fn web_table() -> RuleTable {
    table(vec![
        ("web", rule(80, 8080, "h", true, Some(11))),
        ("db", rule(5432, 5432, "h", true, Some(21))),
    ])
}

fn stop_failure(a: StopAction) -> StopError {
    match a {
        StopAction::Fail(e) => e,
        _ => panic!("expected a failure"),
    }
}

fn start_failure(a: StartAction) -> StartError {
    match a {
        StartAction::Fail(e) => e,
        _ => panic!("expected a failure"),
    }
}

#[test]
fn stop_kills_every_known_process_once_in_order() {
    let (mut run, a) = StopRun::new(web_table(), names(&["web"]));
    assert!(matches!(a, StopAction::Inspect { local_port: 80, remote_port: 8080, ref remote_host } if remote_host == "h"));
    let a = run.inspected(&vec![12, 11], &vec![(13, true), (14, false), (12, true)]);
    assert!(matches!(a, StopAction::Kill(11)));
    assert_eq!(run.pids, vec![11, 12, 13]);
    assert!(matches!(run.killed(Ok(())), StopAction::Kill(12)));
    let a = run.killed(Err("kill: 12: No such process".to_string()));
    assert!(matches!(a, StopAction::Kill(13)));
    let a = run.killed(Ok(()));
    assert!(matches!(a, StopAction::Probe { local_port: 80, pause: false, .. }));
    let a = run.probed(Ok(Some(11)));
    assert!(matches!(a, StopAction::Probe { pause: true, .. }));
    assert!(matches!(run.probed(Ok(None)), StopAction::Save));
    let web = run.rules.get(&"web".to_string()).unwrap();
    assert!(!web.status);
    assert_eq!(web.pid, None);
    assert_eq!(web.local_port, 80);
    let db = run.rules.get(&"db".to_string()).unwrap();
    assert!(db.status);
    assert_eq!(db.pid, Some(21));
}

#[test]
fn stop_goes_through_every_name() {
    let (mut run, _) = stop_rules(web_table(), names(&["web", "db"]));
    run.inspected(&Vec::new(), &Vec::new());
    run.killed(Ok(()));
    let a = run.probed(Ok(None));
    assert!(matches!(a, StopAction::Inspect { local_port: 5432, .. }));
    run.inspected(&Vec::new(), &Vec::new());
    run.killed(Ok(()));
    assert!(matches!(run.probed(Ok(None)), StopAction::Save));
    assert!(!run.rules.get(&"db".to_string()).unwrap().status);
    assert!(!run.rules.get(&"web".to_string()).unwrap().status);
}

#[test]
fn stop_without_processes_goes_straight_to_probing() {
    let t = table(vec![("idle", rule(81, 81, "h", false, None))]);
    let (mut run, _) = StopRun::new(t, names(&["idle"]));
    let a = run.inspected(&Vec::new(), &vec![(9, false)]);
    assert!(matches!(a, StopAction::Probe { pause: false, .. }));
}

#[test]
fn stop_of_unknown_rule_fails() {
    let (run, a) = StopRun::new(web_table(), names(&["web", "zz"]));
    assert!(matches!(a, StopAction::Inspect { .. }));
    drop(run);
    let (_, a) = StopRun::new(web_table(), names(&["zz"]));
    assert_eq!(stop_failure(a).message(), "Rule 'zz' not found");
}

#[test]
fn stop_fails_on_other_kill_errors_and_stays_failed() {
    let (mut run, _) = StopRun::new(web_table(), names(&["web"]));
    run.inspected(&Vec::new(), &Vec::new());
    let a = run.killed(Err("kill: 11: Operation not permitted".to_string()));
    match stop_failure(a) {
        StopError::Failed { name, cause } => {
            assert_eq!(name, "web");
            assert_eq!(cause, "kill: 11: Operation not permitted");
        },
        _ => panic!("expected a failed stop"),
    }
    assert_eq!(stop_failure(run.action()).message(), "Failed to stop 'web'");
    assert!(matches!(run.probed(Ok(None)), StopAction::Fail(_)));
    assert!(matches!(run.listener_checked(true), StopAction::Fail(_)));
    assert!(run.rules.get(&"web".to_string()).unwrap().status);
}

#[test]
fn stop_checks_the_listener_after_every_probe() {
    let (mut run, _) = StopRun::new(web_table(), names(&["web"]));
    run.inspected(&Vec::new(), &Vec::new());
    run.killed(Ok(()));
    let mut last = None;
    for _ in 0..STOP_PROBES {
        last = Some(run.probed(Ok(Some(11))));
    }
    assert!(matches!(last, Some(StopAction::CheckListener { local_port: 80 })));
    let a = run.listener_checked(false);
    match stop_failure(a) {
        StopError::Failed { cause, .. } => {
            assert_eq!(cause, "ssh listener for 127.0.0.1:80 is still running after stop")
        },
        _ => panic!("expected a failed stop"),
    }
}

#[test]
fn stop_accepts_a_free_port_after_probing() {
    let (mut run, _) = StopRun::new(web_table(), names(&["web"]));
    run.inspected(&Vec::new(), &Vec::new());
    run.killed(Ok(()));
    for _ in 0..STOP_PROBES {
        run.probed(Ok(Some(11)));
    }
    assert!(matches!(run.listener_checked(true), StopAction::Save));
    assert!(!run.rules.get(&"web".to_string()).unwrap().status);
}

#[test]
fn stop_fails_when_a_look_fails() {
    let (mut run, _) = StopRun::new(web_table(), names(&["web"]));
    run.inspected(&Vec::new(), &Vec::new());
    run.killed(Ok(()));
    let a = run.probed(Err("Failed to execute ps command".to_string()));
    assert!(matches!(stop_failure(a), StopError::Failed { .. }));
}

#[test]
fn stop_ignores_reports_out_of_turn() {
    let (mut run, _) = StopRun::new(web_table(), names(&["web"]));
    assert!(matches!(run.killed(Ok(())), StopAction::Inspect { .. }));
    assert!(matches!(run.probed(Ok(None)), StopAction::Inspect { .. }));
    assert!(matches!(run.listener_checked(true), StopAction::Inspect { .. }));
}

fn start_table() -> RuleTable {
    table(vec![
        ("web", rule(80, 8080, "h", false, None)),
        ("old", rule(80, 90, "g", true, Some(33))),
        ("other", rule(81, 81, "h", false, None)),
    ])
}

/// Drives a start of `web` up to its launch.
fn start_until_launch(run: &mut StartRun) {
    let a = run.resolved(Ok(None));
    assert!(matches!(a, StartAction::ListRuleProcesses { local_port: 80, remote_port: 8080, .. }));
    let a = run.processes_listed(Ok(vec![44]));
    assert!(matches!(a, StartAction::Kill(44)));
    let a = run.killed(Ok(()));
    assert!(matches!(a, StartAction::ReadConfig { pause: true }));
    let a = run.config_read(Some("Host h\n  LocalForward 81 localhost:1\n".to_string()));
    assert!(matches!(a, StartAction::ListListeners { local_port: 80 }));
    let a = run.listeners_listed(Ok(vec![55]));
    assert!(matches!(a, StartAction::ListRuleProcesses { .. }));
    let a = run.processes_listed(Ok(vec![55]));
    match a {
        StartAction::Launch { forward, remote_host } => {
            assert_eq!(forward, "127.0.0.1:80:localhost:8080");
            assert_eq!(remote_host, "h");
        },
        _ => panic!("expected a launch"),
    }
}

#[test]
fn start_marks_running_only_after_every_look_agrees() {
    let (mut run, a) = StartRun::new(start_table(), names(&["web"]));
    match a {
        StartAction::Resolve { saved, local_port, remote_port, remote_host, pause } => {
            assert_eq!(saved, Some(33));
            assert_eq!((local_port, remote_port), (80, 90));
            assert_eq!(remote_host, "g");
            assert!(!pause);
        },
        _ => panic!("expected the other rule to be looked up"),
    }
    start_until_launch(&mut run);
    let a = run.launched(Ok((true, "exit status: 0".to_string())));
    assert!(matches!(a, StartAction::Resolve { saved: None, local_port: 80, pause: false, .. }));
    for k in 1..READY_PROBES {
        let a = run.resolved(Ok(Some(99)));
        assert!(matches!(a, StartAction::Resolve { pause: true, .. }));
        assert_eq!(run.samples, k);
    }
    assert!(!run.rules.get(&"web".to_string()).unwrap().status);
    assert!(matches!(run.resolved(Ok(Some(99))), StartAction::Save));
    let web = run.rules.get(&"web".to_string()).unwrap();
    assert!(web.status);
    assert_eq!(web.pid, Some(99));
    let old = run.rules.get(&"old".to_string()).unwrap();
    assert!(!old.status);
    assert_eq!(old.pid, None);
    assert_eq!(old.remote_port, 90);
}

#[test]
fn start_fails_when_the_process_changes_at_the_end() {
    let (mut run, _) = start_rules(start_table(), names(&["web"]));
    start_until_launch(&mut run);
    run.launched(Ok((true, String::new())));
    for _ in 1..READY_PROBES {
        run.resolved(Ok(Some(99)));
    }
    let a = run.resolved(Ok(Some(100)));
    match start_failure(a) {
        StartError::NotReady { name, cause } => {
            assert_eq!(name, "web");
            assert_eq!(cause, "ssh process started but local listener 127.0.0.1:80 was not established");
        },
        _ => panic!("expected the forward not to be ready"),
    }
    assert_eq!(start_failure(run.action()).message(), "Failed to start 'web'");
    assert!(matches!(run.resolved(Ok(Some(99))), StartAction::Fail(_)));
    assert!(matches!(run.launched(Ok((true, String::new()))), StartAction::Fail(_)));
    assert!(!run.rules.get(&"web".to_string()).unwrap().status);
}

#[test]
fn start_refuses_a_port_held_by_a_running_rule() {
    let (mut run, _) = StartRun::new(start_table(), names(&["web"]));
    let e = start_failure(run.resolved(Ok(Some(33))));
    assert_eq!(
        e.message(),
        "Local port 80 is already occupied by running rule(s): old. Stop that rule first before starting 'web'."
    );
}

#[test]
fn start_errors_and_their_messages() {
    let (_, a) = StartRun::new(start_table(), names(&["zz"]));
    assert_eq!(start_failure(a).message(), "Rule 'zz' not found");

    let (mut run, _) = StartRun::new(start_table(), names(&["web"]));
    assert_eq!(start_failure(run.resolved(Err("ps failed".to_string()))).message(), "ps failed");

    let (mut run, _) = StartRun::new(start_table(), names(&["web"]));
    run.resolved(Ok(None));
    run.processes_listed(Ok(vec![44]));
    let e = start_failure(run.killed(Err("Operation not permitted".to_string())));
    assert_eq!(e.message(), "Failed to replace existing SSH process for rule 'web'");

    let (mut run, _) = StartRun::new(start_table(), names(&["web"]));
    run.resolved(Ok(None));
    let a = run.processes_listed(Err("ps failed".to_string()));
    assert!(matches!(a, StartAction::ReadConfig { pause: false }));
    let e = start_failure(run.config_read(Some("Host h\nLocalForward 80 localhost:1\n".to_string())));
    assert!(matches!(&e, StartError::Conflict(c) if c.destination == "localhost:1"));

    let (mut run, _) = StartRun::new(start_table(), names(&["web"]));
    run.resolved(Ok(None));
    run.processes_listed(Ok(Vec::new()));
    run.config_read(None);
    run.listeners_listed(Ok(vec![55]));
    let e = start_failure(run.processes_listed(Ok(vec![56])));
    assert_eq!(e.message(), "Local port 80 is already in use by another process");

    let (mut run, _) = StartRun::new(start_table(), names(&["web"]));
    run.resolved(Ok(None));
    run.processes_listed(Ok(Vec::new()));
    run.config_read(None);
    let a = run.listeners_listed(Err("lsof failed".to_string()));
    assert!(matches!(a, StartAction::Launch { .. }));
    let e = start_failure(run.launched(Err("No such file or directory".to_string())));
    assert_eq!(e.message(), "Failed to execute ssh command");

    let (mut run, _) = StartRun::new(start_table(), names(&["web"]));
    start_until_launch(&mut run);
    let e = start_failure(run.launched(Ok((false, "exit status: 255".to_string()))));
    assert_eq!(e.message(), "Failed to start 'web': ssh exited with status exit status: 255");
}

#[test]
fn start_gives_up_when_nothing_listens() {
    let (mut run, _) = StartRun::new(start_table(), names(&["other"]));
    run.processes_listed(Ok(Vec::new()));
    run.config_read(None);
    run.listeners_listed(Ok(Vec::new()));
    run.launched(Ok((true, String::new())));
    let mut last = None;
    for _ in 0..READY_PROBES {
        last = Some(run.resolved(Ok(None)));
    }
    assert!(matches!(last, Some(StartAction::Fail(StartError::NotReady { .. }))));
}

#[test]
fn start_of_a_rule_alone_on_its_port_skips_the_lookups() {
    let (mut run, a) = StartRun::new(start_table(), names(&["other"]));
    assert!(matches!(a, StartAction::ListRuleProcesses { local_port: 81, .. }));
    let a = run.processes_listed(Ok(Vec::new()));
    assert!(matches!(a, StartAction::ReadConfig { pause: false }));
    let a = run.config_read(None);
    assert!(matches!(a, StartAction::ListListeners { local_port: 81 }));
    let a = run.listeners_listed(Ok(Vec::new()));
    assert!(matches!(a, StartAction::Launch { .. }));
}

/// Drives the start of one rule alone on its port, from its first action to
/// the last look, with `pid` found at every look.
fn start_alone(run: &mut StartRun, pid: u32) -> StartAction {
    run.processes_listed(Ok(Vec::new()));
    run.config_read(None);
    run.listeners_listed(Ok(Vec::new()));
    run.launched(Ok((true, String::new())));
    let mut last = run.resolved(Ok(Some(pid)));
    for _ in 1..READY_PROBES {
        last = run.resolved(Ok(Some(pid)));
    }
    last
}

#[test]
fn every_rule_started_is_marked_running() {
    let t = table(vec![("a", rule(1001, 1, "h", false, None)), ("b", rule(1002, 2, "h", false, None))]);
    let (mut run, _) = StartRun::new(t, names(&["a", "b"]));
    let a = start_alone(&mut run, 71);
    assert!(matches!(a, StartAction::ListRuleProcesses { local_port: 1002, .. }));
    assert!(matches!(start_alone(&mut run, 72), StartAction::Save));
    assert_eq!(run.rules.get(&"a".to_string()).unwrap().pid, Some(71));
    assert_eq!(run.rules.get(&"b".to_string()).unwrap().pid, Some(72));
}

#[test]
fn a_later_rule_on_the_same_port_unmarks_a_gone_one() {
    let t = table(vec![("a", rule(1001, 1, "h", false, None)), ("b", rule(1001, 2, "h", false, None))]);
    let (mut run, first_look) = StartRun::new(t, names(&["a", "b"]));
    assert!(matches!(first_look, StartAction::Resolve { saved: None, local_port: 1001, remote_port: 2, .. }));
    run.resolved(Ok(None));
    let a = start_alone(&mut run, 71);
    assert!(matches!(a, StartAction::Resolve { saved: Some(71), local_port: 1001, remote_port: 1, .. }));
    run.resolved(Ok(None));
    assert!(matches!(start_alone(&mut run, 72), StartAction::Save));
    let first = run.rules.get(&"a".to_string()).unwrap();
    assert!(!first.status);
    assert_eq!(first.pid, None);
    assert!(run.rules.get(&"b".to_string()).unwrap().status);
}
