use rsp::cmd::common::PortForwardRule;
use rsp::gui::{
    action_event, event_for, pid_cell, refresh_event, row_toggle, start_command, stop_command, DashboardData,
    PendingRuleState, RowStatus, RspGuiApp, UiMessage, WorkerCommand, WorkerEvent,
};
use rsp::services::make_rule;

fn rule(local: u16, remote: u16, host: &str, status: bool, pid: Option<u32>) -> PortForwardRule {
    make_rule(local, remote, host.to_string(), status, pid)
}

fn names(v: &[&str]) -> Vec<String> {
    v.iter().map(|s| s.to_string()).collect()
}

fn dashboard() -> DashboardData {
    DashboardData {
        rules: vec![
            ("api".to_string(), rule(81, 81, "prod", false, None)),
            ("web".to_string(), rule(80, 8080, "prod", true, Some(7))),
        ],
        hosts: names(&["prod", "staging"]),
    }
}

fn loaded_app() -> RspGuiApp {
    let mut app = RspGuiApp::new(true);
    app.process_worker_events(vec![refresh_event(Ok(dashboard()), None)]);
    app
}

#[test]
fn the_window_opens_with_a_refresh() {
    let app = RspGuiApp::new(true);
    assert!(app.is_busy());
    assert_eq!(app.pending_jobs, 1);
    assert!(app.rules.is_empty());
    let app = RspGuiApp::new(false);
    assert!(!app.is_busy());
    let m = app.message.unwrap();
    assert_eq!(m.text, "Background worker is not available");
    assert!(m.error);
}

#[test]
fn a_dashboard_fills_rows_and_the_host_field() {
    let app = loaded_app();
    assert!(!app.is_busy());
    assert_eq!(app.rules.len(), 2);
    assert_eq!(app.hosts, names(&["prod", "staging"]));
    assert_eq!(app.form.remote_host, "prod");
    assert!(app.message.is_none());
}

#[test]
fn starting_shows_starting_until_the_job_ends() {
    let mut app = loaded_app();
    let api = "api".to_string();
    app.request_start(&names(&["api"]), true);
    assert_eq!(app.pending_state(&api), Some(PendingRuleState::Starting));
    assert!(app.is_busy());
    let mut dash = dashboard();
    dash.rules[0].1 = rule(81, 81, "prod", true, Some(9));
    let done = action_event(names(&["api"]), "Started api".to_string(), Ok(dash), None);
    app.process_worker_events(vec![done]);
    assert_eq!(app.pending_state(&api), None);
    assert!(!app.is_busy());
    assert!(app.rules[0].1.status);
    assert!(app.message.is_none());
}

#[test]
fn stopping_marks_and_a_failed_job_reports() {
    let mut app = loaded_app();
    let web = "web".to_string();
    app.request_stop(&names(&["web"]), true);
    assert_eq!(app.pending_state(&web), Some(PendingRuleState::Stopping));
    let failed = action_event(names(&["web"]), "Stopped web".to_string(), Err("Failed to stop 'web'".to_string()), None);
    app.process_worker_events(vec![failed]);
    assert_eq!(app.pending_state(&web), None);
    let m = app.message.as_ref().unwrap();
    assert!(m.error);
    assert_eq!(m.text, "Failed to stop 'web'");
    assert_eq!(app.rules.len(), 2);
}

#[test]
fn requests_that_cannot_be_sent_or_are_empty() {
    let mut app = loaded_app();
    app.request_start(&Vec::new(), true);
    assert!(!app.is_busy());
    app.request_start(&names(&["api"]), false);
    assert_eq!(app.pending_state(&"api".to_string()), None);
    assert_eq!(app.message.as_ref().unwrap().text, "Background worker is not available");
    app.request_refresh(true);
    assert!(app.is_busy());
}

#[test]
fn editing_a_rule_and_saving_it_unchanged() {
    let mut app = loaded_app();
    let web = rule(80, 8080, "prod", true, Some(7));
    app.load_into_form(&"web".to_string(), &web);
    assert_eq!(app.form.local_port, "80");
    assert_eq!(app.form.remote_port, "8080");
    assert_eq!(app.selected, Some("web".to_string()));
    let sub = app.save_form().unwrap();
    assert_eq!(sub.name, "web");
    assert_eq!(sub.original_name, Some("web".to_string()));
    assert!(sub.rule.same_as(&rule(80, 8080, "prod", false, None)));
}

#[test]
fn form_checks_in_order() {
    let mut app = loaded_app();
    app.form.name = "  ".to_string();
    assert!(app.save_form().is_none());
    assert_eq!(app.message.as_ref().unwrap().text, "Rule name cannot be empty");
    app.form.name = " db ".to_string();
    app.form.remote_host = "".to_string();
    assert!(app.save_form().is_none());
    assert_eq!(app.message.as_ref().unwrap().text, "Remote host cannot be empty");
    app.form.remote_host = " prod ".to_string();
    app.form.local_port = "70000".to_string();
    assert!(app.save_form().is_none());
    assert_eq!(app.message.as_ref().unwrap().text, "Local port must be a valid number");
    app.form.local_port = " 5432 ".to_string();
    app.form.remote_port = "x".to_string();
    assert!(app.save_form().is_none());
    assert_eq!(app.message.as_ref().unwrap().text, "Remote port must be a valid number");
    app.form.remote_port = "+5433".to_string();
    let sub = app.save_form().unwrap();
    assert_eq!(sub.name, "db");
    assert!(sub.original_name.is_none());
    assert!(sub.rule.same_as(&rule(5432, 5433, "prod", false, None)));
}

#[test]
fn a_saved_rename_replaces_the_row() {
    let mut app = loaded_app();
    app.load_into_form(&"api".to_string(), &rule(81, 81, "prod", false, None));
    app.form.name = "zeta".to_string();
    let sub = app.save_form().unwrap();
    app.finish_save(&sub, Ok(()), true);
    let shown: Vec<&str> = app.rules.iter().map(|r| r.0.as_str()).collect();
    assert_eq!(shown, vec!["web", "zeta"]);
    assert_eq!(app.selected, None);
    assert_eq!(app.form.name, "");
    assert_eq!(app.form.remote_host, "prod");
    assert!(app.is_busy());
}

#[test]
fn a_refused_save_shows_the_error() {
    let mut app = loaded_app();
    app.form.name = "db".to_string();
    app.form.local_port = "1".to_string();
    app.form.remote_port = "2".to_string();
    let sub = app.save_form().unwrap();
    app.finish_save(&sub, Err("Rule 'db' already exists".to_string()), true);
    assert_eq!(app.message.as_ref().unwrap().text, "Rule 'db' already exists");
    assert_eq!(app.rules.len(), 2);
    assert!(!app.is_busy());
}

#[test]
fn deleting_the_selected_rule_clears_the_form() {
    let mut app = loaded_app();
    app.load_into_form(&"api".to_string(), &rule(81, 81, "prod", false, None));
    app.delete_rule(&"api".to_string(), Ok(()), true);
    assert_eq!(app.rules.len(), 1);
    assert_eq!(app.selected, None);
    assert_eq!(app.form.name, "");
    app.delete_rule(&"web".to_string(), Err("Rule 'web' is running. Stop it before deleting".to_string()), true);
    assert_eq!(app.rules.len(), 1);
    assert!(app.message.as_ref().unwrap().error);
}

#[test]
fn rows_are_upserted_and_sorted() {
    let mut app = loaded_app();
    app.upsert_rule_in_view("aaa".to_string(), rule(1, 1, "h", false, None));
    app.upsert_rule_in_view("web".to_string(), rule(2, 2, "h", false, None));
    let shown: Vec<&str> = app.rules.iter().map(|r| r.0.as_str()).collect();
    assert_eq!(shown, vec!["aaa", "api", "web"]);
    assert_eq!(app.rules[2].1.local_port, 2);
    app.remove_rule_from_view(&"aaa".to_string());
    assert_eq!(app.rules.len(), 2);
    app.clear_form();
    assert_eq!(app.form.remote_host, "prod");
}

#[test]
fn worker_commands_and_events() {
    assert!(start_command(&Vec::new(), "x".to_string()).is_none());
    match start_command(&names(&["a"]), "Started a".to_string()) {
        Some(WorkerCommand::Start(n, s)) => {
            assert_eq!(n, names(&["a"]));
            assert_eq!(s, "Started a");
        },
        _ => panic!("expected a start"),
    }
    assert!(matches!(stop_command(&names(&["a", "b"]), "s".to_string()), Some(WorkerCommand::Stop(_, _))));
    let e = refresh_event(Err("boom".to_string()), None);
    assert!(e.dashboard.is_none());
    assert!(e.completed_rules.is_empty());
    assert!(e.message.as_ref().unwrap().error);
    let e = refresh_event(Ok(dashboard()), Some("Refreshed".to_string()));
    assert!(!e.message.as_ref().unwrap().error);
    let e = action_event(names(&["a"]), "s".to_string(), Err("bad".to_string()), Some(dashboard()));
    assert_eq!(e.completed_rules, names(&["a"]));
    assert!(e.dashboard.is_some());
    let info = WorkerEvent {
        dashboard: None,
        message: Some(UiMessage { text: "ok".to_string(), error: false }),
        completed_rules: Vec::new(),
    };
    let mut app = loaded_app();
    app.set_error("old".to_string());
    app.process_worker_events(vec![info]);
    assert!(app.message.is_none());
}

#[test]
fn rows_show_their_state_and_button() {
    let mut app = loaded_app();
    let api = "api".to_string();
    let web = "web".to_string();
    assert_eq!(app.row_status(&api, false), RowStatus::Stopped);
    assert_eq!(app.row_status(&web, true), RowStatus::Running);
    app.request_start(&names(&["api"]), true);
    app.request_stop(&names(&["web"]), true);
    let starting = app.row_status(&api, false);
    let stopping = app.row_status(&web, true);
    assert_eq!(starting, RowStatus::Starting);
    assert_eq!(stopping, RowStatus::Stopping);
    assert_eq!(starting.label(), "Starting...");
    assert_eq!(starting.button_label(), "Starting...");
    assert!(!starting.button_enabled());
    assert_eq!(stopping.label(), "Stopping...");
    assert!(!stopping.button_enabled());
    assert_eq!(RowStatus::Running.label(), "Running");
    assert_eq!(RowStatus::Running.button_label(), "Stop");
    assert!(RowStatus::Running.button_enabled());
    assert_eq!(RowStatus::Stopped.label(), "Stopped");
    assert_eq!(RowStatus::Stopped.button_label(), "Start");
    assert!(RowStatus::Stopped.button_enabled());
}

#[test]
fn a_row_click_stops_a_running_rule_and_starts_another() {
    match row_toggle(&"web".to_string(), true) {
        WorkerCommand::Stop(n, s) => {
            assert_eq!(n, names(&["web"]));
            assert_eq!(s, "Rule 'web' stopped");
        },
        _ => panic!("expected a stop"),
    }
    match row_toggle(&"api".to_string(), false) {
        WorkerCommand::Start(n, s) => {
            assert_eq!(n, names(&["api"]));
            assert_eq!(s, "Rule 'api' started");
        },
        _ => panic!("expected a start"),
    }
}

#[test]
fn the_form_title_follows_the_selection() {
    let mut app = loaded_app();
    assert_eq!(app.form_heading(), "Create Rule");
    assert_eq!(app.save_label(), "Create Rule");
    app.load_into_form(&"api".to_string(), &rule(81, 81, "prod", false, None));
    assert_eq!(app.form_heading(), "Edit Rule");
    assert_eq!(app.save_label(), "Update Rule");
}

#[test]
fn pid_cells() {
    assert_eq!(pid_cell(Some(4242)), "4242");
    assert_eq!(pid_cell(None), "-");
}

#[test]
fn one_event_per_job_names_its_rules() {
    let e = event_for(WorkerCommand::Refresh(Some("Rules refreshed".to_string())), Ok(dashboard()), None);
    assert!(e.completed_rules.is_empty());
    assert_eq!(e.message.as_ref().unwrap().text, "Rules refreshed");
    let e = event_for(WorkerCommand::Refresh(None), Err("bad file".to_string()), None);
    assert!(e.dashboard.is_none());
    assert!(e.message.as_ref().unwrap().error);
    let e = event_for(WorkerCommand::Start(names(&["a"]), "Started".to_string()), Err("nope".to_string()), Some(dashboard()));
    assert_eq!(e.completed_rules, names(&["a"]));
    assert!(e.dashboard.is_some());
    assert_eq!(e.message.as_ref().unwrap().text, "nope");
    let e = event_for(WorkerCommand::Stop(names(&["b"]), "Stopped b".to_string()), Ok(dashboard()), None);
    assert_eq!(e.completed_rules, names(&["b"]));
    assert!(!e.message.as_ref().unwrap().error);
}
