use rsp::cmd::add::{add_rule, AddError};
use rsp::cmd::check::{
    check_rules, restart_plan, check_running, not_found_message, not_running_message, pick, restart_prompt,
    running_message,
};
use rsp::cmd::common::{PortForwardRule, RuleSelection, RuleTable};
use rsp::cmd::edit::{edit_rule, edit_target, EditOutcome, EditTarget};
use rsp::cmd::list::list_rules;
use rsp::cmd::remove::{confirm_prompt, remove_all, remove_names, remove_rules, removal_plan};
use rsp::cmd::start::{start_confirm_prompt, start_forward};
use rsp::cmd::stop::{stop_confirm_prompt, stop_forward, stopped_message};
use rsp::services::make_rule;
use rsp::utils::{confirmed_names, selected_names};

fn rule(local: u16, remote: u16, host: &str, status: bool, pid: Option<u32>) -> PortForwardRule {
    make_rule(local, remote, host.to_string(), status, pid)
}

fn table(rows: Vec<(&str, PortForwardRule)>) -> RuleTable {
    let mut t = RuleTable::new();
    for (name, r) in rows {
        t.insert(name.to_string(), r);
    }
    t
}

fn names(v: &[&str]) -> Vec<String> {
    v.iter().map(|s| s.to_string()).collect()
}

#[test]
fn add_stores_only_new_names() {
    let mut t = RuleTable::new();
    assert!(add_rule(&mut t, "mysql-prod".to_string(), rule(3306, 3306, "prod-server", false, None)).is_ok());
    let r = add_rule(&mut t, "mysql-prod".to_string(), rule(1, 1, "x", false, None));
    assert!(matches!(r, Err(AddError::AlreadyExists)));
    assert_eq!(AddError::AlreadyExists.message(), "Rule already exists, please choose a different name.");
    assert_eq!(t.get(&"mysql-prod".to_string()).unwrap().remote_host, "prod-server");
}

#[test]
fn pick_by_count() {
    assert_eq!(pick(1, "this", "these"), "this");
    assert_eq!(pick(0, "this", "these"), "these");
    assert_eq!(pick(2, "this", "these"), "these");
}

#[test]
fn check_sorts_rules_by_state() {
    let t = table(vec![
        ("up", rule(1, 1, "h", true, Some(3))),
        ("dead", rule(2, 2, "h", true, Some(4))),
        ("idle", rule(3, 3, "h", false, None)),
        ("odd", rule(4, 4, "h", false, None)),
    ]);
    let asked = names(&["up", "dead", "idle", "odd", "ghost"]);
    let report = check_running(&asked, &t, &vec![true, false, false, true, false]);
    assert_eq!(report.running, names(&["up"]));
    assert_eq!(report.stopped, names(&["dead"]));
    assert_eq!(report.not_started, names(&["idle"]));
}

#[test]
fn check_messages() {
    assert_eq!(
        not_running_message(&names(&["a"])),
        "This rule is not running: a, you can start it by 'rsp start a'."
    );
    assert_eq!(
        not_running_message(&names(&["a", "b"])),
        "These rules are not running: a, b, you can start them by 'rsp start a b'."
    );
    assert_eq!(
        running_message(&names(&["a", "b"])),
        "These rules are running: a, b, you can stop them by 'rsp stop a b'."
    );
    assert_eq!(
        running_message(&names(&["a"])),
        "This rule is running: a, you can stop it by 'rsp stop a'."
    );
    assert_eq!(
        restart_prompt(&names(&["a"])),
        "This rule has terminated abnormally: a. Do you want to restart?"
    );
    assert_eq!(
        restart_prompt(&names(&["a", "b"])),
        "These rules have terminated abnormally: a, b. Do you want to restart?"
    );
    assert_eq!(not_found_message(&names(&["x", "y"])), "Rules: x,y is not found.");
}

#[test]
fn subcommand_selections() {
    assert!(matches!(check_rules(Vec::new()), RuleSelection::Select));
    assert!(matches!(check_rules(names(&["all"])), RuleSelection::All));
    assert!(matches!(remove_rules(names(&["all"])), RuleSelection::All));
    assert!(matches!(stop_forward(names(&["all"])), RuleSelection::All));
    assert!(matches!(start_forward(Vec::new()), RuleSelection::Select));
    assert!(matches!(start_forward(names(&["all"])), RuleSelection::All));
    match start_forward(names(&["all", "web"])) {
        RuleSelection::Named(n) => assert_eq!(n, names(&["all", "web"])),
        _ => panic!("expected names"),
    }
    match stop_forward(names(&["a", "b"])) {
        RuleSelection::Named(n) => assert_eq!(n, names(&["a", "b"])),
        _ => panic!("expected names"),
    }
}

#[test]
fn edit_finds_its_target() {
    let t = table(vec![("on", rule(1, 1, "h", true, Some(2))), ("off", rule(3, 4, "g", false, None))]);
    assert!(matches!(edit_target(&t, &"none".to_string()), EditTarget::NotFound));
    assert!(matches!(edit_target(&t, &"on".to_string()), EditTarget::Running));
    match edit_target(&t, &"off".to_string()) {
        EditTarget::Editable(r) => assert!(r.same_as(&rule(3, 4, "g", false, None))),
        _ => panic!("expected an editable rule"),
    }
}

#[test]
fn edit_outcomes_and_messages() {
    let mut t = table(vec![("a", rule(1, 1, "h", false, None)), ("b", rule(2, 2, "h", false, None))]);
    let taken = edit_rule(&mut t, &"a".to_string(), "b".to_string(), rule(5, 5, "h", false, None));
    assert!(matches!(&taken, EditOutcome::NameTaken(n) if n == "b"));
    assert_eq!(taken.message(), "A rule with the name 'b' already exists. Please choose a different name.");
    let same = edit_rule(&mut t, &"a".to_string(), "a".to_string(), rule(1, 1, "h", false, None));
    assert_eq!(same.message(), "No changes were made to the rule 'a'.");
    let updated = edit_rule(&mut t, &"a".to_string(), "a".to_string(), rule(7, 1, "h", false, None));
    assert_eq!(updated.message(), "Rule 'a' has been updated.");
    assert_eq!(t.get(&"a".to_string()).unwrap().local_port, 7);
    let renamed = edit_rule(&mut t, &"a".to_string(), "c".to_string(), rule(7, 1, "h", false, None));
    assert_eq!(renamed.message(), "Rule 'a' has been updated to 'c'.");
    assert!(!t.contains_key(&"a".to_string()));
    assert_eq!(t.len(), 2);
}

#[test]
fn list_rows_show_every_rule() {
    assert!(list_rules(&RuleTable::new()).is_none());
    let t = table(vec![
        ("mysql-prod", rule(3306, 3306, "prod-server", true, Some(4242))),
        ("redis", rule(6379, 6380, "cache", false, None)),
    ]);
    let rows = list_rules(&t).unwrap();
    assert_eq!(rows.len(), 3);
    assert_eq!(rows[0], names(&["RuleName", "LocalPort", "RemotePort", "RemoteHost", "Status", "PID"]));
    assert_eq!(rows[1], names(&["mysql-prod", "3306", "3306", "prod-server", "Running", "4242"]));
    assert_eq!(rows[2], names(&["redis", "6379", "6380", "cache", "Stopped", ""]));
}

#[test]
fn removal_keeps_running_rules() {
    let t = table(vec![("on", rule(1, 1, "h", true, Some(2))), ("off", rule(3, 3, "h", false, None))]);
    let plan = removal_plan(&names(&["off", "on", "gone"]), &t);
    assert_eq!(plan.to_remove, names(&["off"]));
    assert_eq!(plan.running, names(&["on"]));
    assert_eq!(plan.missing, names(&["gone"]));
    let all = remove_all(&t);
    assert_eq!(all.to_remove, names(&["off"]));
    assert_eq!(all.running, names(&["on"]));
    assert!(all.missing.is_empty());
    let mut t2 = table(vec![("on", rule(1, 1, "h", true, Some(2))), ("off", rule(3, 3, "h", false, None))]);
    remove_names(&mut t2, &names(&["off", "gone"]));
    assert_eq!(t2.names_vec(), names(&["on"]));
}

#[test]
fn confirmation_prompts() {
    assert_eq!(
        confirm_prompt(&names(&["a"]), false),
        "Are you sure you want to remove this rule: a? This action cannot be undone"
    );
    assert_eq!(
        confirm_prompt(&names(&["a", "b"]), true),
        "Are you sure you want to remove these rules: a, b ? This action cannot be undone"
    );
    assert_eq!(
        start_confirm_prompt(&names(&["a", "b"])),
        "Are you sure you want to start these rules: a, b? Running rules will not be affected"
    );
    assert_eq!(stop_confirm_prompt(&names(&["a"])), "Are you sure you want to stop this rule: a?");
    assert_eq!(stopped_message(1), "Rule rule stopped.");
    assert_eq!(stopped_message(3), "Rules rules stopped.");
}

#[test]
fn selections_name_the_rules_acted_on() {
    let t = table(vec![("web", rule(1, 1, "h", false, None)), ("db", rule(2, 2, "h", true, Some(3)))]);
    assert_eq!(selected_names(&RuleSelection::All, &t, &Vec::new()), names(&["web", "db"]));
    let given = RuleSelection::Named(names(&["db", "ghost", "web"]));
    assert_eq!(selected_names(&given, &t, &Vec::new()), names(&["db", "web"]));
    assert_eq!(selected_names(&RuleSelection::Select, &t, &names(&["db"])), names(&["db"]));
    assert_eq!(selected_names(&start_forward(names(&["all"])), &t, &Vec::new()), names(&["web", "db"]));
}

#[test]
fn answers_decide_what_is_done() {
    let v = names(&["a", "b"]);
    assert_eq!(confirmed_names(&v, true), v);
    assert!(confirmed_names(&v, false).is_empty());
    let (start, stop) = restart_plan(&v, true);
    assert_eq!(start, v);
    assert!(stop.is_empty());
    let (start, stop) = restart_plan(&v, false);
    assert!(start.is_empty());
    assert_eq!(stop, v);
}
