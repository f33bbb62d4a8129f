use rsp::cmd::common::{selection, PortForwardRule, RuleSelection, RuleTable};
use rsp::services::{
    add_rule, all_rule_names, check_host_forward_conflict, ssh_config_hosts, is_missing_process_error, last_segment_of,
    load_dashboard, make_rule, refresh_status, remove_rule, ssh_hosts, update_rule,
    validate_rule, RuleError,
};

fn rule(local: u16, remote: u16, host: &str) -> PortForwardRule {
    make_rule(local, remote, host.to_string(), false, None)
}

fn running_rule(local: u16, remote: u16, host: &str, pid: u32) -> PortForwardRule {
    make_rule(local, remote, host.to_string(), true, Some(pid))
}

fn table(rows: Vec<(&str, PortForwardRule)>) -> RuleTable {
    let mut t = RuleTable::new();
    for (name, r) in rows {
        t.insert(name.to_string(), r);
    }
    t
}

fn same(a: &PortForwardRule, b: &PortForwardRule) -> bool {
    a.same_as(b)
}

#[test]
fn make_rule_keeps_every_field() {
    let r = make_rule(3306, 3307, "prod".to_string(), true, Some(42));
    assert_eq!(r.local_port, 3306);
    assert_eq!(r.remote_port, 3307);
    assert_eq!(r.remote_host, "prod");
    assert!(r.status);
    assert_eq!(r.pid, Some(42));
    assert!(r.same_as(&r.duplicate()));
    assert!(!r.same_as(&rule(3306, 3307, "prod")));
}

#[test]
fn table_insert_get_remove() {
    let mut t = table(vec![("b", rule(1, 2, "h")), ("a", rule(3, 4, "h"))]);
    assert_eq!(t.len(), 2);
    assert!(!t.is_empty());
    assert!(t.contains_key(&"a".to_string()));
    assert_eq!(t.find(&"a".to_string()), Some(1));
    assert_eq!(t.names_vec(), vec!["b".to_string(), "a".to_string()]);
    t.insert("b".to_string(), rule(5, 6, "g"));
    assert_eq!(t.len(), 2);
    assert_eq!(t.get(&"b".to_string()).unwrap().local_port, 5);
    t.set_state(&"a".to_string(), true, Some(9));
    assert_eq!(t.get(&"a".to_string()).unwrap().pid, Some(9));
    let gone = t.remove(&"b".to_string()).unwrap();
    assert_eq!(gone.remote_host, "g");
    assert!(t.remove(&"b".to_string()).is_none());
    assert!(t.get(&"b".to_string()).is_none());
    assert_eq!(t.to_vec().len(), 1);
    assert!(RuleTable::new().is_empty());
}

#[test]
fn selection_reads_the_names() {
    assert!(matches!(selection(Vec::new()), RuleSelection::Select));
    assert!(matches!(selection(vec!["all".to_string()]), RuleSelection::All));
    match selection(vec!["all".to_string(), "x".to_string()]) {
        RuleSelection::Named(n) => assert_eq!(n, vec!["all".to_string(), "x".to_string()]),
        _ => panic!("expected names"),
    }
}

#[test]
fn validation_errors_in_order() {
    let t = table(vec![("web", rule(80, 80, "h"))]);
    let r = rule(1, 1, "host");
    assert!(matches!(validate_rule(&t, &"  ".to_string(), &r, None), Err(RuleError::EmptyName)));
    match validate_rule(&t, &"web".to_string(), &r, None) {
        Err(RuleError::AlreadyExists(n)) => assert_eq!(n, "web"),
        _ => panic!("expected a duplicate"),
    }
    assert!(validate_rule(&t, &"web".to_string(), &r, Some(&"web".to_string())).is_ok());
    assert!(matches!(
        validate_rule(&t, &"db".to_string(), &rule(1, 1, " \t"), None),
        Err(RuleError::EmptyHost)
    ));
    assert!(validate_rule(&t, &"db".to_string(), &r, None).is_ok());
}

#[test]
fn rule_error_messages() {
    assert_eq!(RuleError::NotFound("x".to_string()).message(), "Rule 'x' not found");
    assert_eq!(
        RuleError::RunningEdit("x".to_string()).message(),
        "Rule 'x' is running. Stop it before editing"
    );
    assert_eq!(
        RuleError::RunningDelete("x".to_string()).message(),
        "Rule 'x' is running. Stop it before deleting"
    );
    assert_eq!(RuleError::EmptyName.message(), "Rule name cannot be empty");
    assert_eq!(RuleError::AlreadyExists("x".to_string()).message(), "Rule 'x' already exists");
    assert_eq!(RuleError::EmptyHost.message(), "Remote host cannot be empty");
}

#[test]
fn add_then_remove_gives_back_the_table() {
    let mut t = table(vec![("web", rule(80, 8080, "h"))]);
    assert!(add_rule(&mut t, "db".to_string(), rule(5432, 5432, "prod")).is_ok());
    assert_eq!(t.len(), 2);
    assert!(same(t.get(&"db".to_string()).unwrap(), &rule(5432, 5432, "prod")));
    assert!(remove_rule(&mut t, &"db".to_string()).is_ok());
    assert_eq!(t.names_vec(), vec!["web".to_string()]);
    assert!(same(t.get(&"web".to_string()).unwrap(), &rule(80, 8080, "h")));
}

#[test]
fn adding_a_name_twice_is_refused() {
    let mut t = RuleTable::new();
    assert!(add_rule(&mut t, "db".to_string(), rule(1, 2, "a")).is_ok());
    match add_rule(&mut t, "db".to_string(), rule(3, 4, "b")) {
        Err(RuleError::AlreadyExists(n)) => assert_eq!(n, "db"),
        _ => panic!("expected a duplicate"),
    }
    assert_eq!(t.get(&"db".to_string()).unwrap().local_port, 1);
    assert!(matches!(add_rule(&mut t, "".to_string(), rule(1, 2, "a")), Err(RuleError::EmptyName)));
    assert_eq!(t.len(), 1);
}

#[test]
fn update_renames_stopped_rules_only() {
    let mut t = table(vec![("a", rule(1, 1, "h")), ("b", running_rule(2, 2, "h", 7))]);
    assert!(matches!(
        update_rule(&mut t, &"zz".to_string(), "zz".to_string(), rule(1, 1, "h")),
        Err(RuleError::NotFound(_))
    ));
    assert!(matches!(
        update_rule(&mut t, &"b".to_string(), "b".to_string(), rule(2, 2, "h")),
        Err(RuleError::RunningEdit(_))
    ));
    assert!(matches!(
        update_rule(&mut t, &"a".to_string(), "b".to_string(), rule(1, 1, "h")),
        Err(RuleError::AlreadyExists(_))
    ));
    assert!(update_rule(&mut t, &"a".to_string(), "c".to_string(), rule(9, 9, "g")).is_ok());
    assert!(!t.contains_key(&"a".to_string()));
    assert_eq!(t.get(&"c".to_string()).unwrap().local_port, 9);
    assert_eq!(t.get(&"b".to_string()).unwrap().pid, Some(7));
    assert!(update_rule(&mut t, &"c".to_string(), "c".to_string(), rule(10, 9, "g")).is_ok());
    assert_eq!(t.get(&"c".to_string()).unwrap().local_port, 10);
}

#[test]
fn remove_refuses_running_and_unknown_rules() {
    let mut t = table(vec![("b", running_rule(2, 2, "h", 7))]);
    match remove_rule(&mut t, &"b".to_string()) {
        Err(RuleError::RunningDelete(n)) => assert_eq!(n, "b"),
        _ => panic!("expected a refusal"),
    }
    match remove_rule(&mut t, &"q".to_string()) {
        Err(RuleError::NotFound(n)) => assert_eq!(n, "q"),
        _ => panic!("expected a refusal"),
    }
    assert_eq!(t.len(), 1);
}

#[test]
fn hosts_are_sorted_once_each() {
    let hosts = vec!["prod".to_string(), "dev".to_string(), "prod".to_string(), "alpha".to_string()];
    assert_eq!(
        ssh_hosts(&hosts),
        vec!["alpha".to_string(), "dev".to_string(), "prod".to_string()]
    );
    assert!(ssh_hosts(&Vec::new()).is_empty());
}

#[test]
fn refresh_follows_what_runs_and_sorts() {
    let mut t = table(vec![
        ("web", running_rule(80, 80, "h", 11)),
        ("api", rule(81, 81, "h")),
        ("db", running_rule(82, 82, "h", 12)),
    ]);
    let (rows, changed) = refresh_status(&mut t, &vec![None, Some(20), Some(12)]);
    assert!(changed);
    let names: Vec<&str> = rows.iter().map(|r| r.0.as_str()).collect();
    assert_eq!(names, vec!["api", "db", "web"]);
    assert!(same(&rows[0].1, &running_rule(81, 81, "h", 20)));
    assert!(same(&rows[1].1, &running_rule(82, 82, "h", 12)));
    assert!(same(&rows[2].1, &rule(80, 80, "h")));
    assert!(!t.get(&"web".to_string()).unwrap().status);
    assert_eq!(t.names_vec(), vec!["web".to_string(), "api".to_string(), "db".to_string()]);
}

#[test]
fn refreshing_twice_changes_nothing_more() {
    let mut t = table(vec![("web", running_rule(80, 80, "h", 11)), ("api", rule(81, 81, "h"))]);
    let found = vec![Some(5), None];
    let (_, first) = refresh_status(&mut t, &found);
    assert!(first);
    let (rows, second) = refresh_status(&mut t, &found);
    assert!(!second);
    assert_eq!(rows[1].1.pid, Some(5));
    let (_, none) = refresh_status(&mut RuleTable::new(), &Vec::new());
    assert!(!none);
}

#[test]
fn dashboard_pairs_rows_and_hosts() {
    let mut t = table(vec![("b", rule(1, 1, "h")), ("a", rule(2, 2, "h"))]);
    let hosts = vec!["y".to_string(), "x".to_string(), "y".to_string()];
    let ((rows, hs), changed) = load_dashboard(&mut t, &vec![None, None], &hosts);
    assert!(!changed);
    assert_eq!(rows[0].0, "a");
    assert_eq!(hs, vec!["x".to_string(), "y".to_string()]);
}

#[test]
fn missing_process_errors() {
    assert!(is_missing_process_error("kill: 4242: No such process"));
    assert!(is_missing_process_error("NO SUCH PROCESS"));
    assert!(!is_missing_process_error("Operation not permitted"));
}

#[test]
fn last_segment_after_colon() {
    let seg = |s: &str| -> String { last_segment_of(&s.chars().collect()).iter().collect() };
    assert_eq!(seg("127.0.0.1:8080"), "8080");
    assert_eq!(seg("8080"), "8080");
    assert_eq!(seg("a:b:"), "");
    assert_eq!(seg(""), "");
}

#[test]
fn host_forward_conflicts() {
    let config = "\
# comment
Host other
    LocalForward 8080 localhost:9999
Host prod staging
    HostName 10.0.0.1
    LocalForward 127.0.0.1:8080 localhost:3306
";
    let clash = check_host_forward_conflict(config, &rule(8080, 5432, "prod"));
    match clash {
        Err(c) => {
            assert_eq!(c.host, "prod");
            assert_eq!(c.local_port, 8080);
            assert_eq!(c.destination, "localhost:3306");
            assert_eq!(c.remote_port, 5432);
            assert_eq!(
                c.message(),
                "SSH config host 'prod' already defines LocalForward 8080 -> localhost:3306. \
This conflicts with rule 'prod' (8080 -> 5432). Remove or change that LocalForward in ~/.ssh/config."
            );
        },
        Ok(()) => panic!("expected a conflict"),
    }
    assert!(check_host_forward_conflict(config, &rule(8080, 3306, "prod")).is_ok());
    assert!(check_host_forward_conflict(config, &rule(8080, 1, "dev")).is_ok());
    assert!(check_host_forward_conflict(config, &rule(8081, 1, "prod")).is_ok());
    assert!(check_host_forward_conflict("", &rule(8080, 1, "prod")).is_ok());
    assert!(check_host_forward_conflict(
        "host other\nHOST prod\nlocalforward 1 2\nLOCALFORWARD 8080",
        &rule(1, 3, "prod")
    )
    .is_err());
}

#[test]
fn hosts_named_by_the_ssh_configuration() {
    let config = "\
Host *
    ServerAliveInterval 30
Host prod staging !bad web?
  HostName 10.0.0.1
# Host commented
host dev
Hostname ignored
";
    assert_eq!(ssh_config_hosts(config), vec!["prod".to_string(), "staging".to_string(), "dev".to_string()]);
    assert!(ssh_config_hosts("").is_empty());
}

#[test]
fn names_of_the_rows_in_order() {
    let rows = vec![("b".to_string(), rule(1, 1, "h")), ("a".to_string(), rule(2, 2, "h"))];
    assert_eq!(all_rule_names(&rows), vec!["b".to_string(), "a".to_string()]);
    assert!(all_rule_names(&Vec::new()).is_empty());
}
