use rsp::cli::{Cli, Commands, Rulename, Rulenames};
use rsp::cmd::common::{PortForwardRule, RuleTable};
use rsp::interaction::{
    get_rules_names, new_rule_from_form, select_rule, select_rules, updated_rule_from_form,
    validate_new_name, validate_renamed, NameError,
};
use rsp::services::make_rule;
use rsp::ssh::{get_pid as lsof_table_pid, portforward, ForwardError, LsofPidError};
use rsp::text::ParseFailure;
use rsp::utils::{
    check_exist, get_listening_pids, get_pid, get_rule_process_pids, legacy_forward_arg,
    loopback_forward_arg, next_lookup, process_is_ssh, process_matches_rule, resolve_rule_pid,
    LookupStep,
};

fn rule(local: u16, remote: u16, host: &str) -> PortForwardRule {
    make_rule(local, remote, host.to_string(), false, None)
}

fn table(rows: Vec<(&str, PortForwardRule)>) -> RuleTable {
    let mut t = RuleTable::new();
    for (name, r) in rows {
        t.insert(name.to_string(), r);
    }
    t
}

fn names(v: &[&str]) -> Vec<String> {
    v.iter().map(|s| s.to_string()).collect()
}

#[test]
fn check_exist_splits_known_names() {
    let t = table(vec![("a", rule(1, 1, "h")), ("b", rule(2, 2, "h"))]);
    let (found, missing) = check_exist(&names(&["b", "x", "a", "y"]), &t);
    assert_eq!(found, names(&["b", "a"]));
    assert_eq!(missing, names(&["x", "y"]));
}

#[test]
fn listening_pids_from_lsof() {
    assert_eq!(get_listening_pids("123\n 456 \nabc\n\n789"), vec![123, 456, 789]);
    assert!(get_listening_pids("").is_empty());
    assert_eq!(get_pid(Ok(vec![7, 8])), Ok(7));
    assert_eq!(get_pid(Ok(Vec::new())), Err("Failed to get portforward process PID".to_string()));
    assert_eq!(get_pid(Err("Failed to execute lsof command".to_string())), Err("Failed to execute lsof command".to_string()));
}

#[test]
fn forward_arguments() {
    assert_eq!(loopback_forward_arg(3306, 3307), "127.0.0.1:3306:localhost:3307");
    assert_eq!(legacy_forward_arg(8080, 80), "8080:localhost:80");
}

#[test]
fn matching_ssh_command_lines() {
    let cmd = "ssh -f -N -C -L 127.0.0.1:3306:localhost:3306 prod-server\n";
    assert!(process_matches_rule(cmd, 3306, 3306, "prod-server"));
    assert!(process_matches_rule("ssh -N -L 3306:localhost:3306 prod-server", 3306, 3306, "prod-server"));
    assert!(!process_matches_rule(cmd, 3306, 3307, "prod-server"));
    assert!(!process_matches_rule(cmd, 3306, 3306, "dev"));
    assert!(!process_matches_rule("ssh prod-server 127.0.0.1:3306:localhost:3306", 3306, 3306, "prod-server"));
    assert!(process_is_ssh("/usr/bin/ssh -N host"));
    assert!(!process_is_ssh("nginx: master process"));
}

#[test]
fn rule_process_pids_from_ps() {
    let ps = "\
  101 /usr/bin/ssh -f -N -C -L 127.0.0.1:3306:localhost:3306 prod
  102 ssh -L 3306:localhost:3306 prod
  103 ssh -L 127.0.0.1:3307:localhost:3306 prod
  104 vim notes
  abc ssh -L 127.0.0.1:3306:localhost:3306 prod

";
    assert_eq!(get_rule_process_pids(ps, 3306, 3306, "prod"), vec![101, 102]);
    assert!(get_rule_process_pids(ps, 3306, 3306, "dev").is_empty());
}

#[test]
fn resolving_which_process_holds_a_rule() {
    assert_eq!(resolve_rule_pid(Some((5, true)), &vec![6], &vec![(7, true)]), Some(5));
    assert_eq!(resolve_rule_pid(Some((5, false)), &vec![6, 8], &vec![(7, true)]), Some(6));
    assert_eq!(resolve_rule_pid(None, &Vec::new(), &vec![(7, false), (9, true)]), Some(9));
    assert_eq!(resolve_rule_pid(None, &Vec::new(), &vec![(7, false)]), None);
    assert_eq!(resolve_rule_pid(Some((5, false)), &Vec::new(), &Vec::new()), None);
}

#[test]
fn lsof_table_second_column() {
    let out = "COMMAND PID USER FD TYPE\nssh 4242 me 5u IPv4\n";
    assert!(matches!(lsof_table_pid(out), Ok(4242)));
    assert!(matches!(lsof_table_pid("COMMAND PID\n"), Err(LsofPidError::Missing)));
    assert!(matches!(lsof_table_pid("COMMAND PID\nssh\n"), Err(LsofPidError::Missing)));
    let bad = lsof_table_pid("COMMAND PID\nssh x\n");
    assert!(matches!(bad, Err(LsofPidError::Unparsable(ParseFailure::InvalidDigit))));
    assert_eq!(bad.err().unwrap().message(), "invalid digit found in string");
    let big = lsof_table_pid("COMMAND PID\nssh 99999999999\n").err().unwrap();
    assert_eq!(big.message(), "number too large to fit in target type");
    assert_eq!(lsof_table_pid("COMMAND PID\n").err().unwrap().message(), "Failed to get portforward process PID");
}

#[test]
fn portforward_records_the_process() {
    let table_out = "COMMAND PID USER\nssh 77 me\n";
    let mut t = table(vec![("a", rule(1, 1, "h"))]);
    assert!(matches!(portforward(&mut t, &"a".to_string(), Ok((true, String::new())), table_out), Ok(77)));
    let a = t.get(&"a".to_string()).unwrap();
    assert!(a.status);
    assert_eq!(a.pid, Some(77));
    assert!(matches!(portforward(&mut t, &"zz".to_string(), Ok((true, String::new())), table_out), Ok(77)));
    assert_eq!(t.len(), 1);
}

#[test]
fn portforward_failures_leave_the_table() {
    let mut t = table(vec![("a", rule(1, 1, "h"))]);
    let e = portforward(&mut t, &"a".to_string(), Err(()), "").err().unwrap();
    assert_eq!(e.message(), "Failed to execute SSH command");
    let e = portforward(&mut t, &"a".to_string(), Ok((false, "bind: Address already in use\n".to_string())), "").err().unwrap();
    assert!(matches!(e, ForwardError::Exited(_)));
    assert_eq!(e.message(), "SSH portforward process exited abnormally: bind: Address already in use\n");
    let e = portforward(&mut t, &"a".to_string(), Ok((true, String::new())), "COMMAND PID\n").err().unwrap();
    assert_eq!(e.message(), "Failed to get portforward process PID");
    assert!(!t.get(&"a".to_string()).unwrap().status);
}

#[test]
fn lookups_come_in_order_and_stop_early() {
    assert!(matches!(next_lookup(Some(5), None, &None, &None, &Vec::new()), LookupStep::MatchSaved(5)));
    assert!(matches!(next_lookup(Some(5), Some(true), &None, &None, &Vec::new()), LookupStep::Found(Some(5))));
    assert!(matches!(next_lookup(Some(5), Some(false), &None, &None, &Vec::new()), LookupStep::ListRuleProcesses));
    assert!(matches!(next_lookup(None, None, &Some(vec![8, 9]), &None, &Vec::new()), LookupStep::Found(Some(8))));
    assert!(matches!(next_lookup(None, None, &Some(Vec::new()), &None, &Vec::new()), LookupStep::ListListeners));
    let l = Some(vec![3, 4]);
    assert!(matches!(next_lookup(None, None, &Some(Vec::new()), &l, &Vec::new()), LookupStep::MatchListener(3)));
    assert!(matches!(next_lookup(None, None, &Some(Vec::new()), &l, &vec![false]), LookupStep::MatchListener(4)));
    assert!(matches!(next_lookup(None, None, &Some(Vec::new()), &l, &vec![false, true]), LookupStep::Found(Some(4))));
    assert!(matches!(next_lookup(None, None, &Some(Vec::new()), &l, &vec![true]), LookupStep::Found(Some(3))));
    assert!(matches!(next_lookup(None, None, &Some(Vec::new()), &l, &vec![false, false]), LookupStep::Found(None)));
}

#[test]
fn typed_names_are_checked() {
    let t = table(vec![("web", rule(1, 1, "h"))]);
    match validate_new_name(&t, &"web".to_string()) {
        Err(e) => assert_eq!(e.message(), "Name: 'web' already exists"),
        Ok(()) => panic!("expected a refusal"),
    }
    match validate_new_name(&t, &"all".to_string()) {
        Err(e) => {
            assert!(matches!(e, NameError::Keyword));
            assert_eq!(e.message(), "'all' is keyword , please input another name.");
        },
        Ok(()) => panic!("expected a refusal"),
    }
    assert!(validate_new_name(&t, &"db".to_string()).is_ok());
    assert!(validate_renamed(&t, &"web".to_string(), &"web".to_string()).is_ok());
    assert!(matches!(
        validate_renamed(&t, &"web".to_string(), &"db".to_string()),
        Err(NameError::Taken(_))
    ));
    assert!(validate_renamed(&t, &"new".to_string(), &"web".to_string()).is_ok());
}

#[test]
fn form_rules() {
    let r = new_rule_from_form(1, 2, "h".to_string());
    assert!(r.same_as(&rule(1, 2, "h")));
    let running = make_rule(1, 2, "h".to_string(), true, Some(3));
    let u = updated_rule_from_form(&running, 4, 5, "g".to_string());
    assert!(u.same_as(&make_rule(4, 5, "g".to_string(), true, Some(3))));
}

#[test]
fn picking_rules_from_lists() {
    let list = names(&["a", "b", "Cancel"]);
    assert_eq!(select_rule(&list, Some(0)), Some("a".to_string()));
    assert_eq!(select_rule(&list, Some(1)), Some("b".to_string()));
    assert_eq!(select_rule(&list, Some(2)), None);
    assert_eq!(select_rule(&list, None), None);
    assert_eq!(select_rules(&names(&["a", "b", "c"]), &vec![2, 0]), names(&["c", "a"]));
    let t = table(vec![("x", rule(1, 1, "h")), ("y", rule(2, 2, "h"))]);
    assert_eq!(get_rules_names(&t), names(&["x", "y"]));
}

#[test]
fn command_line_choices() {
    assert!(Cli { command: None }.wants_gui());
    assert!(Cli { command: Some(Commands::Gui) }.wants_gui());
    assert!(!Cli { command: Some(Commands::List) }.wants_gui());
    assert!(!Cli { command: Some(Commands::Start(Rulenames { names: Vec::new() })) }.wants_gui());
    assert_eq!(Rulename { names: Some("db".to_string()) }.name_or_default(), "db");
    assert_eq!(Rulename { names: None }.name_or_default(), "");
}
