//! `list`: the table of rules as text cells.
use vstd::prelude::*;

use crate::cmd::common::{RuleTable, RuleView};
use crate::text::{decimal, decimal_string, string_views};

verus! {

/// How a rule's state is shown.
pub open spec fn status_text(status: bool) -> Seq<char> {
    if status {
        "Running"@
    } else {
        "Stopped"@
    }
}

/// How a rule's process id is shown: empty when there is none.
pub open spec fn pid_text(pid: Option<u32>) -> Seq<char> {
    match pid {
        Some(p) => decimal(p as nat),
        None => ""@,
    }
}

/// The cells of one rule's row.
pub open spec fn list_cells(name: Seq<char>, rule: RuleView) -> Seq<Seq<char>> {
    seq![
        name,
        decimal(rule.local_port as nat),
        decimal(rule.remote_port as nat),
        rule.remote_host,
        status_text(rule.status),
        pid_text(rule.pid),
    ]
}

/// The header row.
pub open spec fn list_header() -> Seq<Seq<char>> {
    seq!["RuleName"@, "LocalPort"@, "RemotePort"@, "RemoteHost"@, "Status"@, "PID"@]
}

/// The rows of the `list` table: the header, then one row per rule in table
/// order; `None` when there is no rule ("No rules available.").
pub fn list_rules(rules: &RuleTable) -> (r: Option<Vec<Vec<String>>>)
    requires
        rules.wf(),
    ensures
        r is None <==> rules.entries().len() == 0,
        r matches Some(rows) ==> {
            &&& rows@.len() == rules.entries().len() + 1
            &&& string_views(rows@[0]@) == list_header()
            &&& forall|i: int|
                0 <= i < rules.entries().len() ==> string_views(#[trigger] rows@[i + 1]@)
                    == list_cells(rules.entries()[i].0, rules.entries()[i].1)
        },
{
    let n = rules.len();
    if n == 0 {
        return None;
    }
    let mut rows: Vec<Vec<String>> = Vec::new();
    let header: Vec<String> = vec![
        String::from_str("RuleName"),
        String::from_str("LocalPort"),
        String::from_str("RemotePort"),
        String::from_str("RemoteHost"),
        String::from_str("Status"),
        String::from_str("PID"),
    ];
    assert(string_views(header@) =~= list_header());
    rows.push(header);
    for i in 0..n
        invariant
            n == rules.entries().len(),
            rows@.len() == i + 1,
            string_views(rows@[0]@) == list_header(),
            forall|k: int|
                0 <= k < i ==> string_views(#[trigger] rows@[k + 1]@) == list_cells(
                    rules.entries()[k].0,
                    rules.entries()[k].1,
                ),
    {
        let row = rules.entry(i);
        let rule = &row.1;
        let status = if rule.status {
            String::from_str("Running")
        } else {
            String::from_str("Stopped")
        };
        let pid = match rule.pid {
            Some(p) => decimal_string(p),
            None => String::from_str(""),
        };
        let cells: Vec<String> = vec![
            row.0.clone(),
            decimal_string(rule.local_port as u32),
            decimal_string(rule.remote_port as u32),
            rule.remote_host.clone(),
            status,
            pid,
        ];
        assert(string_views(cells@) =~= list_cells(rules.entries()[i as int].0, rules.entries()[i as int].1));
        rows.push(cells);
    }
    Some(rows)
}

} // verus!
