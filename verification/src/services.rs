//! The operations on the rule table that the graphical interface and the
//! command line share: editing the table, refreshing it from what runs, and
//! the decisions taken while rules are started and stopped.
use vstd::prelude::*;

use crate::cmd::common::{
    PortForwardRule,
    RuleTable,
    RuleView,
    distinct_names,
    entry_views,
    lemma_distinct_names_no_duplicates,
    lemma_map_of_dom,
    lemma_map_of_row,
    map_of,
    names_of,
};
use crate::order::{lemma_rows_sorted_unique, rows_sorted, sort_rows, sorted_unique};
use crate::start_run::{
    StartAction,
    StartRun,
    StartStage,
    StartView,
    same_settings,
    settings_kept,
    start_action,
    start_begin,
};
use crate::stop_run::{RunStage, StopAction, StopRun, StopView, stop_action, stop_begin};
use crate::text::{
    chars_eq,
    chars_of,
    contains,
    decimal,
    decimal_string,
    has_infix,
    has_prefix,
    is_blank,
    lines,
    lines_of,
    lower_chars,
    lower_seq,
    parse_u16,
    parse_unsigned,
    starts_with,
    string_of,
    string_views,
    strictly_sorted,
    sub_chars,
    trim,
    trim_chars,
    views,
    words,
    words_of,
};

verus! {

/// Why an edit of the rule table was refused.
pub enum RuleError {
    /// No rule has this name.
    NotFound(String),
    /// The rule with this name runs and cannot be edited.
    RunningEdit(String),
    /// The rule with this name runs and cannot be deleted.
    RunningDelete(String),
    /// The name is empty once trimmed.
    EmptyName,
    /// Another rule already has this name.
    AlreadyExists(String),
    /// The remote host is empty once trimmed.
    EmptyHost,
}

/// The value of a [`RuleError`].
pub enum RuleErrorView {
    NotFound(Seq<char>),
    RunningEdit(Seq<char>),
    RunningDelete(Seq<char>),
    EmptyName,
    AlreadyExists(Seq<char>),
    EmptyHost,
}

impl View for RuleError {
    type V = RuleErrorView;

    open spec fn view(&self) -> RuleErrorView {
        match self {
            RuleError::NotFound(n) => RuleErrorView::NotFound(n@),
            RuleError::RunningEdit(n) => RuleErrorView::RunningEdit(n@),
            RuleError::RunningDelete(n) => RuleErrorView::RunningDelete(n@),
            RuleError::EmptyName => RuleErrorView::EmptyName,
            RuleError::AlreadyExists(n) => RuleErrorView::AlreadyExists(n@),
            RuleError::EmptyHost => RuleErrorView::EmptyHost,
        }
    }
}

/// The text of a [`RuleError`].
pub open spec fn rule_error_text(e: RuleErrorView) -> Seq<char> {
    match e {
        RuleErrorView::NotFound(n) => "Rule '"@ + n + "' not found"@,
        RuleErrorView::RunningEdit(n) => "Rule '"@ + n + "' is running. Stop it before editing"@,
        RuleErrorView::RunningDelete(n) => "Rule '"@ + n
            + "' is running. Stop it before deleting"@,
        RuleErrorView::EmptyName => "Rule name cannot be empty"@,
        RuleErrorView::AlreadyExists(n) => "Rule '"@ + n + "' already exists"@,
        RuleErrorView::EmptyHost => "Remote host cannot be empty"@,
    }
}

impl RuleError {
    /// The message shown for this error.
    pub fn message(&self) -> (r: String)
        ensures
            r@ == rule_error_text(self@),
    {
        match self {
            RuleError::NotFound(n) => String::from_str("Rule '").concat(n.as_str()).concat(
                "' not found",
            ),
            RuleError::RunningEdit(n) => String::from_str("Rule '").concat(n.as_str()).concat(
                "' is running. Stop it before editing",
            ),
            RuleError::RunningDelete(n) => String::from_str("Rule '").concat(n.as_str()).concat(
                "' is running. Stop it before deleting",
            ),
            RuleError::EmptyName => String::from_str("Rule name cannot be empty"),
            RuleError::AlreadyExists(n) => String::from_str("Rule '").concat(n.as_str()).concat(
                "' already exists",
            ),
            RuleError::EmptyHost => String::from_str("Remote host cannot be empty"),
        }
    }
}

/// The value of a result without payload.
pub open spec fn unit_result(r: Result<(), RuleError>) -> Result<(), RuleErrorView> {
    match r {
        Ok(()) => Ok(()),
        Err(e) => Err(e@),
    }
}

/// A rule built from its parts.
pub fn make_rule(
    local_port: u16,
    remote_port: u16,
    remote_host: String,
    status: bool,
    pid: Option<u32>,
) -> (r: PortForwardRule)
    ensures
        r@ == (RuleView {
            local_port: local_port,
            remote_port: remote_port,
            remote_host: remote_host@,
            status: status,
            pid: pid,
        }),
{
    PortForwardRule { local_port, remote_port, remote_host, status, pid }
}

/// What checking `name` and `host` for a rule of `rules` gives; `current` is the
/// name the rule had before, when it is being renamed.
pub open spec fn validation(
    rules: Map<Seq<char>, RuleView>,
    name: Seq<char>,
    host: Seq<char>,
    current: Option<Seq<char>>,
) -> Result<(), RuleErrorView> {
    if trim(name).len() == 0 {
        Err(RuleErrorView::EmptyName)
    } else if current != Some(name) && rules.dom().contains(name) {
        Err(RuleErrorView::AlreadyExists(name))
    } else if trim(host).len() == 0 {
        Err(RuleErrorView::EmptyHost)
    } else {
        Ok(())
    }
}

/// Checks a rule about to be stored under `name`.
pub fn validate_rule(
    rules: &RuleTable,
    name: &String,
    rule: &PortForwardRule,
    current_name: Option<&String>,
) -> (r: Result<(), RuleError>)
    ensures
        unit_result(r) == validation(
            rules@,
            name@,
            rule.remote_host@,
            match current_name {
                Some(c) => Some(c@),
                None => None,
            },
        ),
{
    if is_blank(name.as_str()) {
        return Err(RuleError::EmptyName);
    }
    let same = match current_name {
        Some(c) => c.eq(name),
        None => false,
    };
    if !same && rules.contains_key(name) {
        return Err(RuleError::AlreadyExists(name.clone()));
    }
    if is_blank(rule.remote_host.as_str()) {
        return Err(RuleError::EmptyHost);
    }
    Ok(())
}

/// Adds a new rule under `name` after [`validation`].
pub fn add_rule(rules: &mut RuleTable, name: String, rule: PortForwardRule) -> (r: Result<
    (),
    RuleError,
>)
    requires
        old(rules).wf(),
    ensures
        final(rules).wf(),
        unit_result(r) == validation(old(rules)@, name@, rule.remote_host@, None),
        r is Ok ==> final(rules)@ == old(rules)@.insert(name@, rule@),
        r is Err ==> final(rules)@ == old(rules)@,
{
    match validate_rule(rules, &name, &rule, None) {
        Err(e) => Err(e),
        Ok(()) => {
            rules.insert(name, rule);
            Ok(())
        },
    }
}

/// What renaming/replacing rule `old_name` by `new_name` with host `host` gives.
pub open spec fn update_outcome(
    rules: Map<Seq<char>, RuleView>,
    old_name: Seq<char>,
    new_name: Seq<char>,
    host: Seq<char>,
) -> Result<(), RuleErrorView> {
    if !rules.dom().contains(old_name) {
        Err(RuleErrorView::NotFound(old_name))
    } else if rules[old_name].status {
        Err(RuleErrorView::RunningEdit(old_name))
    } else {
        validation(rules, new_name, host, Some(old_name))
    }
}

/// Replaces the stopped rule `old_name` by `rule` under `new_name`.
pub fn update_rule(
    rules: &mut RuleTable,
    old_name: &String,
    new_name: String,
    rule: PortForwardRule,
) -> (r: Result<(), RuleError>)
    requires
        old(rules).wf(),
    ensures
        final(rules).wf(),
        unit_result(r) == update_outcome(old(rules)@, old_name@, new_name@, rule.remote_host@),
        r is Ok ==> final(rules)@ == old(rules)@.remove(old_name@).insert(new_name@, rule@),
        r is Err ==> final(rules)@ == old(rules)@,
{
    let current = match rules.get(old_name) {
        Some(c) => c.status,
        None => {
            return Err(RuleError::NotFound(old_name.clone()));
        },
    };
    if current {
        return Err(RuleError::RunningEdit(old_name.clone()));
    }
    match validate_rule(rules, &new_name, &rule, Some(old_name)) {
        Err(e) => Err(e),
        Ok(()) => {
            rules.remove(old_name);
            rules.insert(new_name, rule);
            Ok(())
        },
    }
}

/// What deleting rule `name` gives.
pub open spec fn remove_outcome(rules: Map<Seq<char>, RuleView>, name: Seq<char>) -> Result<
    (),
    RuleErrorView,
> {
    if !rules.dom().contains(name) {
        Err(RuleErrorView::NotFound(name))
    } else if rules[name].status {
        Err(RuleErrorView::RunningDelete(name))
    } else {
        Ok(())
    }
}

/// Deletes the stopped rule `name`.
pub fn remove_rule(rules: &mut RuleTable, name: &String) -> (r: Result<(), RuleError>)
    requires
        old(rules).wf(),
    ensures
        final(rules).wf(),
        unit_result(r) == remove_outcome(old(rules)@, name@),
        r is Ok ==> final(rules)@ == old(rules)@.remove(name@),
        r is Err ==> final(rules)@ == old(rules)@,
{
    let running = match rules.get(name) {
        Some(c) => c.status,
        None => {
            return Err(RuleError::NotFound(name.clone()));
        },
    };
    if running {
        return Err(RuleError::RunningDelete(name.clone()));
    }
    rules.remove(name);
    Ok(())
}

/// Whether a word of a `Host` line is a pattern (`*`, `?`, or a negation)
/// rather than the name of one host.
pub open spec fn is_host_pattern(w: Seq<char>) -> bool {
    w.contains('*') || w.contains('?') || (w.len() > 0 && w[0] == '!')
}

/// The words of `ws` that name a single host, in order.
pub open spec fn concrete_hosts(ws: Seq<Seq<char>>) -> Seq<Seq<char>>
    decreases ws.len(),
{
    if ws.len() == 0 {
        seq![]
    } else if is_host_pattern(ws.last()) {
        concrete_hosts(ws.drop_last())
    } else {
        concrete_hosts(ws.drop_last()).push(ws.last())
    }
}

/// The hosts that the ssh client configuration `lines` names: the words of
/// every `Host` line (keyword in any case) that are not patterns, in order.
pub open spec fn config_hosts(lines: Seq<Seq<char>>) -> Seq<Seq<char>>
    decreases lines.len(),
{
    if lines.len() == 0 {
        seq![]
    } else {
        let rest = config_hosts(lines.drop_last());
        let line = trim(lines.last());
        if has_prefix(lower_seq(line), "host "@) {
            rest + concrete_hosts(words(line.skip("host "@.len() as int)))
        } else {
            rest
        }
    }
}

/// Whether `w` is a host pattern (see [`is_host_pattern`]).
fn host_pattern(w: &Vec<char>) -> (r: bool)
    ensures
        r == is_host_pattern(w@),
{
    if w.len() > 0 && w[0] == '!' {
        return true;
    }
    for i in 0..w.len()
        invariant
            forall|k: int| 0 <= k < i ==> w@[k] != '*' && w@[k] != '?',
    {
        if w[i] == '*' || w[i] == '?' {
            assert(w@[i as int] == w[i as int]);
            return true;
        }
    }
    assert(!w@.contains('*'));
    assert(!w@.contains('?'));
    false
}

/// Reads the host names from the text of an ssh client configuration (see
/// [`config_hosts`]).
pub fn ssh_config_hosts(config: &str) -> (r: Vec<String>)
    ensures
        string_views(r@) == config_hosts(lines(config@)),
{
    let ls = lines_of(&chars_of(config));
    let ghost all = views(ls@);
    let host_key = chars_of("host ");
    let mut out: Vec<String> = Vec::new();
    assert(all.take(0) =~= Seq::<Seq<char>>::empty());
    assert(string_views(out@) =~= Seq::<Seq<char>>::empty());
    for i in 0..ls.len()
        invariant
            all == views(ls@),
            all == lines(config@),
            host_key@ == "host "@,
            string_views(out@) == config_hosts(all.take(i as int)),
    {
        assert(all.take(i + 1).drop_last() =~= all.take(i as int));
        assert(all.take(i + 1).last() == ls@[i as int]@);
        let line = trim_chars(&ls[i]);
        if starts_with(&lower_chars(&line), &host_key) {
            let names = words_of(&sub_chars(&line, host_key.len(), line.len()));
            assert(line@.subrange(host_key@.len() as int, line@.len() as int) =~= line@.skip(
                "host "@.len() as int,
            ));
            let ghost ws = views(names@);
            let ghost base = string_views(out@);
            assert(ws.take(0) =~= Seq::<Seq<char>>::empty());
            assert(base + concrete_hosts(ws.take(0)) =~= base);
            for j in 0..names.len()
                invariant
                    ws == views(names@),
                    string_views(out@) == base + concrete_hosts(ws.take(j as int)),
            {
                assert(ws.take(j + 1).drop_last() =~= ws.take(j as int));
                assert(ws.take(j + 1).last() == names@[j as int]@);
                if !host_pattern(&names[j]) {
                    let h = string_of(&names[j]);
                    let ghost before = out@;
                    out.push(h);
                    assert(string_views(out@) =~= string_views(before).push(h@));
                    assert(string_views(out@) =~= base + concrete_hosts(ws.take(j + 1)));
                }
            }
            assert(ws.take(names.len() as int) =~= ws);
        }
    }
    assert(all.take(ls.len() as int) =~= all);
    out
}

/// The names of the rows, in order.
pub fn all_rule_names(rows: &Vec<(String, PortForwardRule)>) -> (r: Vec<String>)
    ensures
        string_views(r@) == names_of(entry_views(rows@)),
{
    let mut out: Vec<String> = Vec::new();
    for i in 0..rows.len()
        invariant
            string_views(out@) == names_of(entry_views(rows@)).take(i as int),
    {
        let n = rows[i].0.clone();
        let ghost before = out@;
        out.push(n);
        assert(string_views(out@) =~= string_views(before).push(n@));
        assert(names_of(entry_views(rows@)).take(i + 1) =~= names_of(entry_views(rows@)).take(
            i as int,
        ).push(rows@[i as int].0@));
    }
    assert(names_of(entry_views(rows@)).take(rows.len() as int) =~= names_of(entry_views(rows@)));
    out
}

/// The host names offered for new rules: `hosts` sorted, each once.
pub fn ssh_hosts(hosts: &Vec<String>) -> (r: Vec<String>)
    ensures
        strictly_sorted(string_views(r@)),
        string_views(r@).to_set() == string_views(hosts@).to_set(),
{
    sorted_unique(hosts)
}

/// A rule once the process found for it is known: running with that process,
/// or stopped with none.
pub open spec fn refreshed(rule: RuleView, current: Option<u32>) -> RuleView {
    match current {
        Some(pid) => RuleView { status: true, pid: Some(pid), ..rule },
        None => RuleView { status: false, pid: None, ..rule },
    }
}

/// Every row of `e` refreshed with the process found for it, `current` being
/// aligned with the rows.
pub open spec fn refreshed_rows(e: Seq<(Seq<char>, RuleView)>, current: Seq<Option<u32>>) -> Seq<
    (Seq<char>, RuleView),
> {
    Seq::new(e.len(), |i: int| (e[i].0, refreshed(e[i].1, current[i])))
}

/// Brings `rules` in line with `current`, the process found for each row (in
/// row order, `None` where none was found), and returns the rows sorted by name
/// together with whether anything changed.
pub fn refresh_status(rules: &mut RuleTable, current: &Vec<Option<u32>>) -> (r: (
    Vec<(String, PortForwardRule)>,
    bool,
))
    requires
        old(rules).wf(),
        current.len() == old(rules).entries().len(),
    ensures
        final(rules).wf(),
        final(rules).names() == old(rules).names(),
        final(rules)@ == map_of(refreshed_rows(old(rules).entries(), current@)),
        r.1 == (exists|i: int|
            0 <= i < current.len() && #[trigger] refreshed(old(rules).entries()[i].1, current@[i])
                != old(rules).entries()[i].1),
        rows_sorted(entry_views(r.0@)),
        entry_views(r.0@).to_set() == refreshed_rows(old(rules).entries(), current@).to_set(),
{
    let ghost e0 = rules.entries();
    let mut changed = false;
    let n = rules.len();
    for i in 0..n
        invariant
            n == e0.len(),
            current.len() == n,
            rules.wf(),
            rules.names() == names_of(e0),
            rules.entries().len() == n,
            forall|k: int| 0 <= k < i ==> #[trigger] rules.entries()[k] == (e0[k].0, refreshed(e0[k].1, current@[k])),
            forall|k: int| i <= k < n ==> #[trigger] rules.entries()[k] == e0[k],
            changed == (exists|k: int| 0 <= k < i && #[trigger] refreshed(e0[k].1, current@[k]) != e0[k].1),
    {
        let ghost before = rules.entries();
        let row = rules.entry(i);
        let rule = row.1.duplicate();
        proof {
            assert(before[i as int] == e0[i as int]);
        }
        match current[i] {
            Some(pid) => {
                if rule.pid != Some(pid) || !rule.status {
                    changed = true;
                }
            },
            None => {
                if rule.pid.is_some() || rule.status {
                    changed = true;
                }
            },
        }
        let (status, pid) = match current[i] {
            Some(pid) => (true, Some(pid)),
            None => (false, None),
        };
        rules.set_state_at(i, status, pid);
        proof {
            assert(rules.entries()[i as int] == (e0[i as int].0, refreshed(e0[i as int].1, current@[i as int])));
            assert(rules.names() =~= names_of(e0));
        }
    }
    proof {
        assert(rules.entries() =~= refreshed_rows(e0, current@));
    }
    let rows = rules.to_vec();
    let sorted = sort_rows(&rows);
    (sorted, changed)
}

/// Whether the text of a failed `kill` says that the process was already gone.
pub fn is_missing_process_error(text: &str) -> (r: bool)
    ensures
        r == has_infix(lower_seq(text@), "no such process"@),
{
    contains(&lower_chars(&chars_of(text)), &chars_of("no such process"))
}

/// What follows the last `:` of `s`, or all of `s` (`s.rsplit(':').next()`).
pub open spec fn last_segment(s: Seq<char>) -> Seq<char>
    decreases s.len(),
{
    if s.len() == 0 {
        s
    } else if s.last() == ':' {
        seq![]
    } else {
        last_segment(s.drop_last()).push(s.last())
    }
}

/// Computes [`last_segment`].
pub fn last_segment_of(v: &Vec<char>) -> (r: Vec<char>)
    ensures
        r@ == last_segment(v@),
{
    let n = v.len();
    let mut j = n;
    assert(v@.take(n as int) =~= v@);
    assert(v@.subrange(n as int, n as int) =~= Seq::<char>::empty());
    while j > 0 && v[j - 1] != ':'
        invariant
            j <= n == v.len(),
            last_segment(v@) == last_segment(v@.take(j as int)) + v@.subrange(j as int, n as int),
        decreases j,
    {
        assert(v@.take(j as int).drop_last() =~= v@.take(j - 1));
        assert(v@.take(j as int).last() == v@[j - 1]);
        assert(v@.subrange(j - 1, n as int) =~= seq![v@[j - 1]] + v@.subrange(j as int, n as int));
        assert(last_segment(v@.take(j - 1)).push(v@[j - 1]) + v@.subrange(j as int, n as int)
            =~= last_segment(v@.take(j - 1)) + v@.subrange(j - 1, n as int));
        j -= 1;
    }
    if j == 0 {
        assert(v@.take(0) =~= Seq::<char>::empty());
    }
    assert(last_segment(v@.take(j as int)) =~= Seq::<char>::empty());
    let r = sub_chars(v, j, n);
    assert(r@ =~= last_segment(v@));
    r
}

/// The `LocalForward` of the ssh client configuration that clashes with a rule:
/// it binds the rule's local port for the rule's host but forwards elsewhere.
pub struct HostForwardConflict {
    pub host: String,
    pub local_port: u16,
    /// The destination as the configuration writes it.
    pub destination: String,
    pub remote_port: u16,
}

/// What scanning configuration `lines` gives for a rule on `host` forwarding
/// `local_port` to `remote_port`: the destination written by the first clashing
/// `LocalForward` line, if any. `in_host` tells whether the scan is inside a
/// `Host` block that names `host`.
pub open spec fn first_conflict(
    lines: Seq<Seq<char>>,
    in_host: bool,
    host: Seq<char>,
    local_port: u16,
    remote_port: u16,
) -> Option<Seq<char>>
    decreases lines.len(),
{
    if lines.len() == 0 {
        None
    } else {
        let line = trim(lines[0]);
        let rest = lines.drop_first();
        if line.len() == 0 || line[0] == '#' {
            first_conflict(rest, in_host, host, local_port, remote_port)
        } else if has_prefix(lower_seq(line), "host "@) {
            first_conflict(
                rest,
                words(line.skip("host "@.len() as int)).contains(host),
                host,
                local_port,
                remote_port,
            )
        } else if !in_host || !has_prefix(lower_seq(line), "localforward "@) {
            first_conflict(rest, in_host, host, local_port, remote_port)
        } else {
            let parts = words(line);
            if parts.len() < 3 {
                first_conflict(rest, in_host, host, local_port, remote_port)
            } else if parse_unsigned(last_segment(parts[1]), u16::MAX as int) == Some(
                local_port as int,
            ) && parse_unsigned(last_segment(parts[2]), u16::MAX as int) != Some(
                remote_port as int,
            ) {
                Some(parts[2])
            } else {
                first_conflict(rest, in_host, host, local_port, remote_port)
            }
        }
    }
}

/// Whether some word of `ws` equals `w`.
fn has_word(ws: &Vec<Vec<char>>, w: &Vec<char>) -> (r: bool)
    ensures
        r == views(ws@).contains(w@),
{
    for i in 0..ws.len()
        invariant
            forall|k: int| 0 <= k < i ==> views(ws@)[k] != w@,
    {
        if chars_eq(&ws[i], w) {
            assert(views(ws@)[i as int] == w@);
            return true;
        }
    }
    false
}

/// Checks the ssh client configuration text `config` for a `LocalForward`
/// that clashes with `rule` (see [`first_conflict`]).
pub fn check_host_forward_conflict(config: &str, rule: &PortForwardRule) -> (r: Result<
    (),
    HostForwardConflict,
>)
    ensures
        match r {
            Ok(()) => first_conflict(
                lines(config@),
                false,
                rule.remote_host@,
                rule.local_port,
                rule.remote_port,
            ) is None,
            Err(c) => first_conflict(
                lines(config@),
                false,
                rule.remote_host@,
                rule.local_port,
                rule.remote_port,
            ) == Some(c.destination@) && c.host@ == rule.remote_host@ && c.local_port
                == rule.local_port && c.remote_port == rule.remote_port,
        },
{
    let text = chars_of(config);
    let ls = lines_of(&text);
    let host = chars_of(rule.remote_host.as_str());
    let host_key = chars_of("host ");
    let forward_key = chars_of("localforward ");
    let ghost all = views(ls@);
    let ghost goal = first_conflict(all, false, host@, rule.local_port, rule.remote_port);
    let mut in_host = false;
    assert(all.skip(0) =~= all);
    for i in 0..ls.len()
        invariant
            all == views(ls@),
            all == lines(config@),
            host@ == rule.remote_host@,
            host_key@ == "host "@,
            forward_key@ == "localforward "@,
            goal == first_conflict(all, false, host@, rule.local_port, rule.remote_port),
            goal == first_conflict(all.skip(i as int), in_host, host@, rule.local_port, rule.remote_port),
    {
        let ghost tail = all.skip(i as int);
        assert(tail[0] == all[i as int]);
        assert(tail.drop_first() =~= all.skip(i + 1));
        let line = trim_chars(&ls[i]);
        if line.len() > 0 && line[0] != '#' {
            let lowered = lower_chars(&line);
            if starts_with(&lowered, &host_key) {
                let names = words_of(&sub_chars(&line, host_key.len(), line.len()));
                assert(line@.subrange(host_key@.len() as int, line@.len() as int) =~= line@.skip(
                    "host "@.len() as int,
                ));
                in_host = has_word(&names, &host);
            } else if in_host && starts_with(&lowered, &forward_key) {
                let parts = words_of(&line);
                if parts.len() >= 3 {
                    let local = parse_u16(&last_segment_of(&parts[1]));
                    let remote = parse_u16(&last_segment_of(&parts[2]));
                    if local == Some(rule.local_port) && remote != Some(rule.remote_port) {
                        return Err(
                            HostForwardConflict {
                                host: rule.remote_host.clone(),
                                local_port: rule.local_port,
                                destination: string_of(&parts[2]),
                                remote_port: rule.remote_port,
                            },
                        );
                    }
                }
            }
        }
    }
    assert(all.skip(ls.len() as int) =~= Seq::<Seq<char>>::empty());
    Ok(())
}

/// The text of a [`HostForwardConflict`].
pub open spec fn conflict_text(host: Seq<char>, local_port: u16, destination: Seq<char>, remote_port: u16) -> Seq<char> {
    "SSH config host '"@ + host + "' already defines LocalForward "@ + decimal(local_port as nat)
        + " -> "@ + destination + ". This conflicts with rule '"@ + host + "' ("@ + decimal(
        local_port as nat,
    ) + " -> "@ + decimal(remote_port as nat)
        + "). Remove or change that LocalForward in ~/.ssh/config."@
}

impl HostForwardConflict {
    /// The message shown for this conflict.
    pub fn message(&self) -> (r: String)
        ensures
            r@ == conflict_text(self.host@, self.local_port, self.destination@, self.remote_port),
    {
        let lp = decimal_string(self.local_port as u32);
        let rp = decimal_string(self.remote_port as u32);
        String::from_str("SSH config host '").concat(self.host.as_str()).concat(
            "' already defines LocalForward ",
        ).concat(lp.as_str()).concat(" -> ").concat(self.destination.as_str()).concat(
            ". This conflicts with rule '",
        ).concat(self.host.as_str()).concat("' (").concat(lp.as_str()).concat(" -> ").concat(
            rp.as_str(),
        ).concat("). Remove or change that LocalForward in ~/.ssh/config.")
    }
}

/// Brings `rules` in line with `current` (see [`refresh_status`]) and pairs the
/// sorted rows with the host names (see [`ssh_hosts`]); also tells whether the
/// table changed.
pub fn load_dashboard(rules: &mut RuleTable, current: &Vec<Option<u32>>, hosts: &Vec<String>) -> (r: (
    (Vec<(String, PortForwardRule)>, Vec<String>),
    bool,
))
    requires
        old(rules).wf(),
        current.len() == old(rules).entries().len(),
    ensures
        final(rules).wf(),
        final(rules)@ == map_of(refreshed_rows(old(rules).entries(), current@)),
        rows_sorted(entry_views(r.0.0@)),
        entry_views(r.0.0@).to_set() == refreshed_rows(old(rules).entries(), current@).to_set(),
        strictly_sorted(string_views(r.0.1@)),
        string_views(r.0.1@).to_set() == string_views(hosts@).to_set(),
        r.1 == (exists|i: int|
            0 <= i < current.len() && #[trigger] refreshed(old(rules).entries()[i].1, current@[i])
                != old(rules).entries()[i].1),
{
    let (rows, changed) = refresh_status(rules, current);
    let hs = ssh_hosts(hosts);
    ((rows, hs), changed)
}

/// Starts stopping the rules `names`, in order (see [`StopRun`]).
pub fn stop_rules(rules: RuleTable, names: Vec<String>) -> (r: (StopRun, StopAction))
    requires
        rules.wf(),
    ensures
        r.0.wf(),
        r.0@ == stop_begin(
            StopView {
                rules: rules@,
                names: string_views(names@),
                index: 0,
                rule: None,
                pids: Seq::empty(),
                killed: 0,
                probes: 0,
                stage: RunStage::Inspect,
                failure: None,
                initial: rules@,
            },
        ),
        r.1@ == stop_action(r.0@),
{
    StopRun::new(rules, names)
}

/// Starts starting the rules `names`, in order (see [`StartRun`]).
pub fn start_rules(rules: RuleTable, names: Vec<String>) -> (r: (StartRun, StartAction))
    requires
        rules.wf(),
    ensures
        r.0.wf(),
        r.0@ == start_begin(
            StartView {
                rules: rules@,
                order: rules.names(),
                names: string_views(names@),
                index: 0,
                rule: None,
                dups: seq![],
                dup_k: 0,
                running: seq![],
                stale: seq![],
                existing: seq![],
                kill_k: 0,
                listeners: seq![],
                listener_k: 0,
                probes: 0,
                stable: None,
                samples: 0,
                stage: StartStage::Saved,
                failure: None,
                initial: rules@,
            },
        ),
        r.1@ == start_action(r.0@),
{
    StartRun::new(rules, names)
}

/// Refreshing twice with the same findings changes nothing the second time.
pub proof fn lemma_refresh_idempotent(e: Seq<(Seq<char>, RuleView)>, current: Seq<Option<u32>>)
    requires
        current.len() == e.len(),
    ensures
        refreshed_rows(refreshed_rows(e, current), current) == refreshed_rows(e, current),
        forall|i: int|
            0 <= i < current.len() ==> #[trigger] refreshed(refreshed_rows(e, current)[i].1, current[i])
                == refreshed_rows(e, current)[i].1,
{
    assert(refreshed_rows(refreshed_rows(e, current), current) =~= refreshed_rows(e, current));
}

/// A stopped rule that was added can be deleted again, and deleting it gives
/// back the table as it was before the addition.
pub proof fn lemma_add_then_remove(rules: Map<Seq<char>, RuleView>, name: Seq<char>, rule: RuleView)
    requires
        validation(rules, name, rule.remote_host, None) is Ok,
        !rule.status,
    ensures
        remove_outcome(rules.insert(name, rule), name) is Ok,
        rules.insert(name, rule).remove(name) == rules,
{
    assert(rules.insert(name, rule).remove(name) =~= rules);
}

/// Once a rule is stored under a name, adding another rule under that name is
/// refused as a duplicate, whatever its host.
pub proof fn lemma_add_twice_refused(
    rules: Map<Seq<char>, RuleView>,
    name: Seq<char>,
    rule: RuleView,
    host: Seq<char>,
)
    requires
        validation(rules, name, rule.remote_host, None) is Ok,
    ensures
        validation(rules.insert(name, rule), name, host, None) == Err::<(), RuleErrorView>(
            RuleErrorView::AlreadyExists(name),
        ),
{
}

/// Renaming a stopped rule to a free name moves it: the old name is gone and
/// the new one holds the new settings, every other rule unchanged.
pub proof fn lemma_update_moves(
    rules: Map<Seq<char>, RuleView>,
    old_name: Seq<char>,
    new_name: Seq<char>,
    rule: RuleView,
)
    requires
        update_outcome(rules, old_name, new_name, rule.remote_host) is Ok,
        old_name != new_name,
    ensures
        !rules.remove(old_name).insert(new_name, rule).dom().contains(old_name),
        rules.remove(old_name).insert(new_name, rule)[new_name] == rule,
        forall|n: Seq<char>|
            n != old_name && n != new_name && #[trigger] rules.dom().contains(n) ==> rules.remove(
                old_name,
            ).insert(new_name, rule).dom().contains(n) && rules.remove(old_name).insert(new_name, rule)[n]
                == rules[n],
{
}

/// Refreshing changes only whether rules run and their processes: no rule
/// appears or disappears, and each keeps its ports and host.
pub proof fn lemma_refresh_keeps_settings(e: Seq<(Seq<char>, RuleView)>, current: Seq<Option<u32>>)
    requires
        distinct_names(e),
        current.len() == e.len(),
    ensures
        settings_kept(map_of(e), map_of(refreshed_rows(e, current))),
{
    let r = refreshed_rows(e, current);
    assert(names_of(r) =~= names_of(e));
    assert(distinct_names(r)) by {
        assert forall|i: int, j: int|
            0 <= i < r.len() && 0 <= j < r.len() && i != j implies (#[trigger] r[i]).0 != (#[trigger] r[j]).0 by {
            assert(e[i].0 != e[j].0);
        }
    }
    lemma_map_of_dom(e);
    lemma_map_of_dom(r);
    assert forall|k: Seq<char>| #[trigger] map_of(e).dom().contains(k) implies same_settings(
        map_of(e)[k],
        map_of(r)[k],
    ) by {
        let i = choose|i: int| 0 <= i < e.len() && (#[trigger] e[i]).0 == k;
        lemma_map_of_row(e, i);
        lemma_map_of_row(r, i);
    }
}

/// A second refresh with the same findings returns the same sorted rows as the
/// first (and, by [`lemma_refresh_idempotent`], reports no change).
pub proof fn lemma_refresh_twice_same_rows(
    e: Seq<(Seq<char>, RuleView)>,
    current: Seq<Option<u32>>,
    first: Seq<(Seq<char>, RuleView)>,
    second: Seq<(Seq<char>, RuleView)>,
)
    requires
        current.len() == e.len(),
        rows_sorted(first),
        first.to_set() == refreshed_rows(e, current).to_set(),
        rows_sorted(second),
        second.to_set() == refreshed_rows(refreshed_rows(e, current), current).to_set(),
    ensures
        first == second,
{
    lemma_refresh_idempotent(e, current);
    lemma_rows_sorted_unique(first, second);
}

/// Whether configuration line `l` is a `Host` line.
pub open spec fn is_host_line(l: Seq<char>) -> bool {
    has_prefix(lower_seq(trim(l)), "host "@)
}

/// Whether configuration line `l` is a `Host` line that names `host`.
pub open spec fn names_host(l: Seq<char>, host: Seq<char>) -> bool {
    is_host_line(l) && words(trim(l).skip("host "@.len() as int)).contains(host)
}

proof fn lemma_host_line_not_comment(l: Seq<char>)
    requires
        is_host_line(l),
    ensures
        trim(l).len() > 0,
        trim(l)[0] != '#',
{
    let t = trim(l);
    reveal_strlit("host ");
    assert("host "@[0] == 'h');
    assert(lower_seq(t).len() == t.len());
    assert(lower_seq(t).subrange(0, 5)[0] == lower_seq(t)[0]);
    assert(lower_seq(t)[0] == 'h');
    assert(crate::text::lower(t[0]) == 'h');
}

/// Outside the block of a `Host` line that names the rule's host, no
/// `LocalForward` conflicts: lines among which no `Host` line names the host
/// give no conflict when the scan starts outside the host's block.
pub proof fn lemma_no_host_no_conflict(b: Seq<Seq<char>>, host: Seq<char>, local_port: u16, remote_port: u16)
    requires
        forall|i: int| 0 <= i < b.len() ==> !#[trigger] names_host(b[i], host),
    ensures
        first_conflict(b, false, host, local_port, remote_port) is None,
    decreases b.len(),
{
    if b.len() > 0 {
        assert(!names_host(b[0], host));
        if is_host_line(b[0]) {
            lemma_host_line_not_comment(b[0]);
        }
        assert forall|i: int| 0 <= i < b.drop_first().len() implies !#[trigger] names_host(
            b.drop_first()[i],
            host,
        ) by {
            assert(b.drop_first()[i] == b[i + 1]);
        }
        lemma_no_host_no_conflict(b.drop_first(), host, local_port, remote_port);
    }
}

proof fn lemma_conflict_then_other_host(
    a: Seq<Seq<char>>,
    other: Seq<char>,
    b: Seq<Seq<char>>,
    in_host: bool,
    host: Seq<char>,
    local_port: u16,
    remote_port: u16,
)
    requires
        first_conflict(a, in_host, host, local_port, remote_port) is None,
        is_host_line(other),
        !names_host(other, host),
        forall|i: int| 0 <= i < b.len() ==> !#[trigger] names_host(b[i], host),
    ensures
        first_conflict(a + seq![other] + b, in_host, host, local_port, remote_port) is None,
    decreases a.len(),
{
    let rest = seq![other] + b;
    if a.len() == 0 {
        assert(a + rest =~= rest);
        lemma_host_line_not_comment(other);
        assert(rest[0] == other);
        assert(rest.drop_first() =~= b);
        lemma_no_host_no_conflict(b, host, local_port, remote_port);
    } else {
        let all = a + rest;
        assert(a + seq![other] + b =~= all);
        assert(all[0] == a[0]);
        assert(all.drop_first() =~= a.drop_first() + seq![other] + b);
        let line = trim(a[0]);
        let next_in = if line.len() == 0 || line[0] == '#' {
            in_host
        } else if has_prefix(lower_seq(line), "host "@) {
            words(line.skip("host "@.len() as int)).contains(host)
        } else {
            in_host
        };
        lemma_conflict_then_other_host(a.drop_first(), other, b, next_in, host, local_port, remote_port);
    }
}

/// A `Host` line that does not name the rule's host closes the host's block:
/// when the lines `a` hold no conflict, adding such a line and then lines
/// among which no `Host` line names the host still gives no conflict (a
/// `LocalForward` under another host never conflicts).
pub proof fn lemma_other_host_closes_block(
    a: Seq<Seq<char>>,
    other: Seq<char>,
    b: Seq<Seq<char>>,
    host: Seq<char>,
    local_port: u16,
    remote_port: u16,
)
    requires
        first_conflict(a, false, host, local_port, remote_port) is None,
        is_host_line(other),
        !names_host(other, host),
        forall|i: int| 0 <= i < b.len() ==> !#[trigger] names_host(b[i], host),
    ensures
        first_conflict(a + seq![other] + b, false, host, local_port, remote_port) is None,
{
    lemma_conflict_then_other_host(a, other, b, false, host, local_port, remote_port);
}

} // verus!
