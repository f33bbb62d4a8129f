//! Reading what `lsof` and `ps` report about the processes behind a rule.
use vstd::prelude::*;

use crate::cmd::common::{RuleSelection, RuleTable, RuleView};
use crate::text::{
    chars_of,
    lemma_string_views_push,
    contains,
    decimal,
    has_infix,
    lines,
    lines_of,
    parse_u32,
    parse_unsigned,
    push_decimal,
    string_of,
    string_views,
    trim,
    trim_chars,
    views,
    words,
    words_of,
};

verus! {

/// The names of `names` that `rules` knows, in order.
pub open spec fn known_names(names: Seq<Seq<char>>, rules: Map<Seq<char>, RuleView>) -> Seq<
    Seq<char>,
>
    decreases names.len(),
{
    if names.len() == 0 {
        seq![]
    } else if rules.dom().contains(names.last()) {
        known_names(names.drop_last(), rules).push(names.last())
    } else {
        known_names(names.drop_last(), rules)
    }
}

/// The names of `names` that `rules` does not know, in order.
pub open spec fn unknown_names(names: Seq<Seq<char>>, rules: Map<Seq<char>, RuleView>) -> Seq<
    Seq<char>,
>
    decreases names.len(),
{
    if names.len() == 0 {
        seq![]
    } else if rules.dom().contains(names.last()) {
        unknown_names(names.drop_last(), rules)
    } else {
        unknown_names(names.drop_last(), rules).push(names.last())
    }
}

/// Splits `names` into those that name a rule and those that do not (the latter
/// are reported as not found), both in the order given.
pub fn check_exist(names: &Vec<String>, rules: &RuleTable) -> (r: (Vec<String>, Vec<String>))
    ensures
        string_views(r.0@) == known_names(string_views(names@), rules@),
        string_views(r.1@) == unknown_names(string_views(names@), rules@),
{
    let ghost ns = string_views(names@);
    let mut found: Vec<String> = Vec::new();
    let mut missing: Vec<String> = Vec::new();
    for i in 0..names.len()
        invariant
            ns == string_views(names@),
            string_views(found@) == known_names(ns.take(i as int), rules@),
            string_views(missing@) == unknown_names(ns.take(i as int), rules@),
    {
        assert(ns.take(i + 1).drop_last() =~= ns.take(i as int));
        assert(ns.take(i + 1).last() == names@[i as int]@);
        let name = names[i].clone();
        if rules.contains_key(&name) {
            proof {
                lemma_string_views_push(found@, name);
            }
            found.push(name);
        } else {
            proof {
                lemma_string_views_push(missing@, name);
            }
            missing.push(name);
        }
    }
    assert(ns.take(names.len() as int) =~= ns);
    (found, missing)
}

/// The names a subcommand acts on: every rule's name (in table order) for
/// `all`, the names given that name a rule (in the order given), or the names
/// the user picked.
pub fn selected_names(sel: &RuleSelection, rules: &RuleTable, picked: &Vec<String>) -> (r: Vec<
    String,
>)
    ensures
        match sel {
            RuleSelection::All => string_views(r@) == rules.names(),
            RuleSelection::Named(n) => string_views(r@) == known_names(string_views(n@), rules@),
            RuleSelection::Select => string_views(r@) == string_views(picked@),
        },
{
    match sel {
        RuleSelection::All => rules.names_vec(),
        RuleSelection::Named(n) => check_exist(n, rules).0,
        RuleSelection::Select => copy_names(picked),
    }
}

/// A copy of `v`.
fn copy_names(v: &Vec<String>) -> (r: Vec<String>)
    ensures
        string_views(r@) == string_views(v@),
{
    let mut out: Vec<String> = Vec::new();
    for i in 0..v.len()
        invariant
            string_views(out@) == string_views(v@).take(i as int),
    {
        let x = v[i].clone();
        proof {
            lemma_string_views_push(out@, x);
        }
        out.push(x);
        assert(string_views(v@).take(i + 1) =~= string_views(v@).take(i as int).push(v@[i as int]@));
    }
    assert(string_views(v@).take(v.len() as int) =~= string_views(v@));
    out
}

/// The names acted on once the user answered a confirmation: all of them on
/// yes, none on no.
pub fn confirmed_names(names: &Vec<String>, yes: bool) -> (r: Vec<String>)
    ensures
        yes ==> string_views(r@) == string_views(names@),
        !yes ==> r@.len() == 0,
{
    if yes {
        copy_names(names)
    } else {
        Vec::new()
    }
}

/// The text given when no process listens on a port.
pub open spec fn no_listener_text() -> Seq<char> {
    "Failed to get portforward process PID"@
}

/// The first process listening on a port, from the listing of the listeners
/// (`Err` holds the text of a listing that failed, which is passed on).
pub fn get_pid(listening: Result<Vec<u32>, String>) -> (r: Result<u32, String>)
    ensures
        match listening {
            Ok(v) => if v@.len() > 0 {
                r == Ok::<u32, String>(v@[0])
            } else {
                r matches Err(t) && t@ == no_listener_text()
            },
            Err(e) => r matches Err(t) && t@ == e@,
        },
{
    match listening {
        Ok(v) => if v.len() > 0 {
            Ok(v[0])
        } else {
            Err(String::from_str("Failed to get portforward process PID"))
        },
        Err(e) => Err(e),
    }
}

/// The numbers on the lines of `ls`: each trimmed line that parses as a process id.
pub open spec fn pids_in_lines(ls: Seq<Seq<char>>) -> Seq<u32>
    decreases ls.len(),
{
    if ls.len() == 0 {
        seq![]
    } else {
        let rest = pids_in_lines(ls.drop_last());
        match parse_unsigned(trim(ls.last()), u32::MAX as int) {
            Some(v) => rest.push(v as u32),
            None => rest,
        }
    }
}

/// The process ids that `lsof -t` printed, one per line; other lines are skipped.
pub fn get_listening_pids(output: &str) -> (r: Vec<u32>)
    ensures
        r@ == pids_in_lines(lines(output@)),
{
    let ls = lines_of(&chars_of(output));
    let ghost all = views(ls@);
    let mut out: Vec<u32> = Vec::new();
    for i in 0..ls.len()
        invariant
            all == views(ls@),
            out@ == pids_in_lines(all.take(i as int)),
    {
        assert(all.take(i + 1).drop_last() =~= all.take(i as int));
        assert(all.take(i + 1).last() == ls@[i as int]@);
        match parse_u32(&trim_chars(&ls[i])) {
            Some(pid) => {
                out.push(pid);
            },
            None => {},
        }
    }
    assert(all.take(ls.len() as int) =~= all);
    out
}

/// `127.0.0.1:<local>:localhost:<remote>`, the `-L` argument that starts a rule.
pub open spec fn loopback_forward(local_port: u16, remote_port: u16) -> Seq<char> {
    "127.0.0.1:"@ + decimal(local_port as nat) + ":localhost:"@ + decimal(remote_port as nat)
}

/// `<local>:localhost:<remote>`, the `-L` argument of forwards started by earlier versions.
pub open spec fn legacy_forward(local_port: u16, remote_port: u16) -> Seq<char> {
    decimal(local_port as nat) + ":localhost:"@ + decimal(remote_port as nat)
}

/// Builds [`loopback_forward`].
pub fn loopback_forward_arg(local_port: u16, remote_port: u16) -> (r: String)
    ensures
        r@ == loopback_forward(local_port, remote_port),
{
    string_of(&loopback_forward_chars(local_port, remote_port))
}

fn loopback_forward_chars(local_port: u16, remote_port: u16) -> (r: Vec<char>)
    ensures
        r@ == loopback_forward(local_port, remote_port),
{
    let mut v = chars_of("127.0.0.1:");
    push_decimal(&mut v, local_port as u32);
    let mid = chars_of(":localhost:");
    let mut k: usize = 0;
    let ghost before = v@;
    while k < mid.len()
        invariant
            k <= mid.len(),
            v@ == before + mid@.take(k as int),
        decreases mid.len() - k,
    {
        v.push(mid[k]);
        assert(mid@.take(k + 1) =~= mid@.take(k as int).push(mid@[k as int]));
        k += 1;
    }
    assert(mid@.take(mid.len() as int) =~= mid@);
    push_decimal(&mut v, remote_port as u32);
    assert(v@ =~= loopback_forward(local_port, remote_port));
    v
}

fn legacy_forward_chars(local_port: u16, remote_port: u16) -> (r: Vec<char>)
    ensures
        r@ == legacy_forward(local_port, remote_port),
{
    let mut v: Vec<char> = Vec::new();
    push_decimal(&mut v, local_port as u32);
    let mid = chars_of(":localhost:");
    let mut k: usize = 0;
    let ghost before = v@;
    while k < mid.len()
        invariant
            k <= mid.len(),
            v@ == before + mid@.take(k as int),
        decreases mid.len() - k,
    {
        v.push(mid[k]);
        assert(mid@.take(k + 1) =~= mid@.take(k as int).push(mid@[k as int]));
        k += 1;
    }
    assert(mid@.take(mid.len() as int) =~= mid@);
    push_decimal(&mut v, remote_port as u32);
    assert(v@ =~= legacy_forward(local_port, remote_port));
    v
}

/// Builds [`legacy_forward`].
pub fn legacy_forward_arg(local_port: u16, remote_port: u16) -> (r: String)
    ensures
        r@ == legacy_forward(local_port, remote_port),
{
    string_of(&legacy_forward_chars(local_port, remote_port))
}

/// Whether a process command line is the ssh client of a rule: it mentions
/// `ssh`, the host and `-L`, and one of the two forms of the forward.
pub open spec fn command_matches(
    command: Seq<char>,
    local_port: u16,
    remote_port: u16,
    remote_host: Seq<char>,
) -> bool {
    &&& has_infix(command, "ssh"@)
    &&& has_infix(command, remote_host)
    &&& has_infix(command, "-L"@)
    &&& (has_infix(command, loopback_forward(local_port, remote_port)) || has_infix(
        command,
        legacy_forward(local_port, remote_port),
    ))
}

/// Decides [`command_matches`].
pub fn command_matches_rule(
    command: &Vec<char>,
    local_port: u16,
    remote_port: u16,
    remote_host: &str,
) -> (r: bool)
    ensures
        r == command_matches(command@, local_port, remote_port, remote_host@),
{
    contains(command, &chars_of("ssh")) && contains(command, &chars_of(remote_host)) && contains(
        command,
        &chars_of("-L"),
    ) && (contains(command, &loopback_forward_chars(local_port, remote_port)) || contains(
        command,
        &legacy_forward_chars(local_port, remote_port),
    ))
}

/// Whether the command line that `ps -o command=` printed for a process is the
/// ssh client of the rule.
pub fn process_matches_rule(
    command_output: &str,
    local_port: u16,
    remote_port: u16,
    remote_host: &str,
) -> (r: bool)
    ensures
        r == command_matches(command_output@, local_port, remote_port, remote_host@),
{
    command_matches_rule(&chars_of(command_output), local_port, remote_port, remote_host)
}

/// Whether the command line that `ps -o command=` printed for a process is an ssh client.
pub fn process_is_ssh(command_output: &str) -> (r: bool)
    ensures
        r == has_infix(command_output@, "ssh"@),
{
    contains(&chars_of(command_output), &chars_of("ssh"))
}

/// The words joined by single spaces (`join(" ")`).
pub open spec fn join_words(ws: Seq<Seq<char>>) -> Seq<char>
    decreases ws.len(),
{
    if ws.len() == 0 {
        seq![]
    } else if ws.len() == 1 {
        ws[0]
    } else {
        join_words(ws.drop_last()) + seq![' '] + ws.last()
    }
}

/// The process ids of the lines of `ps -axo pid=,command=` whose command is the
/// ssh client of the rule, in order.
pub open spec fn rule_pids_in_lines(
    ls: Seq<Seq<char>>,
    local_port: u16,
    remote_port: u16,
    remote_host: Seq<char>,
) -> Seq<u32>
    decreases ls.len(),
{
    if ls.len() == 0 {
        seq![]
    } else {
        let rest = rule_pids_in_lines(ls.drop_last(), local_port, remote_port, remote_host);
        let parts = words(trim(ls.last()));
        if parts.len() == 0 {
            rest
        } else {
            match parse_unsigned(parts[0], u32::MAX as int) {
                Some(pid) => if command_matches(
                    join_words(parts.drop_first()),
                    local_port,
                    remote_port,
                    remote_host,
                ) {
                    rest.push(pid as u32)
                } else {
                    rest
                },
                None => rest,
            }
        }
    }
}

/// The words `ws[from..]` joined by single spaces.
fn join_from(ws: &Vec<Vec<char>>, from: usize) -> (r: Vec<char>)
    requires
        from <= ws.len(),
    ensures
        r@ == join_words(views(ws@).skip(from as int)),
{
    let ghost all = views(ws@);
    let mut out: Vec<char> = Vec::new();
    let mut i = from;
    assert(all.skip(from as int).take(0) =~= Seq::<Seq<char>>::empty());
    while i < ws.len()
        invariant
            from <= i <= ws.len(),
            all == views(ws@),
            out@ == join_words(all.skip(from as int).take(i - from)),
        decreases ws.len() - i,
    {
        let ghost part = all.skip(from as int).take(i + 1 - from);
        assert(part.drop_last() =~= all.skip(from as int).take(i - from));
        assert(part.last() == ws@[i as int]@);
        if i > from {
            out.push(' ');
        }
        let w = &ws[i];
        let ghost before = out@;
        let mut k: usize = 0;
        while k < w.len()
            invariant
                k <= w.len(),
                out@ == before + w@.take(k as int),
            decreases w.len() - k,
        {
            out.push(w[k]);
            assert(w@.take(k + 1) =~= w@.take(k as int).push(w@[k as int]));
            k += 1;
        }
        assert(w@.take(w.len() as int) =~= w@);
        if i == from {
            assert(part.len() == 1);
            assert(out@ =~= join_words(part));
        } else {
            assert(out@ =~= join_words(part));
        }
        i += 1;
    }
    assert(all.skip(from as int).take(ws.len() - from) =~= all.skip(from as int));
    out
}

/// The process ids of the ssh clients of a rule, read from the output of
/// `ps -axo pid=,command=`.
pub fn get_rule_process_pids(
    output: &str,
    local_port: u16,
    remote_port: u16,
    remote_host: &str,
) -> (r: Vec<u32>)
    ensures
        r@ == rule_pids_in_lines(lines(output@), local_port, remote_port, remote_host@),
{
    let ls = lines_of(&chars_of(output));
    let ghost all = views(ls@);
    let mut out: Vec<u32> = Vec::new();
    for i in 0..ls.len()
        invariant
            all == views(ls@),
            out@ == rule_pids_in_lines(all.take(i as int), local_port, remote_port, remote_host@),
    {
        assert(all.take(i + 1).drop_last() =~= all.take(i as int));
        assert(all.take(i + 1).last() == ls@[i as int]@);
        let parts = words_of(&trim_chars(&ls[i]));
        if parts.len() > 0 {
            match parse_u32(&parts[0]) {
                Some(pid) => {
                    let command = join_from(&parts, 1);
                    assert(views(parts@).skip(1) =~= views(parts@).drop_first());
                    if command_matches_rule(&command, local_port, remote_port, remote_host) {
                        out.push(pid);
                    }
                },
                None => {},
            }
        }
    }
    assert(all.take(ls.len() as int) =~= all);
    out
}

/// Which process holds a rule, given what was found: the saved process when it
/// still matches the rule, else the first ssh client of the rule, else the
/// first listener on the local port that matches the rule.
pub open spec fn resolved_pid(
    saved: Option<(u32, bool)>,
    rule_pids: Seq<u32>,
    listeners: Seq<(u32, bool)>,
) -> Option<u32> {
    if let Some((pid, true)) = saved {
        Some(pid)
    } else if rule_pids.len() > 0 {
        Some(rule_pids[0])
    } else {
        first_matching(listeners)
    }
}

/// The first listener marked as matching.
pub open spec fn first_matching(listeners: Seq<(u32, bool)>) -> Option<u32>
    decreases listeners.len(),
{
    if listeners.len() == 0 {
        None
    } else if listeners[0].1 {
        Some(listeners[0].0)
    } else {
        first_matching(listeners.drop_first())
    }
}

/// Decides which process holds a rule (see [`resolved_pid`]). `saved` is the
/// saved process id with whether its command line matches the rule;
/// `rule_pids` are the ssh clients of the rule; `listeners` are the processes
/// listening on the local port, each with whether it matches the rule.
pub fn resolve_rule_pid(
    saved: Option<(u32, bool)>,
    rule_pids: &Vec<u32>,
    listeners: &Vec<(u32, bool)>,
) -> (r: Option<u32>)
    ensures
        r == resolved_pid(saved, rule_pids@, listeners@),
{
    if let Some((pid, matches)) = saved {
        if matches {
            return Some(pid);
        }
    }
    if rule_pids.len() > 0 {
        return Some(rule_pids[0]);
    }
    let mut i: usize = 0;
    assert(listeners@.skip(0) =~= listeners@);
    while i < listeners.len()
        invariant
            i <= listeners.len(),
            first_matching(listeners@.skip(i as int)) == first_matching(listeners@),
            resolved_pid(saved, rule_pids@, listeners@) == first_matching(listeners@),
        decreases listeners.len() - i,
    {
        assert(listeners@.skip(i as int).drop_first() =~= listeners@.skip(i + 1));
        let (pid, matches) = listeners[i];
        if matches {
            return Some(pid);
        }
        i += 1;
    }
    None
}

/// The next lookup when finding which process holds a rule, in the order in
/// which [`resolved_pid`] consults them.
pub enum LookupStep {
    /// Check whether this saved process is the rule's ssh client.
    MatchSaved(u32),
    /// List the rule's ssh clients.
    ListRuleProcesses,
    /// List the processes listening on the local port.
    ListListeners,
    /// Check whether this listener is the rule's ssh client.
    MatchListener(u32),
    /// Nothing more to look up: this process holds the rule, or none does.
    Found(Option<u32>),
}

/// The next step among the listeners `l`, of which `m` are checked, from position `i`.
pub open spec fn listener_step(l: Seq<u32>, m: Seq<bool>, i: int) -> LookupStep
    decreases l.len() - i,
{
    if i < 0 || i >= l.len() {
        LookupStep::Found(None)
    } else if i >= m.len() {
        LookupStep::MatchListener(l[i])
    } else if m[i] {
        LookupStep::Found(Some(l[i]))
    } else {
        listener_step(l, m, i + 1)
    }
}

/// What to look up next, given what was found so far: whether the saved
/// process matches (once checked), the rule's ssh clients (once listed), the
/// listeners (once listed) and whether each of the first of them matches.
pub open spec fn lookup_step(
    saved: Option<u32>,
    saved_matches: Option<bool>,
    rule_pids: Option<Seq<u32>>,
    listeners: Option<Seq<u32>>,
    listener_matches: Seq<bool>,
) -> LookupStep {
    if saved is Some && saved_matches is None {
        LookupStep::MatchSaved(saved->0)
    } else if saved is Some && saved_matches == Some(true) {
        LookupStep::Found(saved)
    } else {
        match rule_pids {
            None => LookupStep::ListRuleProcesses,
            Some(v) => if v.len() > 0 {
                LookupStep::Found(Some(v[0]))
            } else {
                match listeners {
                    None => LookupStep::ListListeners,
                    Some(l) => listener_step(l, listener_matches, 0),
                }
            },
        }
    }
}

/// The listeners paired with whether each matches, as far as both go.
pub open spec fn paired(l: Seq<u32>, m: Seq<bool>) -> Seq<(u32, bool)> {
    Seq::new(if l.len() < m.len() { l.len() } else { m.len() }, |i: int| (l[i], m[i]))
}

/// Computes [`listener_step`] from the first listener.
fn listener_next(l: &Vec<u32>, m: &Vec<bool>) -> (r: LookupStep)
    ensures
        r == listener_step(l@, m@, 0),
{
    let mut i: usize = 0;
    while i < l.len()
        invariant
            i <= l.len(),
            listener_step(l@, m@, 0) == listener_step(l@, m@, i as int),
        decreases l.len() - i,
    {
        if i >= m.len() {
            return LookupStep::MatchListener(l[i]);
        }
        if m[i] {
            return LookupStep::Found(Some(l[i]));
        }
        i += 1;
    }
    LookupStep::Found(None)
}

/// Computes [`lookup_step`].
pub fn next_lookup(
    saved: Option<u32>,
    saved_matches: Option<bool>,
    rule_pids: &Option<Vec<u32>>,
    listeners: &Option<Vec<u32>>,
    listener_matches: &Vec<bool>,
) -> (r: LookupStep)
    ensures
        r == lookup_step(
            saved,
            saved_matches,
            match rule_pids {
                Some(v) => Some(v@),
                None => None,
            },
            match listeners {
                Some(v) => Some(v@),
                None => None,
            },
            listener_matches@,
        ),
{
    if let Some(p) = saved {
        match saved_matches {
            None => {
                return LookupStep::MatchSaved(p);
            },
            Some(true) => {
                return LookupStep::Found(saved);
            },
            Some(false) => {},
        }
    }
    match rule_pids {
        None => LookupStep::ListRuleProcesses,
        Some(v) => if v.len() > 0 {
            LookupStep::Found(Some(v[0]))
        } else {
            match listeners {
                None => LookupStep::ListListeners,
                Some(l) => listener_next(l, listener_matches),
            }
        },
    }
}

proof fn lemma_listener_step_found(l: Seq<u32>, m: Seq<bool>, i: int)
    requires
        0 <= i <= l.len(),
        i <= m.len(),
        listener_step(l, m, i) is Found,
    ensures
        listener_step(l, m, i) == LookupStep::Found(first_matching(paired(l, m).skip(i))),
    decreases l.len() - i,
{
    let q = paired(l, m);
    if i < l.len() {
        if i < m.len() {
            assert(q.skip(i)[0] == (l[i], m[i]));
            assert(q.skip(i).drop_first() =~= q.skip(i + 1));
            if !m[i] {
                lemma_listener_step_found(l, m, i + 1);
            }
        }
    } else {
        assert(q.skip(i).len() == 0);
    }
}

/// The lookups made in the order [`lookup_step`] asks for them find the
/// process that [`resolved_pid`] picks from what they found: when the steps
/// end, their answer is that of [`resolve_rule_pid`] on the findings.
pub proof fn lemma_lookup_agrees(
    saved: Option<u32>,
    saved_matches: Option<bool>,
    rule_pids: Option<Seq<u32>>,
    listeners: Option<Seq<u32>>,
    listener_matches: Seq<bool>,
)
    requires
        lookup_step(saved, saved_matches, rule_pids, listeners, listener_matches) is Found,
    ensures
        lookup_step(saved, saved_matches, rule_pids, listeners, listener_matches)
            == LookupStep::Found(
            resolved_pid(
                match (saved, saved_matches) {
                    (Some(p), Some(b)) => Some((p, b)),
                    _ => None,
                },
                match rule_pids {
                    Some(v) => v,
                    None => Seq::empty(),
                },
                match listeners {
                    Some(l) => paired(l, listener_matches),
                    None => Seq::empty(),
                },
            ),
        ),
{
    if let Some(l) = listeners {
        if listener_step(l, listener_matches, 0) is Found {
            lemma_listener_step_found(l, listener_matches, 0);
            assert(paired(l, listener_matches).skip(0) =~= paired(l, listener_matches));
        }
    }
}

/// Each line of the `ps` listing is judged on its own: the ssh clients found in
/// two listings one after the other are those of the first followed by those
/// of the second, wherever a matching line stands.
pub proof fn lemma_rule_pids_concat(
    a: Seq<Seq<char>>,
    b: Seq<Seq<char>>,
    local_port: u16,
    remote_port: u16,
    remote_host: Seq<char>,
)
    ensures
        rule_pids_in_lines(a + b, local_port, remote_port, remote_host) == rule_pids_in_lines(
            a,
            local_port,
            remote_port,
            remote_host,
        ) + rule_pids_in_lines(b, local_port, remote_port, remote_host),
    decreases b.len(),
{
    if b.len() == 0 {
        assert(a + b =~= a);
        assert(rule_pids_in_lines(a, local_port, remote_port, remote_host) + Seq::<u32>::empty()
            =~= rule_pids_in_lines(a, local_port, remote_port, remote_host));
    } else {
        lemma_rule_pids_concat(a, b.drop_last(), local_port, remote_port, remote_host);
        assert((a + b).drop_last() =~= a + b.drop_last());
        assert((a + b).last() == b.last());
        let ra = rule_pids_in_lines(a, local_port, remote_port, remote_host);
        let rb = rule_pids_in_lines(b.drop_last(), local_port, remote_port, remote_host);
        assert forall|x: u32| (ra + rb).push(x) =~= ra + rb.push(x) by {}
    }
}

/// A line whose first word is a process id and whose command is the rule's
/// ssh client contributes that process id, whatever lines surround it.
pub proof fn lemma_rule_pid_line_found(
    a: Seq<Seq<char>>,
    line: Seq<char>,
    b: Seq<Seq<char>>,
    pid: u32,
    local_port: u16,
    remote_port: u16,
    remote_host: Seq<char>,
)
    requires
        words(trim(line)).len() > 0,
        parse_unsigned(words(trim(line))[0], u32::MAX as int) == Some(pid as int),
        command_matches(
            join_words(words(trim(line)).drop_first()),
            local_port,
            remote_port,
            remote_host,
        ),
    ensures
        rule_pids_in_lines(a + seq![line] + b, local_port, remote_port, remote_host).contains(pid),
{
    lemma_rule_pids_concat(a + seq![line], b, local_port, remote_port, remote_host);
    lemma_rule_pids_concat(a, seq![line], local_port, remote_port, remote_host);
    let one = seq![line];
    assert(one.drop_last() =~= Seq::<Seq<char>>::empty());
    assert(one.last() == line);
    assert(rule_pids_in_lines(one.drop_last(), local_port, remote_port, remote_host) =~= Seq::<
        u32,
    >::empty());
    let r1 = rule_pids_in_lines(one, local_port, remote_port, remote_host);
    assert(r1 =~= seq![pid]);
    let ra = rule_pids_in_lines(a, local_port, remote_port, remote_host);
    let rb = rule_pids_in_lines(b, local_port, remote_port, remote_host);
    assert((ra + r1 + rb)[ra.len() as int] == pid);
}

/// Each line of the `lsof -t` listing is read on its own: the process ids of
/// two listings one after the other are those of the first followed by those
/// of the second.
pub proof fn lemma_pids_in_lines_concat(a: Seq<Seq<char>>, b: Seq<Seq<char>>)
    ensures
        pids_in_lines(a + b) == pids_in_lines(a) + pids_in_lines(b),
    decreases b.len(),
{
    if b.len() == 0 {
        assert(a + b =~= a);
        assert(pids_in_lines(a) + Seq::<u32>::empty() =~= pids_in_lines(a));
    } else {
        lemma_pids_in_lines_concat(a, b.drop_last());
        assert((a + b).drop_last() =~= a + b.drop_last());
        assert((a + b).last() == b.last());
        let ra = pids_in_lines(a);
        let rb = pids_in_lines(b.drop_last());
        assert forall|x: u32| (ra + rb).push(x) =~= ra + rb.push(x) by {}
    }
}

/// Every name given is reported exactly once: as a rule found when the table
/// has it, else as not found.
pub proof fn lemma_known_unknown_partition(names: Seq<Seq<char>>, rules: Map<Seq<char>, RuleView>)
    ensures
        known_names(names, rules).len() + unknown_names(names, rules).len() == names.len(),
        forall|k: Seq<char>|
            #[trigger] names.contains(k) ==> (rules.dom().contains(k) ==> known_names(
                names,
                rules,
            ).contains(k)) && (!rules.dom().contains(k) ==> unknown_names(names, rules).contains(k)),
        forall|k: Seq<char>| #[trigger] known_names(names, rules).contains(k) ==> rules.dom().contains(k),
        forall|k: Seq<char>| #[trigger] unknown_names(names, rules).contains(k) ==> !rules.dom().contains(k),
    decreases names.len(),
{
    if names.len() > 0 {
        let rest = names.drop_last();
        let x = names.last();
        lemma_known_unknown_partition(rest, rules);
        let k0 = known_names(rest, rules);
        let u0 = unknown_names(rest, rules);
        let kn = known_names(names, rules);
        let un = unknown_names(names, rules);
        assert forall|k: Seq<char>| #[trigger] names.contains(k) implies (rest.contains(k) || k == x) by {
            if k != x {
                let i = choose|i: int| 0 <= i < names.len() && names[i] == k;
                assert(rest[i] == k);
            }
        }
        assert forall|k: Seq<char>| k0.contains(k) implies kn.contains(k) by {
            let i = choose|i: int| 0 <= i < k0.len() && k0[i] == k;
            assert(kn[i] == k);
        }
        assert forall|k: Seq<char>| u0.contains(k) implies un.contains(k) by {
            let i = choose|i: int| 0 <= i < u0.len() && u0[i] == k;
            assert(un[i] == k);
        }
        assert forall|k: Seq<char>| #[trigger] kn.contains(k) implies rules.dom().contains(k) by {
            let i = choose|i: int| 0 <= i < kn.len() && kn[i] == k;
            if i < k0.len() {
                assert(k0[i] == k);
                assert(k0.contains(k));
            }
        }
        assert forall|k: Seq<char>| #[trigger] un.contains(k) implies !rules.dom().contains(k) by {
            let i = choose|i: int| 0 <= i < un.len() && un[i] == k;
            if i < u0.len() {
                assert(u0[i] == k);
                assert(u0.contains(k));
            }
        }
        if rules.dom().contains(x) {
            assert(kn[kn.len() - 1] == x);
        } else {
            assert(un[un.len() - 1] == x);
        }
    }
}

} // verus!
