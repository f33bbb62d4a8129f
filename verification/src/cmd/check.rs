//! `check`: tells which rules run, which never started, and which stopped on
//! their own.
use vstd::prelude::*;

use crate::cmd::common::{RuleSelection, RuleTable, RuleView, is_all_keyword, selection};
use crate::text::{join_strings, join_with, lemma_string_views_push, string_views};
use crate::utils::confirmed_names;

verus! {

/// `one` when there is one item, else `many`.
pub open spec fn plural(n: nat, one: Seq<char>, many: Seq<char>) -> Seq<char> {
    if n == 1 {
        one
    } else {
        many
    }
}

/// Picks `one` or `many` by the count.
pub fn pick<'a>(n: usize, one: &'a str, many: &'a str) -> (r: &'a str)
    ensures
        r@ == plural(n as nat, one@, many@),
{
    if n == 1 {
        one
    } else {
        many
    }
}

/// The rules named by `names`, sorted by what was found: `(not started,
/// running, stopped on their own)`. `listening[i]` tells whether a process
/// listens on the local port of the rule `names[i]`; unknown names are skipped.
pub open spec fn check_classes(
    names: Seq<Seq<char>>,
    rules: Map<Seq<char>, RuleView>,
    listening: Seq<bool>,
    n: int,
) -> (Seq<Seq<char>>, Seq<Seq<char>>, Seq<Seq<char>>)
    decreases n,
{
    if n <= 0 {
        (seq![], seq![], seq![])
    } else {
        let (a, b, c) = check_classes(names, rules, listening, n - 1);
        let name = names[n - 1];
        let up = listening[n - 1];
        if !rules.dom().contains(name) {
            (a, b, c)
        } else if rules[name].status {
            if up {
                (a, b.push(name), c)
            } else {
                (a, b, c.push(name))
            }
        } else if !up {
            (a.push(name), b, c)
        } else {
            (a, b, c)
        }
    }
}

/// What `check` found.
pub struct CheckReport {
    /// Rules marked stopped with nothing listening on their port.
    pub not_started: Vec<String>,
    /// Rules marked running with a listener on their port.
    pub running: Vec<String>,
    /// Rules marked running with nothing listening on their port.
    pub stopped: Vec<String>,
}

/// Sorts the rules `names` by state (see [`check_classes`]).
pub fn check_running(names: &Vec<String>, rules: &RuleTable, listening: &Vec<bool>) -> (r:
    CheckReport)
    requires
        rules.wf(),
        listening.len() == names.len(),
    ensures
        (string_views(r.not_started@), string_views(r.running@), string_views(r.stopped@))
            == check_classes(string_views(names@), rules@, listening@, names.len() as int),
{
    let ghost ns = string_views(names@);
    let mut report = CheckReport { not_started: Vec::new(), running: Vec::new(), stopped: Vec::new() };
    assert(string_views(report.not_started@) =~= Seq::<Seq<char>>::empty());
    assert(string_views(report.running@) =~= Seq::<Seq<char>>::empty());
    assert(string_views(report.stopped@) =~= Seq::<Seq<char>>::empty());
    for i in 0..names.len()
        invariant
            ns == string_views(names@),
            listening.len() == names.len(),
            rules.wf(),
            (
                string_views(report.not_started@),
                string_views(report.running@),
                string_views(report.stopped@),
            ) == check_classes(ns, rules@, listening@, i as int),
    {
        let name = names[i].clone();
        assert(name@ == ns[i as int]);
        match rules.get(&name) {
            None => {},
            Some(rule) => {
                if rule.status {
                    if listening[i] {
                        proof {
                            lemma_string_views_push(report.running@, name);
                        }
                        report.running.push(name);
                    } else {
                        proof {
                            lemma_string_views_push(report.stopped@, name);
                        }
                        report.stopped.push(name);
                    }
                } else if !listening[i] {
                    proof {
                        lemma_string_views_push(report.not_started@, name);
                    }
                    report.not_started.push(name);
                }
            },
        }
    }
    report
}

/// The line printed for rules that are not running.
pub open spec fn not_running_text(names: Seq<Seq<char>>) -> Seq<char> {
    let n = names.len();
    plural(n, "This"@, "These"@) + " rule"@ + plural(n, ""@, "s"@) + " "@ + plural(n, "is"@, "are"@)
        + " not running: "@ + join_with(names, ", "@) + ", you can start "@ + plural(
        n,
        "it"@,
        "them"@,
    ) + " by 'rsp start "@ + join_with(names, " "@) + "'."@
}

/// Builds [`not_running_text`].
pub fn not_running_message(names: &Vec<String>) -> (r: String)
    ensures
        r@ == not_running_text(string_views(names@)),
{
    let n = names.len();
    String::from_str(pick(n, "This", "These")).concat(" rule").concat(pick(n, "", "s")).concat(
        " ",
    ).concat(pick(n, "is", "are")).concat(" not running: ").concat(
        join_strings(names, ", ").as_str(),
    ).concat(", you can start ").concat(pick(n, "it", "them")).concat(" by 'rsp start ").concat(
        join_strings(names, " ").as_str(),
    ).concat("'.")
}

/// The line printed for rules that run.
pub open spec fn running_text(names: Seq<Seq<char>>) -> Seq<char> {
    let n = names.len();
    plural(n, "This"@, "These"@) + " rule"@ + plural(n, ""@, "s"@) + " "@ + plural(n, "is"@, "are"@)
        + " running: "@ + join_with(names, ", "@) + ", you can stop "@ + plural(n, "it"@, "them"@)
        + " by 'rsp stop "@ + join_with(names, " "@) + "'."@
}

/// Builds [`running_text`].
pub fn running_message(names: &Vec<String>) -> (r: String)
    ensures
        r@ == running_text(string_views(names@)),
{
    let n = names.len();
    String::from_str(pick(n, "This", "These")).concat(" rule").concat(pick(n, "", "s")).concat(
        " ",
    ).concat(pick(n, "is", "are")).concat(" running: ").concat(
        join_strings(names, ", ").as_str(),
    ).concat(", you can stop ").concat(pick(n, "it", "them")).concat(" by 'rsp stop ").concat(
        join_strings(names, " ").as_str(),
    ).concat("'.")
}

/// The question asked about rules that stopped on their own.
pub open spec fn restart_text(names: Seq<Seq<char>>) -> Seq<char> {
    let n = names.len();
    plural(n, "This"@, "These"@) + " rule"@ + plural(n, ""@, "s"@) + " "@ + plural(
        n,
        "has"@,
        "have"@,
    ) + " terminated abnormally: "@ + join_with(names, ", "@) + ". Do you want to restart?"@
}

/// Builds [`restart_text`].
pub fn restart_prompt(names: &Vec<String>) -> (r: String)
    ensures
        r@ == restart_text(string_views(names@)),
{
    let n = names.len();
    String::from_str(pick(n, "This", "These")).concat(" rule").concat(pick(n, "", "s")).concat(
        " ",
    ).concat(pick(n, "has", "have")).concat(" terminated abnormally: ").concat(
        join_strings(names, ", ").as_str(),
    ).concat(". Do you want to restart?")
}

/// What the answer to [`restart_prompt`] asks for, as `(to start, to stop)`:
/// yes starts each rule that stopped on its own, no stops them all.
pub fn restart_plan(stopped: &Vec<String>, yes: bool) -> (r: (Vec<String>, Vec<String>))
    ensures
        yes ==> string_views(r.0@) == string_views(stopped@) && r.1@.len() == 0,
        !yes ==> r.0@.len() == 0 && string_views(r.1@) == string_views(stopped@),
{
    let all = confirmed_names(stopped, true);
    if yes {
        (all, Vec::new())
    } else {
        (Vec::new(), all)
    }
}

/// The line printed for names given to `check` that name no rule.
pub fn not_found_message(names: &Vec<String>) -> (r: String)
    ensures
        r@ == "Rules: "@ + join_with(string_views(names@), ","@) + " is not found."@,
{
    String::from_str("Rules: ").concat(join_strings(names, ",").as_str()).concat(" is not found.")
}

/// Which rules `check` works on (see [`selection`]).
pub fn check_rules(names: Vec<String>) -> (r: RuleSelection)
    ensures
        names@.len() == 0 ==> r is Select,
        is_all_keyword(string_views(names@)) ==> r is All,
        names@.len() > 0 && !is_all_keyword(string_views(names@)) ==> (r matches RuleSelection::Named(
            n,
        ) && string_views(n@) == string_views(names@)),
{
    selection(names)
}

} // verus!
