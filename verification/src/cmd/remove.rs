//! `remove`: deletes stopped rules after confirmation.
use vstd::prelude::*;

use crate::cmd::check::{pick, plural};
use crate::cmd::common::{RuleSelection, RuleTable, RuleView, is_all_keyword, selection};
use crate::text::{join_strings, join_with, lemma_string_views_push, string_views};

verus! {

/// The names of `names` sorted for removal: `(removable, running, unknown)`.
pub open spec fn remove_classes(names: Seq<Seq<char>>, rules: Map<Seq<char>, RuleView>) -> (
    Seq<Seq<char>>,
    Seq<Seq<char>>,
    Seq<Seq<char>>,
)
    decreases names.len(),
{
    if names.len() == 0 {
        (seq![], seq![], seq![])
    } else {
        let (a, b, c) = remove_classes(names.drop_last(), rules);
        let name = names.last();
        if !rules.dom().contains(name) {
            (a, b, c.push(name))
        } else if rules[name].status {
            (a, b.push(name), c)
        } else {
            (a.push(name), b, c)
        }
    }
}

/// Which rules a removal would delete.
pub struct RemovePlan {
    /// Stopped rules, to delete once confirmed.
    pub to_remove: Vec<String>,
    /// Running rules, which are kept.
    pub running: Vec<String>,
    /// Names that are no rule.
    pub missing: Vec<String>,
}

/// Sorts `names` for removal (see [`remove_classes`]).
pub fn removal_plan(names: &Vec<String>, rules: &RuleTable) -> (r: RemovePlan)
    requires
        rules.wf(),
    ensures
        (string_views(r.to_remove@), string_views(r.running@), string_views(r.missing@))
            == remove_classes(string_views(names@), rules@),
{
    let ghost ns = string_views(names@);
    let mut plan = RemovePlan { to_remove: Vec::new(), running: Vec::new(), missing: Vec::new() };
    assert(string_views(plan.to_remove@) =~= Seq::<Seq<char>>::empty());
    assert(string_views(plan.running@) =~= Seq::<Seq<char>>::empty());
    assert(string_views(plan.missing@) =~= Seq::<Seq<char>>::empty());
    assert(ns.take(0) =~= Seq::<Seq<char>>::empty());
    for i in 0..names.len()
        invariant
            ns == string_views(names@),
            rules.wf(),
            (
                string_views(plan.to_remove@),
                string_views(plan.running@),
                string_views(plan.missing@),
            ) == remove_classes(ns.take(i as int), rules@),
    {
        assert(ns.take(i + 1).drop_last() =~= ns.take(i as int));
        let name = names[i].clone();
        assert(ns.take(i + 1).last() == name@);
        match rules.get(&name) {
            None => {
                proof {
                    lemma_string_views_push(plan.missing@, name);
                }
                plan.missing.push(name);
            },
            Some(rule) => {
                if rule.status {
                    proof {
                        lemma_string_views_push(plan.running@, name);
                    }
                    plan.running.push(name);
                } else {
                    proof {
                        lemma_string_views_push(plan.to_remove@, name);
                    }
                    plan.to_remove.push(name);
                }
            },
        }
    }
    assert(ns.take(names.len() as int) =~= ns);
    plan
}

/// Sorts every rule of the table for removal, in table order.
pub fn remove_all(rules: &RuleTable) -> (r: RemovePlan)
    requires
        rules.wf(),
    ensures
        (string_views(r.to_remove@), string_views(r.running@), string_views(r.missing@))
            == remove_classes(rules.names(), rules@),
{
    let names = rules.names_vec();
    removal_plan(&names, rules)
}

/// The question asked before removing `names`; the removal of every rule puts
/// a space before the question mark.
pub open spec fn confirm_text(names: Seq<Seq<char>>, spaced: bool) -> Seq<char> {
    let n = names.len();
    "Are you sure you want to remove "@ + plural(n, "this"@, "these"@) + " rule"@ + plural(
        n,
        ""@,
        "s"@,
    ) + ": "@ + join_with(names, ", "@) + (if spaced {
        " ?"@
    } else {
        "?"@
    }) + " This action cannot be undone"@
}

/// Builds [`confirm_text`].
pub fn confirm_prompt(names: &Vec<String>, spaced: bool) -> (r: String)
    ensures
        r@ == confirm_text(string_views(names@), spaced),
{
    let n = names.len();
    String::from_str("Are you sure you want to remove ").concat(pick(n, "this", "these")).concat(
        " rule",
    ).concat(pick(n, "", "s")).concat(": ").concat(join_strings(names, ", ").as_str()).concat(
        if spaced {
            " ?"
        } else {
            "?"
        },
    ).concat(" This action cannot be undone")
}

/// `rules` without each of `names`, in order.
pub open spec fn removed_all(rules: Map<Seq<char>, RuleView>, names: Seq<Seq<char>>) -> Map<
    Seq<char>,
    RuleView,
>
    decreases names.len(),
{
    if names.len() == 0 {
        rules
    } else {
        removed_all(rules, names.drop_last()).remove(names.last())
    }
}

/// The plan sorts every name given into exactly one list: a stopped rule goes to
/// the removals, a running one to the rules kept, any other name to the
/// missing; the three lists together are as long as the names given.
pub proof fn lemma_remove_classes_partition(names: Seq<Seq<char>>, rules: Map<Seq<char>, RuleView>)
    ensures
        forall|k: Seq<char>|
            #[trigger] names.contains(k) && rules.dom().contains(k) && !rules[k].status
                ==> remove_classes(names, rules).0.contains(k),
        forall|k: Seq<char>|
            #[trigger] names.contains(k) && rules.dom().contains(k) && rules[k].status
                ==> remove_classes(names, rules).1.contains(k),
        forall|k: Seq<char>|
            #[trigger] names.contains(k) && !rules.dom().contains(k) ==> remove_classes(
                names,
                rules,
            ).2.contains(k),
        remove_classes(names, rules).0.len() + remove_classes(names, rules).1.len() + remove_classes(
            names,
            rules,
        ).2.len() == names.len(),
    decreases names.len(),
{
    if names.len() > 0 {
        let rest = names.drop_last();
        lemma_remove_classes_partition(rest, rules);
        let (a0, b0, c0) = remove_classes(rest, rules);
        let (a, b, c) = remove_classes(names, rules);
        let x = names.last();
        assert forall|k: Seq<char>| #[trigger] names.contains(k) implies (rest.contains(k) || k == x) by {
            if k != x {
                let i = choose|i: int| 0 <= i < names.len() && names[i] == k;
                assert(rest[i] == k);
            }
        }
        assert forall|k: Seq<char>| a0.contains(k) implies a.contains(k) by {
            let i = choose|i: int| 0 <= i < a0.len() && a0[i] == k;
            assert(a[i] == k);
        }
        assert forall|k: Seq<char>| b0.contains(k) implies b.contains(k) by {
            let i = choose|i: int| 0 <= i < b0.len() && b0[i] == k;
            assert(b[i] == k);
        }
        assert forall|k: Seq<char>| c0.contains(k) implies c.contains(k) by {
            let i = choose|i: int| 0 <= i < c0.len() && c0[i] == k;
            assert(c[i] == k);
        }
        if !rules.dom().contains(x) {
            assert(c[c.len() - 1] == x);
        } else if rules[x].status {
            assert(b[b.len() - 1] == x);
        } else {
            assert(a[a.len() - 1] == x);
        }
    }
}

/// The names to remove are rules of the table, and none of them runs.
pub proof fn lemma_remove_classes_stopped(names: Seq<Seq<char>>, rules: Map<Seq<char>, RuleView>)
    ensures
        forall|k: Seq<char>|
            #[trigger] remove_classes(names, rules).0.contains(k) ==> rules.dom().contains(k)
                && !rules[k].status,
    decreases names.len(),
{
    if names.len() > 0 {
        lemma_remove_classes_stopped(names.drop_last(), rules);
        let a0 = remove_classes(names.drop_last(), rules).0;
        let a = remove_classes(names, rules).0;
        assert forall|k: Seq<char>| #[trigger] a.contains(k) implies rules.dom().contains(k)
            && !rules[k].status by {
            let i = choose|i: int| 0 <= i < a.len() && a[i] == k;
            if i < a0.len() {
                assert(a0[i] == k);
                assert(a0.contains(k));
            }
        }
    }
}

/// Removing `names` keeps exactly the rules not among them, unchanged.
pub proof fn lemma_removed_all(rules: Map<Seq<char>, RuleView>, names: Seq<Seq<char>>)
    ensures
        forall|k: Seq<char>|
            #[trigger] removed_all(rules, names).dom().contains(k) == (rules.dom().contains(k)
                && !names.contains(k)),
        forall|k: Seq<char>|
            #[trigger] removed_all(rules, names).dom().contains(k) ==> removed_all(rules, names)[k]
                == rules[k],
    decreases names.len(),
{
    if names.len() > 0 {
        let rest = names.drop_last();
        lemma_removed_all(rules, rest);
        assert forall|k: Seq<char>| #[trigger] names.contains(k) == (rest.contains(k) || k == names.last()) by {
            if names.contains(k) && k != names.last() {
                let i = choose|i: int| 0 <= i < names.len() && names[i] == k;
                assert(rest[i] == k);
            }
            if rest.contains(k) {
                let i = choose|i: int| 0 <= i < rest.len() && rest[i] == k;
                assert(names[i] == k);
            }
            assert(names[names.len() - 1] == names.last());
        }
        let m = removed_all(rules, names);
        let m0 = removed_all(rules, rest);
        assert(m == m0.remove(names.last()));
        assert forall|k: Seq<char>| #[trigger] m.dom().contains(k) == (rules.dom().contains(k)
            && !names.contains(k)) by {
            assert(m0.dom().contains(k) == (rules.dom().contains(k) && !rest.contains(k)));
            assert(names.contains(k) == (rest.contains(k) || k == names.last()));
        }
        assert forall|k: Seq<char>| #[trigger] m.dom().contains(k) implies m[k] == rules[k] by {
            assert(m0.dom().contains(k));
        }
    }
}

/// Whatever is asked to be removed, by name, by pick or as `all`, a removal
/// that is carried out deletes only stopped rules: every rule left is as it
/// was, and every running rule is left.
pub proof fn lemma_removal_keeps_running(names: Seq<Seq<char>>, rules: Map<Seq<char>, RuleView>)
    ensures
        forall|k: Seq<char>|
            #[trigger] removed_all(rules, remove_classes(names, rules).0).dom().contains(k) ==> rules.dom().contains(k)
                && removed_all(rules, remove_classes(names, rules).0)[k] == rules[k],
        forall|k: Seq<char>|
            rules.dom().contains(k) && #[trigger] rules[k].status ==> removed_all(
                rules,
                remove_classes(names, rules).0,
            ).dom().contains(k),
{
    let a = remove_classes(names, rules).0;
    lemma_remove_classes_stopped(names, rules);
    lemma_removed_all(rules, a);
    assert forall|k: Seq<char>| rules.dom().contains(k) && #[trigger] rules[k].status implies removed_all(
        rules,
        a,
    ).dom().contains(k) by {
        if a.contains(k) {
        }
    }
}

/// Deletes the rules `names`.
pub fn remove_names(rules: &mut RuleTable, names: &Vec<String>)
    requires
        old(rules).wf(),
    ensures
        final(rules).wf(),
        final(rules)@ == removed_all(old(rules)@, string_views(names@)),
{
    let ghost m0 = rules@;
    let ghost ns = string_views(names@);
    assert(ns.take(0) =~= Seq::<Seq<char>>::empty());
    for i in 0..names.len()
        invariant
            ns == string_views(names@),
            rules.wf(),
            rules@ == removed_all(m0, ns.take(i as int)),
    {
        assert(ns.take(i + 1).drop_last() =~= ns.take(i as int));
        assert(ns.take(i + 1).last() == names@[i as int]@);
        rules.remove(&names[i]);
    }
    assert(ns.take(names.len() as int) =~= ns);
}

/// Which rules `remove` works on (see [`selection`]).
pub fn remove_rules(names: Vec<String>) -> (r: RuleSelection)
    ensures
        names@.len() == 0 ==> r is Select,
        is_all_keyword(string_views(names@)) ==> r is All,
        names@.len() > 0 && !is_all_keyword(string_views(names@)) ==> (r matches RuleSelection::Named(
            n,
        ) && string_views(n@) == string_views(names@)),
{
    selection(names)
}

} // verus!
