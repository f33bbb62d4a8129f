//! `edit`: replaces a stopped rule, possibly under a new name.
use vstd::prelude::*;

use crate::cmd::common::{PortForwardRule, RuleTable, RuleView};

verus! {

/// What `edit` finds for the rule it was asked to edit.
pub enum EditTarget {
    /// No rule has the name; nothing happens.
    NotFound,
    /// The rule runs and must be stopped first.
    Running,
    /// The rule can be edited; this is its current value.
    Editable(PortForwardRule),
}

/// Looks up the rule to edit.
pub fn edit_target(rules: &RuleTable, name: &String) -> (r: EditTarget)
    requires
        rules.wf(),
    ensures
        !rules@.dom().contains(name@) ==> r is NotFound,
        rules@.dom().contains(name@) && rules@[name@].status ==> r is Running,
        rules@.dom().contains(name@) && !rules@[name@].status ==> (r matches EditTarget::Editable(
            rule,
        ) && rule@ == rules@[name@]),
{
    match rules.get(name) {
        None => EditTarget::NotFound,
        Some(rule) => if rule.status {
            EditTarget::Running
        } else {
            EditTarget::Editable(rule.duplicate())
        },
    }
}

/// What an edit did.
pub enum EditOutcome {
    /// Another rule already has the new name; nothing changed.
    NameTaken(String),
    /// The rule is unchanged.
    Unchanged(String),
    /// The rule was replaced and renamed.
    Renamed { from: String, to: String },
    /// The rule was replaced under its name.
    Updated(String),
}

/// The view of an edit's outcome.
pub enum EditOutcomeView {
    NameTaken(Seq<char>),
    Unchanged(Seq<char>),
    Renamed { from: Seq<char>, to: Seq<char> },
    Updated(Seq<char>),
}

impl View for EditOutcome {
    type V = EditOutcomeView;

    open spec fn view(&self) -> EditOutcomeView {
        match self {
            EditOutcome::NameTaken(n) => EditOutcomeView::NameTaken(n@),
            EditOutcome::Unchanged(n) => EditOutcomeView::Unchanged(n@),
            EditOutcome::Renamed { from, to } => EditOutcomeView::Renamed { from: from@, to: to@ },
            EditOutcome::Updated(n) => EditOutcomeView::Updated(n@),
        }
    }
}

/// What editing rule `name` into `new_rule` under `new_name` does.
pub open spec fn edit_outcome(
    rules: Map<Seq<char>, RuleView>,
    name: Seq<char>,
    new_name: Seq<char>,
    new_rule: RuleView,
) -> EditOutcomeView {
    if new_name != name && rules.dom().contains(new_name) {
        EditOutcomeView::NameTaken(new_name)
    } else if new_rule == rules[name] && new_name == name {
        EditOutcomeView::Unchanged(name)
    } else if new_name != name {
        EditOutcomeView::Renamed { from: name, to: new_name }
    } else {
        EditOutcomeView::Updated(name)
    }
}

/// Replaces the rule `name`, which exists, by `new_rule` under `new_name`,
/// unless the new name is taken by another rule or nothing changes.
pub fn edit_rule(
    rules: &mut RuleTable,
    name: &String,
    new_name: String,
    new_rule: PortForwardRule,
) -> (r: EditOutcome)
    requires
        old(rules).wf(),
        old(rules)@.dom().contains(name@),
    ensures
        final(rules).wf(),
        r@ == edit_outcome(old(rules)@, name@, new_name@, new_rule@),
        (r is NameTaken || r is Unchanged) ==> final(rules)@ == old(rules)@,
        (r is Renamed || r is Updated) ==> final(rules)@ == old(rules)@.remove(name@).insert(
            new_name@,
            new_rule@,
        ),
{
    let renamed = !new_name.eq(name);
    if renamed && rules.contains_key(&new_name) {
        return EditOutcome::NameTaken(new_name);
    }
    let current = rules.get(name).unwrap().duplicate();
    if new_rule.same_as(&current) && !renamed {
        return EditOutcome::Unchanged(new_name);
    }
    rules.remove(name);
    let to = new_name.clone();
    rules.insert(new_name, new_rule);
    if renamed {
        EditOutcome::Renamed { from: name.clone(), to }
    } else {
        EditOutcome::Updated(to)
    }
}

/// An edit is reported unchanged only when the new rule equals the current one
/// in every field and the name is kept; otherwise, unless the new name is
/// another rule's, the rule is replaced and the table then maps the new name
/// to the new rule.
pub proof fn lemma_edit_unchanged_only_when_equal(
    rules: Map<Seq<char>, RuleView>,
    name: Seq<char>,
    new_name: Seq<char>,
    new_rule: RuleView,
)
    requires
        rules.dom().contains(name),
    ensures
        edit_outcome(rules, name, new_name, new_rule) is Unchanged ==> new_rule == rules[name]
            && new_name == name,
        (new_rule != rules[name] || new_name != name) && !(new_name != name && rules.dom().contains(
            new_name,
        )) ==> (edit_outcome(rules, name, new_name, new_rule) is Renamed || edit_outcome(
            rules,
            name,
            new_name,
            new_rule,
        ) is Updated),
        rules.remove(name).insert(new_name, new_rule)[new_name] == new_rule,
{
}

impl EditOutcome {
    /// The line printed for this outcome.
    pub fn message(&self) -> (r: String)
        ensures
            r@ == match self@ {
                EditOutcomeView::NameTaken(n) => "A rule with the name '"@ + n
                    + "' already exists. Please choose a different name."@,
                EditOutcomeView::Unchanged(n) => "No changes were made to the rule '"@ + n + "'."@,
                EditOutcomeView::Renamed { from, to } => "Rule '"@ + from + "' has been updated to '"@
                    + to + "'."@,
                EditOutcomeView::Updated(n) => "Rule '"@ + n + "' has been updated."@,
            },
    {
        match self {
            EditOutcome::NameTaken(n) => String::from_str("A rule with the name '").concat(
                n.as_str(),
            ).concat("' already exists. Please choose a different name."),
            EditOutcome::Unchanged(n) => String::from_str(
                "No changes were made to the rule '",
            ).concat(n.as_str()).concat("'."),
            EditOutcome::Renamed { from, to } => String::from_str("Rule '").concat(
                from.as_str(),
            ).concat("' has been updated to '").concat(to.as_str()).concat("'."),
            EditOutcome::Updated(n) => String::from_str("Rule '").concat(n.as_str()).concat(
                "' has been updated.",
            ),
        }
    }
}

} // verus!
