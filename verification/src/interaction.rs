//! The checks and picks behind the interactive prompts.
use vstd::prelude::*;

use crate::cmd::common::{PortForwardRule, RuleTable};
use crate::services::make_rule;
use crate::text::{str_eq, string_views};

verus! {

/// Why a typed rule name is refused.
pub enum NameError {
    /// Another rule has this name.
    Taken(String),
    /// `all` is reserved for "every rule".
    Keyword,
}

impl NameError {
    /// The message shown for this error.
    pub fn message(&self) -> (r: String)
        ensures
            r@ == match self {
                NameError::Taken(n) => "Name: '"@ + n@ + "' already exists"@,
                NameError::Keyword => "'all' is keyword , please input another name."@,
            },
    {
        match self {
            NameError::Taken(n) => String::from_str("Name: '").concat(n.as_str()).concat(
                "' already exists",
            ),
            NameError::Keyword => String::from_str("'all' is keyword , please input another name."),
        }
    }
}

/// Checks the name typed for a new rule: it must be free and not `all`.
pub fn validate_new_name(rules: &RuleTable, input: &String) -> (r: Result<(), NameError>)
    ensures
        rules@.dom().contains(input@) ==> (r matches Err(NameError::Taken(n)) && n@ == input@),
        !rules@.dom().contains(input@) && input@ == "all"@ ==> r matches Err(NameError::Keyword),
        !rules@.dom().contains(input@) && input@ != "all"@ ==> r is Ok,
{
    if rules.contains_key(input) {
        return Err(NameError::Taken(input.clone()));
    }
    if str_eq(input.as_str(), "all") {
        return Err(NameError::Keyword);
    }
    Ok(())
}

/// Checks the name typed when editing rule `current`: it may keep its name,
/// but not take another rule's.
pub fn validate_renamed(rules: &RuleTable, input: &String, current: &String) -> (r: Result<
    (),
    NameError,
>)
    ensures
        rules@.dom().contains(input@) && input@ != current@ ==> (r matches Err(NameError::Taken(n))
            && n@ == input@),
        !(rules@.dom().contains(input@) && input@ != current@) ==> r is Ok,
{
    if rules.contains_key(input) && !input.eq(current) {
        return Err(NameError::Taken(input.clone()));
    }
    Ok(())
}

/// The rule the add form builds: not running, no process.
pub fn new_rule_from_form(local_port: u16, remote_port: u16, remote_host: String) -> (r:
    PortForwardRule)
    ensures
        r.local_port == local_port,
        r.remote_port == remote_port,
        r.remote_host@ == remote_host@,
        !r.status,
        r.pid is None,
{
    make_rule(local_port, remote_port, remote_host, false, None)
}

/// The rule the edit form builds: the typed settings, keeping the state of `rule`.
pub fn updated_rule_from_form(
    rule: &PortForwardRule,
    local_port: u16,
    remote_port: u16,
    remote_host: String,
) -> (r: PortForwardRule)
    ensures
        r.local_port == local_port,
        r.remote_port == remote_port,
        r.remote_host@ == remote_host@,
        r.status == rule.status,
        r.pid == rule.pid,
{
    make_rule(local_port, remote_port, remote_host, rule.status, rule.pid)
}

/// The rule picked from `names`: the entry at `choice`, except that the last
/// entry of the list is never taken.
pub fn select_rule(names: &Vec<String>, choice: Option<usize>) -> (r: Option<String>)
    requires
        choice is Some ==> names.len() > 0,
    ensures
        match choice {
            Some(i) => if i < names.len() - 1 {
                r matches Some(n) && n@ == names@[i as int]@
            } else {
                r is None
            },
            None => r is None,
        },
{
    match choice {
        Some(i) => if i < names.len() - 1 {
            Some(names[i].clone())
        } else {
            None
        },
        None => None,
    }
}

/// The rules picked from `names` by their positions, in the order picked.
pub fn select_rules(names: &Vec<String>, picked: &Vec<usize>) -> (r: Vec<String>)
    requires
        forall|k: int| 0 <= k < picked.len() ==> #[trigger] picked@[k] < names.len(),
    ensures
        r.len() == picked.len(),
        forall|k: int| 0 <= k < picked.len() ==> #[trigger] r@[k]@ == names@[picked@[k] as int]@,
{
    let mut out: Vec<String> = Vec::new();
    for k in 0..picked.len()
        invariant
            forall|j: int| 0 <= j < picked.len() ==> #[trigger] picked@[j] < names.len(),
            out.len() == k,
            forall|j: int| 0 <= j < k ==> #[trigger] out@[j]@ == names@[picked@[j] as int]@,
    {
        out.push(names[picked[k]].clone());
    }
    out
}

/// The names of all rules, in table order.
pub fn get_rules_names(rules: &RuleTable) -> (r: Vec<String>)
    ensures
        string_views(r@) == rules.names(),
{
    rules.names_vec()
}

} // verus!
