//! `stop`: stops the rules named, picked, or all of them.
use vstd::prelude::*;

use crate::cmd::check::{pick, plural};
use crate::cmd::common::{RuleSelection, is_all_keyword, selection};
use crate::text::{join_strings, join_with, string_views};

verus! {

/// Which rules `stop` works on (see [`selection`]).
pub fn stop_forward(names: Vec<String>) -> (r: RuleSelection)
    ensures
        names@.len() == 0 ==> r is Select,
        is_all_keyword(string_views(names@)) ==> r is All,
        names@.len() > 0 && !is_all_keyword(string_views(names@)) ==> (r matches RuleSelection::Named(
            n,
        ) && string_views(n@) == string_views(names@)),
{
    selection(names)
}

/// The question asked before stopping picked rules.
pub fn stop_confirm_prompt(names: &Vec<String>) -> (r: String)
    ensures
        r@ == "Are you sure you want to stop "@ + plural(names@.len(), "this"@, "these"@) + " rule"@
            + plural(names@.len(), ""@, "s"@) + ": "@ + join_with(string_views(names@), ", "@)
            + "?"@,
{
    let n = names.len();
    String::from_str("Are you sure you want to stop ").concat(pick(n, "this", "these")).concat(
        " rule",
    ).concat(pick(n, "", "s")).concat(": ").concat(join_strings(names, ", ").as_str()).concat("?")
}

/// The line printed once picked rules are stopped.
pub fn stopped_message(count: usize) -> (r: String)
    ensures
        r@ == plural(count as nat, "Rule"@, "Rules"@) + " rule"@ + plural(count as nat, ""@, "s"@)
            + " stopped."@,
{
    String::from_str(pick(count, "Rule", "Rules")).concat(" rule").concat(pick(count, "", "s")).concat(
        " stopped.",
    )
}

} // verus!
