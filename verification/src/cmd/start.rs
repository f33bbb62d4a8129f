//! `start`: starts the rules named, picked, or all of them.
use vstd::prelude::*;

use crate::cmd::check::{pick, plural};
use crate::cmd::common::{RuleSelection, is_all_keyword, selection};
use crate::text::{join_strings, join_with, string_views};

verus! {

/// Which rules `start` works on: none given means pick, `all` alone means
/// every rule, anything else names rules (see [`selection`]).
pub fn start_forward(names: Vec<String>) -> (r: RuleSelection)
    ensures
        names@.len() == 0 ==> r is Select,
        is_all_keyword(string_views(names@)) ==> r is All,
        names@.len() > 0 && !is_all_keyword(string_views(names@)) ==> (r matches RuleSelection::Named(
            n,
        ) && string_views(n@) == string_views(names@)),
{
    selection(names)
}

/// The question asked before starting picked rules.
pub fn start_confirm_prompt(names: &Vec<String>) -> (r: String)
    ensures
        r@ == "Are you sure you want to start "@ + plural(names@.len(), "this"@, "these"@) + " rule"@
            + plural(names@.len(), ""@, "s"@) + ": "@ + join_with(string_views(names@), ", "@)
            + "? Running rules will not be affected"@,
{
    let n = names.len();
    String::from_str("Are you sure you want to start ").concat(pick(n, "this", "these")).concat(
        " rule",
    ).concat(pick(n, "", "s")).concat(": ").concat(join_strings(names, ", ").as_str()).concat(
        "? Running rules will not be affected",
    )
}

} // verus!
