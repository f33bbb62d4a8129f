//! `add`: stores a new rule under a name that is not taken.
use vstd::prelude::*;

use crate::cmd::common::{PortForwardRule, RuleTable};

verus! {

/// The name of a new rule is taken.
pub enum AddError {
    AlreadyExists,
}

impl AddError {
    /// The message shown for this error.
    pub fn message(&self) -> (r: String)
        ensures
            r@ == "Rule already exists, please choose a different name."@,
    {
        String::from_str("Rule already exists, please choose a different name.")
    }
}

/// Stores `rule` under `name` unless a rule already has that name.
pub fn add_rule(rules: &mut RuleTable, name: String, rule: PortForwardRule) -> (r: Result<
    (),
    AddError,
>)
    requires
        old(rules).wf(),
    ensures
        final(rules).wf(),
        r is Ok <==> !old(rules)@.dom().contains(name@),
        r is Ok ==> final(rules)@ == old(rules)@.insert(name@, rule@),
        r is Err ==> final(rules)@ == old(rules)@,
{
    if rules.contains_key(&name) {
        return Err(AddError::AlreadyExists);
    }
    rules.insert(name, rule);
    Ok(())
}

} // verus!
