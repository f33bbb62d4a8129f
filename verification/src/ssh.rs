//! The older forwarding path: the forward is started without binding to the
//! loopback address and its process is read from the `lsof -i:<port>` table.
use vstd::prelude::*;

use crate::cmd::common::{RuleTable, RuleView};
use crate::text::{
    ParseFailure,
    chars_of,
    lines,
    lines_of,
    parse_checked,
    parse_failure,
    parse_failure_text,
    views,
    words,
    words_of,
};

verus! {

/// Why no process id was read from the `lsof` table.
pub enum LsofPidError {
    /// The table has no second line, or that line has no second column.
    Missing,
    /// The second column of the second line is not a process id, for this reason.
    Unparsable(ParseFailure),
}

/// What reading the `lsof -i:<port>` table gives: the second column of its
/// second line (the first line is the header), parsed as a process id.
pub open spec fn lsof_pid(output: Seq<char>) -> Result<u32, LsofPidError> {
    let ls = lines(output);
    if ls.len() > 1 && words(ls[1]).len() > 1 {
        match parse_failure(words(ls[1])[1], u32::MAX as int) {
            None => Ok(crate::text::digits_value(crate::text::unsigned_digits(words(ls[1])[1])) as u32),
            Some(f) => Err(LsofPidError::Unparsable(f)),
        }
    } else {
        Err(LsofPidError::Missing)
    }
}

/// The text of an [`LsofPidError`].
pub open spec fn lsof_error_text(e: LsofPidError) -> Seq<char> {
    match e {
        LsofPidError::Missing => "Failed to get portforward process PID"@,
        LsofPidError::Unparsable(f) => parse_failure_text(f),
    }
}

impl LsofPidError {
    /// The message shown for this error.
    pub fn message(&self) -> (r: String)
        ensures
            r@ == lsof_error_text(*self),
    {
        match self {
            LsofPidError::Missing => String::from_str("Failed to get portforward process PID"),
            LsofPidError::Unparsable(f) => f.message(),
        }
    }
}

/// Reads the process id of the forward from the output of `lsof -i:<port>`.
pub fn get_pid(output: &str) -> (r: Result<u32, LsofPidError>)
    ensures
        r == lsof_pid(output@),
{
    let ls = lines_of(&chars_of(output));
    proof {
        assert(views(ls@).len() == ls@.len());
    }
    if ls.len() > 1 {
        let ws = words_of(&ls[1]);
        assert(views(ls@)[1] == ls@[1]@);
        if ws.len() > 1 {
            assert(views(ws@)[1] == ws@[1]@);
            match parse_checked(&ws[1], 4294967295) {
                Ok(v) => Ok(v),
                Err(f) => Err(LsofPidError::Unparsable(f)),
            }
        } else {
            Err(LsofPidError::Missing)
        }
    } else {
        Err(LsofPidError::Missing)
    }
}

/// Why the older forward could not be started.
pub enum ForwardError {
    /// ssh could not be run.
    Launch,
    /// ssh exited unsuccessfully; this is what it wrote to its error output.
    Exited(String),
    /// ssh ran but its process id could not be read.
    Pid(LsofPidError),
}

/// The view of a [`ForwardError`].
pub enum ForwardErrorView {
    Launch,
    Exited(Seq<char>),
    Pid(LsofPidError),
}

impl View for ForwardError {
    type V = ForwardErrorView;

    open spec fn view(&self) -> ForwardErrorView {
        match self {
            ForwardError::Launch => ForwardErrorView::Launch,
            ForwardError::Exited(e) => ForwardErrorView::Exited(e@),
            ForwardError::Pid(e) => ForwardErrorView::Pid(*e),
        }
    }
}

/// The text of a [`ForwardError`].
pub open spec fn forward_error_text(e: ForwardErrorView) -> Seq<char> {
    match e {
        ForwardErrorView::Launch => "Failed to execute SSH command"@,
        ForwardErrorView::Exited(t) => "SSH portforward process exited abnormally: "@ + t,
        ForwardErrorView::Pid(p) => lsof_error_text(p),
    }
}

impl ForwardError {
    /// The message shown for this error.
    pub fn message(&self) -> (r: String)
        ensures
            r@ == forward_error_text(self@),
    {
        match self {
            ForwardError::Launch => String::from_str("Failed to execute SSH command"),
            ForwardError::Exited(t) => String::from_str(
                "SSH portforward process exited abnormally: ",
            ).concat(t.as_str()),
            ForwardError::Pid(p) => p.message(),
        }
    }
}

/// What starting the older forward of rule `name` gives: `launched` is whether
/// ssh exited successfully with its error output, or `Err` when it could not be
/// run; `lsof_output` is the `lsof -i:<port>` table read after a successful
/// launch. On success the rule, when still there, is recorded as running.
pub open spec fn forward_outcome(
    launched: Result<(bool, Seq<char>), ()>,
    lsof_output: Seq<char>,
) -> Result<u32, ForwardErrorView> {
    match launched {
        Err(()) => Err(ForwardErrorView::Launch),
        Ok((ok, stderr)) => if !ok {
            Err(ForwardErrorView::Exited(stderr))
        } else {
            match lsof_pid(lsof_output) {
                Ok(p) => Ok(p),
                Err(e) => Err(ForwardErrorView::Pid(e)),
            }
        },
    }
}

/// Takes in how starting the older forward of rule `name` went (see
/// [`forward_outcome`]); on success records the process in the table.
pub fn portforward(
    rules: &mut RuleTable,
    name: &String,
    launched: Result<(bool, String), ()>,
    lsof_output: &str,
) -> (r: Result<u32, ForwardError>)
    requires
        old(rules).wf(),
    ensures
        final(rules).wf(),
        match r {
            Ok(p) => Ok::<u32, ForwardErrorView>(p),
            Err(e) => Err(e@),
        } == forward_outcome(
            match launched {
                Ok((ok, t)) => Ok((ok, t@)),
                Err(()) => Err(()),
            },
            lsof_output@,
        ),
        r matches Ok(pid) ==> (old(rules)@.dom().contains(name@) ==> final(rules)@ == old(
            rules,
        )@.insert(name@, RuleView { status: true, pid: Some(pid), ..old(rules)@[name@] })),
        !(r matches Ok(_) && old(rules)@.dom().contains(name@)) ==> final(rules)@ == old(rules)@,
{
    match launched {
        Err(()) => {
            return Err(ForwardError::Launch);
        },
        Ok((ok, t)) => {
            if !ok {
                return Err(ForwardError::Exited(t));
            }
        },
    }
    let pid = match get_pid(lsof_output) {
        Ok(p) => p,
        Err(e) => {
            return Err(ForwardError::Pid(e));
        },
    };
    rules.set_state(name, true, Some(pid));
    Ok(pid)
}

} // verus!
