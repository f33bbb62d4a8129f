//! Starting rules, as a state machine. For each rule the machine first checks
//! the other rules on the same local port, replaces ssh clients left from an
//! earlier start, checks the ssh client configuration and the listeners on
//! the port, has ssh launched, and then waits until the same process has held
//! the forward for every look. The caller performs each action and reports
//! what happened.
use vstd::prelude::*;

use crate::cmd::common::{PortForwardRule, RuleTable, RuleView, lemma_map_of_dom, lemma_map_of_row, names_of};
use crate::services::{HostForwardConflict, check_host_forward_conflict, conflict_text, first_conflict};
use crate::stop_run::{stopped, stopped_all};
use crate::text::{
    decimal,
    decimal_string,
    join_strings,
    join_with,
    lemma_string_views_push,
    lines,
    string_views,
};
use crate::utils::{loopback_forward, loopback_forward_arg};

verus! {

/// How many times the machine looks for the new forward's process.
pub const READY_PROBES: usize = 50;

/// Where a run stands.
#[derive(PartialEq, Eq, Structural, Clone, Copy)]
pub enum StartStage {
    Resolve,
    ListExisting,
    Kill,
    Config,
    Listeners,
    Listener,
    Launch,
    Ready,
    Saved,
    Failed,
}

/// Why starting failed.
pub enum StartError {
    /// No rule has this name.
    NotFound(String),
    /// Looking up another rule's process failed with this text.
    Lookup(String),
    /// Running rules already use the port.
    PortOccupied { port: u16, running: Vec<String>, name: String },
    /// An earlier ssh client of the rule could not be killed.
    ReplaceFailed { name: String, cause: String },
    /// The ssh client configuration forwards the same port elsewhere.
    Conflict(HostForwardConflict),
    /// A process that is not the rule's ssh client listens on the port.
    PortInUse(u16),
    /// ssh could not be run.
    Launch(String),
    /// ssh exited with this status.
    Exited { name: String, status: String },
    /// The forward did not come up for the given reason.
    NotReady { name: String, cause: String },
}

/// The value of a [`StartError`].
pub enum StartErrorView {
    NotFound(Seq<char>),
    Lookup(Seq<char>),
    PortOccupied { port: u16, running: Seq<Seq<char>>, name: Seq<char> },
    ReplaceFailed { name: Seq<char>, cause: Seq<char> },
    Conflict { host: Seq<char>, local_port: u16, destination: Seq<char>, remote_port: u16 },
    PortInUse(u16),
    Launch(Seq<char>),
    Exited { name: Seq<char>, status: Seq<char> },
    NotReady { name: Seq<char>, cause: Seq<char> },
}

impl View for StartError {
    type V = StartErrorView;

    open spec fn view(&self) -> StartErrorView {
        match self {
            StartError::NotFound(n) => StartErrorView::NotFound(n@),
            StartError::Lookup(t) => StartErrorView::Lookup(t@),
            StartError::PortOccupied { port, running, name } => StartErrorView::PortOccupied {
                port: *port,
                running: string_views(running@),
                name: name@,
            },
            StartError::ReplaceFailed { name, cause } => StartErrorView::ReplaceFailed {
                name: name@,
                cause: cause@,
            },
            StartError::Conflict(c) => StartErrorView::Conflict {
                host: c.host@,
                local_port: c.local_port,
                destination: c.destination@,
                remote_port: c.remote_port,
            },
            StartError::PortInUse(p) => StartErrorView::PortInUse(*p),
            StartError::Launch(t) => StartErrorView::Launch(t@),
            StartError::Exited { name, status } => StartErrorView::Exited {
                name: name@,
                status: status@,
            },
            StartError::NotReady { name, cause } => StartErrorView::NotReady {
                name: name@,
                cause: cause@,
            },
        }
    }
}

/// The text of a [`StartError`].
pub open spec fn start_error_text(e: StartErrorView) -> Seq<char> {
    match e {
        StartErrorView::NotFound(n) => "Rule '"@ + n + "' not found"@,
        StartErrorView::Lookup(t) => t,
        StartErrorView::PortOccupied { port, running, name } => "Local port "@ + decimal(
            port as nat,
        ) + " is already occupied by running rule(s): "@ + join_with(running, ", "@)
            + ". Stop that rule first before starting '"@ + name + "'."@,
        StartErrorView::ReplaceFailed { name, cause } =>
            "Failed to replace existing SSH process for rule '"@ + name + "'"@,
        StartErrorView::Conflict { host, local_port, destination, remote_port } => conflict_text(
            host,
            local_port,
            destination,
            remote_port,
        ),
        StartErrorView::PortInUse(p) => "Local port "@ + decimal(p as nat)
            + " is already in use by another process"@,
        StartErrorView::Launch(t) => "Failed to execute ssh command"@,
        StartErrorView::Exited { name, status } => "Failed to start '"@ + name
            + "': ssh exited with status "@ + status,
        StartErrorView::NotReady { name, cause } => "Failed to start '"@ + name + "'"@,
    }
}

impl StartError {
    /// The message shown for this error.
    pub fn message(&self) -> (r: String)
        ensures
            r@ == start_error_text(self@),
    {
        match self {
            StartError::NotFound(n) => String::from_str("Rule '").concat(n.as_str()).concat(
                "' not found",
            ),
            StartError::Lookup(t) => t.clone(),
            StartError::PortOccupied { port, running, name } => String::from_str(
                "Local port ",
            ).concat(decimal_string(*port as u32).as_str()).concat(
                " is already occupied by running rule(s): ",
            ).concat(join_strings(running, ", ").as_str()).concat(
                ". Stop that rule first before starting '",
            ).concat(name.as_str()).concat("'."),
            StartError::ReplaceFailed { name, cause } => String::from_str(
                "Failed to replace existing SSH process for rule '",
            ).concat(name.as_str()).concat("'"),
            StartError::Conflict(c) => c.message(),
            StartError::PortInUse(p) => String::from_str("Local port ").concat(
                decimal_string(*p as u32).as_str(),
            ).concat(" is already in use by another process"),
            StartError::Launch(t) => String::from_str("Failed to execute ssh command"),
            StartError::Exited { name, status } => String::from_str("Failed to start '").concat(
                name.as_str(),
            ).concat("': ssh exited with status ").concat(status.as_str()),
            StartError::NotReady { name, cause } => String::from_str("Failed to start '").concat(
                name.as_str(),
            ).concat("'"),
        }
    }
}

/// What the caller has to do next.
pub enum StartAction {
    /// Look for the process that holds the rule with these settings (its saved
    /// process id first); report with `resolved`. When `pause` is set, wait
    /// 100 ms first.
    Resolve {
        saved: Option<u32>,
        local_port: u16,
        remote_port: u16,
        remote_host: String,
        pause: bool,
    },
    /// List the ssh clients of the rule (`ps`); report with `processes_listed`.
    ListRuleProcesses { local_port: u16, remote_port: u16, remote_host: String },
    /// Kill this process; report with `killed`.
    Kill(u32),
    /// Read the ssh client configuration, after waiting 300 ms when `pause` is
    /// set; report with `config_read`.
    ReadConfig { pause: bool },
    /// List the processes listening on the port (`lsof`); report with `listeners_listed`.
    ListListeners { local_port: u16 },
    /// Run `ssh -f -N -C -o BatchMode=yes -o ExitOnForwardFailure=yes
    /// -o ConnectTimeout=5 -L <forward> <host>`; report with `launched`.
    Launch { forward: String, remote_host: String },
    /// Every rule is started: save the table.
    Save,
    /// Starting failed; nothing is saved.
    Fail(StartError),
}

/// The value of a [`StartAction`].
pub enum StartActionView {
    Resolve {
        saved: Option<u32>,
        local_port: u16,
        remote_port: u16,
        remote_host: Seq<char>,
        pause: bool,
    },
    ListRuleProcesses { local_port: u16, remote_port: u16, remote_host: Seq<char> },
    Kill(u32),
    ReadConfig { pause: bool },
    ListListeners { local_port: u16 },
    Launch { forward: Seq<char>, remote_host: Seq<char> },
    Save,
    Fail(StartErrorView),
}

impl View for StartAction {
    type V = StartActionView;

    open spec fn view(&self) -> StartActionView {
        match self {
            StartAction::Resolve { saved, local_port, remote_port, remote_host, pause } =>
                StartActionView::Resolve {
                saved: *saved,
                local_port: *local_port,
                remote_port: *remote_port,
                remote_host: remote_host@,
                pause: *pause,
            },
            StartAction::ListRuleProcesses { local_port, remote_port, remote_host } =>
                StartActionView::ListRuleProcesses {
                local_port: *local_port,
                remote_port: *remote_port,
                remote_host: remote_host@,
            },
            StartAction::Kill(p) => StartActionView::Kill(*p),
            StartAction::ReadConfig { pause } => StartActionView::ReadConfig { pause: *pause },
            StartAction::ListListeners { local_port } => StartActionView::ListListeners {
                local_port: *local_port,
            },
            StartAction::Launch { forward, remote_host } => StartActionView::Launch {
                forward: forward@,
                remote_host: remote_host@,
            },
            StartAction::Save => StartActionView::Save,
            StartAction::Fail(e) => StartActionView::Fail(e@),
        }
    }
}

/// The state of a run, by value.
pub struct StartView {
    pub rules: Map<Seq<char>, RuleView>,
    pub order: Seq<Seq<char>>,
    pub names: Seq<Seq<char>>,
    pub index: int,
    pub rule: Option<RuleView>,
    pub dups: Seq<Seq<char>>,
    pub dup_k: int,
    pub running: Seq<Seq<char>>,
    pub stale: Seq<Seq<char>>,
    pub existing: Seq<u32>,
    pub kill_k: int,
    pub listeners: Seq<u32>,
    pub listener_k: int,
    pub probes: int,
    pub stable: Option<u32>,
    pub samples: int,
    pub stage: StartStage,
    pub failure: Option<StartErrorView>,
    pub initial: Map<Seq<char>, RuleView>,
}

/// The other rules, in table order, that use local port `port`.
pub open spec fn same_port_others(
    order: Seq<Seq<char>>,
    rules: Map<Seq<char>, RuleView>,
    name: Seq<char>,
    port: u16,
) -> Seq<Seq<char>>
    decreases order.len(),
{
    if order.len() == 0 {
        seq![]
    } else {
        let rest = same_port_others(order.drop_last(), rules, name, port);
        let k = order.last();
        if k != name && rules.dom().contains(k) && rules[k].local_port == port {
            rest.push(k)
        } else {
            rest
        }
    }
}

/// A rule marked as running with process `pid`.
pub open spec fn running(rule: RuleView, pid: u32) -> RuleView {
    RuleView { status: true, pid: Some(pid), ..rule }
}

/// Starts on the name at `index`, or finishes.
pub open spec fn start_begin(s: StartView) -> StartView {
    if s.index >= s.names.len() {
        StartView { stage: StartStage::Saved, ..s }
    } else if !s.rules.dom().contains(s.names[s.index]) {
        StartView {
            stage: StartStage::Failed,
            failure: Some(StartErrorView::NotFound(s.names[s.index])),
            ..s
        }
    } else {
        let rule = s.rules[s.names[s.index]];
        start_next_dup(
            StartView {
                rule: Some(rule),
                dups: same_port_others(s.order, s.rules, s.names[s.index], rule.local_port),
                dup_k: 0,
                running: seq![],
                stale: seq![],
                ..s
            },
        )
    }
}

/// Looks up the next rule on the same port, or decides on them.
pub open spec fn start_next_dup(s: StartView) -> StartView {
    if s.dup_k < s.dups.len() {
        StartView { stage: StartStage::Resolve, ..s }
    } else if s.running.len() > 0 {
        StartView {
            stage: StartStage::Failed,
            failure: Some(
                StartErrorView::PortOccupied {
                    port: s.rule->0.local_port,
                    running: s.running,
                    name: s.names[s.index],
                },
            ),
            ..s
        }
    } else {
        StartView {
            rules: stopped_all(s.rules, s.stale),
            stage: StartStage::ListExisting,
            ..s
        }
    }
}

/// Kills the next earlier ssh client, or goes on to the configuration.
pub open spec fn start_next_kill(s: StartView) -> StartView {
    if s.kill_k < s.existing.len() {
        StartView { stage: StartStage::Kill, ..s }
    } else {
        StartView { stage: StartStage::Config, ..s }
    }
}

/// Checks the next listener, or launches ssh.
pub open spec fn start_next_listener(s: StartView) -> StartView {
    if s.listener_k < s.listeners.len() {
        StartView { stage: StartStage::Listener, ..s }
    } else {
        StartView { stage: StartStage::Launch, ..s }
    }
}

/// Marks the current rule as running with `pid` and goes on with the next name.
pub open spec fn start_finish_name(s: StartView, pid: u32) -> StartView {
    let name = s.names[s.index];
    start_begin(
        StartView {
            rules: s.rules.insert(name, running(s.rules[name], pid)),
            index: s.index + 1,
            ..s
        },
    )
}

/// Fails the run.
pub open spec fn start_fail(s: StartView, e: StartErrorView) -> StartView {
    StartView { stage: StartStage::Failed, failure: Some(e), ..s }
}

/// The text given when the forward's listener did not come up.
pub open spec fn not_established_text(local_port: u16) -> Seq<char> {
    "ssh process started but local listener 127.0.0.1:"@ + decimal(local_port as nat)
        + " was not established"@
}

/// A look for a rule's process finished: either for another rule on the same
/// port, or for the forward just launched.
pub open spec fn start_on_resolved(s: StartView, found: Result<Option<u32>, Seq<char>>) -> StartView {
    if s.stage == StartStage::Resolve {
        match found {
            Err(t) => start_fail(s, StartErrorView::Lookup(t)),
            Ok(Some(_)) => start_next_dup(
                StartView { running: s.running.push(s.dups[s.dup_k]), dup_k: s.dup_k + 1, ..s },
            ),
            Ok(None) => start_next_dup(
                StartView { stale: s.stale.push(s.dups[s.dup_k]), dup_k: s.dup_k + 1, ..s },
            ),
        }
    } else if s.stage == StartStage::Ready {
        match found {
            Err(t) => start_fail(
                s,
                StartErrorView::NotReady { name: s.names[s.index], cause: t },
            ),
            Ok(p) => {
                let samples = match p {
                    Some(pid) => if s.stable == Some(pid) {
                        s.samples + 1
                    } else {
                        1
                    },
                    None => 0,
                };
                if p is Some && samples >= READY_PROBES {
                    start_finish_name(s, p->0)
                } else if s.probes + 1 < READY_PROBES {
                    StartView { probes: s.probes + 1, stable: p, samples: samples, ..s }
                } else {
                    start_fail(
                        s,
                        StartErrorView::NotReady {
                            name: s.names[s.index],
                            cause: not_established_text(s.rule->0.local_port),
                        },
                    )
                }
            },
        }
    } else {
        s
    }
}

/// A list of the rule's ssh clients came back: either the earlier clients to
/// replace, or the check of one listener.
pub open spec fn start_on_processes(s: StartView, listed: Result<Seq<u32>, Seq<char>>) -> StartView {
    let pids = match listed {
        Ok(v) => v,
        Err(_) => seq![],
    };
    if s.stage == StartStage::ListExisting {
        start_next_kill(StartView { existing: pids, kill_k: 0, ..s })
    } else if s.stage == StartStage::Listener {
        if pids.contains(s.listeners[s.listener_k]) {
            start_next_listener(StartView { listener_k: s.listener_k + 1, ..s })
        } else {
            start_fail(s, StartErrorView::PortInUse(s.rule->0.local_port))
        }
    } else {
        s
    }
}

/// A kill of an earlier ssh client finished.
pub open spec fn start_on_killed(s: StartView, failure: Option<Seq<char>>) -> StartView {
    if s.stage == StartStage::Kill {
        match failure {
            Some(t) => start_fail(
                s,
                StartErrorView::ReplaceFailed { name: s.names[s.index], cause: t },
            ),
            None => start_next_kill(StartView { kill_k: s.kill_k + 1, ..s }),
        }
    } else {
        s
    }
}

/// The ssh client configuration was read (`None` when it could not be).
pub open spec fn start_on_config(s: StartView, config: Option<Seq<char>>) -> StartView {
    if s.stage == StartStage::Config {
        let text = match config {
            Some(t) => t,
            None => seq![],
        };
        let rule = s.rule->0;
        match first_conflict(lines(text), false, rule.remote_host, rule.local_port, rule.remote_port) {
            Some(d) => start_fail(
                s,
                StartErrorView::Conflict {
                    host: rule.remote_host,
                    local_port: rule.local_port,
                    destination: d,
                    remote_port: rule.remote_port,
                },
            ),
            None => StartView { stage: StartStage::Listeners, ..s },
        }
    } else {
        s
    }
}

/// The listeners on the port were listed (an error skips the check).
pub open spec fn start_on_listeners(s: StartView, listed: Result<Seq<u32>, Seq<char>>) -> StartView {
    if s.stage == StartStage::Listeners {
        match listed {
            Ok(v) => start_next_listener(StartView { listeners: v, listener_k: 0, ..s }),
            Err(_) => StartView { stage: StartStage::Launch, ..s },
        }
    } else {
        s
    }
}

/// ssh was run: whether it exited successfully and its exit status, or why it
/// could not be run.
pub open spec fn start_on_launched(s: StartView, outcome: Result<(bool, Seq<char>), Seq<char>>) -> StartView {
    if s.stage == StartStage::Launch {
        match outcome {
            Err(t) => start_fail(s, StartErrorView::Launch(t)),
            Ok((ok, status)) => if ok {
                StartView { stage: StartStage::Ready, probes: 0, stable: None, samples: 0, ..s }
            } else {
                start_fail(s, StartErrorView::Exited { name: s.names[s.index], status: status })
            },
        }
    } else {
        s
    }
}

/// The action a state asks for.
pub open spec fn start_action(s: StartView) -> StartActionView {
    let rule = s.rule->0;
    match s.stage {
        StartStage::Resolve => {
            let other = s.rules[s.dups[s.dup_k]];
            StartActionView::Resolve {
                saved: other.pid,
                local_port: other.local_port,
                remote_port: other.remote_port,
                remote_host: other.remote_host,
                pause: false,
            }
        },
        StartStage::ListExisting => StartActionView::ListRuleProcesses {
            local_port: rule.local_port,
            remote_port: rule.remote_port,
            remote_host: rule.remote_host,
        },
        StartStage::Kill => StartActionView::Kill(s.existing[s.kill_k]),
        StartStage::Config => StartActionView::ReadConfig { pause: s.existing.len() > 0 },
        StartStage::Listeners => StartActionView::ListListeners { local_port: rule.local_port },
        StartStage::Listener => StartActionView::ListRuleProcesses {
            local_port: rule.local_port,
            remote_port: rule.remote_port,
            remote_host: rule.remote_host,
        },
        StartStage::Launch => StartActionView::Launch {
            forward: loopback_forward(rule.local_port, rule.remote_port),
            remote_host: rule.remote_host,
        },
        StartStage::Ready => StartActionView::Resolve {
            saved: rule.pid,
            local_port: rule.local_port,
            remote_port: rule.remote_port,
            remote_host: rule.remote_host,
            pause: s.probes > 0,
        },
        StartStage::Saved => StartActionView::Save,
        StartStage::Failed => StartActionView::Fail(s.failure->0),
    }
}

/// `b` has the settings of `a`: the same ports and host.
pub open spec fn same_settings(a: RuleView, b: RuleView) -> bool {
    a.local_port == b.local_port && a.remote_port == b.remote_port && a.remote_host == b.remote_host
}

/// Only the status and process id of rules differ between the two tables.
pub open spec fn settings_kept(a: Map<Seq<char>, RuleView>, b: Map<Seq<char>, RuleView>) -> bool {
    &&& a.dom() == b.dom()
    &&& forall|k: Seq<char>| #[trigger] a.dom().contains(k) ==> same_settings(a[k], b[k])
}

/// Whether the stage works on a current rule.
pub open spec fn start_active(stage: StartStage) -> bool {
    stage != StartStage::Saved && stage != StartStage::Failed
}

/// A rule is being worked on, and the run's notes about it are consistent.
pub open spec fn start_rule_ok(s: StartView) -> bool {
    &&& 0 <= s.index < s.names.len()
    &&& settings_kept(s.initial, s.rules)
    &&& s.rules.dom().contains(s.names[s.index])
    &&& s.rule == Some(s.rules[s.names[s.index]])
    &&& forall|k: int| 0 <= k < s.dups.len() ==> s.rules.dom().contains(#[trigger] s.dups[k])
        && s.dups[k] != s.names[s.index]
    &&& forall|k: int| 0 <= k < s.stale.len() ==> s.rules.dom().contains(#[trigger] s.stale[k])
        && s.stale[k] != s.names[s.index]
    &&& forall|k: int|
        0 <= k < s.dups.len() ==> #[trigger] port_of(s.initial, s.dups[k]) == port_of(
            s.initial,
            s.names[s.index],
        )
    &&& forall|k: int|
        0 <= k < s.stale.len() ==> #[trigger] port_of(s.initial, s.stale[k]) == port_of(
            s.initial,
            s.names[s.index],
        )
}

/// The local port of rule `name`.
pub open spec fn port_of(rules: Map<Seq<char>, RuleView>, name: Seq<char>) -> u16 {
    rules[name].local_port
}

/// Some name given after position `k` and before `upto` uses the same local
/// port as the name at `k`.
pub open spec fn later_same_port(
    names: Seq<Seq<char>>,
    initial: Map<Seq<char>, RuleView>,
    k: int,
    upto: int,
) -> bool {
    exists|j: int| k < j < upto && #[trigger] port_of(initial, names[j]) == port_of(initial, names[k])
}

/// The rule named at position `k` is in the table and marked running with a process.
pub open spec fn started_at(rules: Map<Seq<char>, RuleView>, names: Seq<Seq<char>>, k: int) -> bool {
    rules.dom().contains(names[k]) && rules[names[k]].status && rules[names[k]].pid is Some
}

/// Some name of `names` uses local port `port`.
pub open spec fn port_given(
    initial: Map<Seq<char>, RuleView>,
    names: Seq<Seq<char>>,
    port: u16,
) -> bool {
    exists|j: int| 0 <= j < names.len() && #[trigger] port_of(initial, names[j]) == port
}

/// Every rule not among `names` is as it was, or is marked as not running
/// and uses the local port of a rule among `names`.
pub open spec fn others_kept(
    initial: Map<Seq<char>, RuleView>,
    rules: Map<Seq<char>, RuleView>,
    names: Seq<Seq<char>>,
) -> bool {
    forall|n: Seq<char>|
        #[trigger] initial.dom().contains(n) && !names.contains(n) ==> rules[n] == initial[n] || (
        rules[n] == stopped(initial[n]) && port_given(initial, names, port_of(initial, n)))
}

/// Every name already done is marked running, unless a name given after it,
/// before `upto`, uses the same local port.
pub open spec fn started_upto(s: StartView, upto: int) -> bool {
    forall|k: int|
        0 <= k < s.index && !later_same_port(s.names, s.initial, k, upto) ==> #[trigger] started_at(
            s.rules,
            s.names,
            k,
        )
}

/// Whether the other rules on the current rule's port have been dealt with.
pub open spec fn start_reset_done(stage: StartStage) -> bool {
    ||| stage == StartStage::ListExisting
    ||| stage == StartStage::Kill
    ||| stage == StartStage::Config
    ||| stage == StartStage::Listeners
    ||| stage == StartStage::Listener
    ||| stage == StartStage::Launch
    ||| stage == StartStage::Ready
}

/// What a run that has not failed keeps of the rules it started: once the
/// other rules on the current port have been dealt with, the current name
/// counts as coming after the names done.
pub open spec fn started_kept(s: StartView) -> bool {
    s.stage == StartStage::Failed || started_upto(
        s,
        if start_reset_done(s.stage) {
            s.index + 1
        } else {
            s.index
        },
    )
}

/// The states a run can be in.
pub open spec fn start_wf(s: StartView) -> bool {
    &&& 0 <= s.index <= s.names.len()
    &&& settings_kept(s.initial, s.rules)
    &&& start_active(s.stage) ==> start_rule_ok(s)
    &&& s.stage == StartStage::Resolve ==> 0 <= s.dup_k < s.dups.len()
    &&& s.stage == StartStage::Kill ==> 0 <= s.kill_k < s.existing.len()
    &&& s.stage == StartStage::Listener ==> 0 <= s.listener_k < s.listeners.len()
    &&& s.stage == StartStage::Ready ==> 0 <= s.probes < READY_PROBES && 0 <= s.samples <= s.probes
    &&& s.stage == StartStage::Saved ==> s.index == s.names.len()
    &&& s.stage == StartStage::Failed ==> s.failure is Some
    &&& started_kept(s)
    &&& others_kept(s.initial, s.rules, s.names)
}

/// Marking rules stopped keeps their settings.
pub proof fn lemma_stopped_all_settings(m: Map<Seq<char>, RuleView>, names: Seq<Seq<char>>)
    ensures
        settings_kept(m, stopped_all(m, names)),
        forall|k: Seq<char>| #![trigger stopped_all(m, names)[k]]
            m.dom().contains(k) && !names.contains(k) ==> stopped_all(m, names)[k] == m[k],
    decreases names.len(),
{
    if names.len() > 0 {
        let rest = names.drop_last();
        lemma_stopped_all_settings(m, rest);
        let p = stopped_all(m, rest);
        assert forall|k: Seq<char>| m.dom().contains(k) && !names.contains(k) implies #[trigger] stopped_all(
            m,
            names,
        )[k] == m[k] by {
            if rest.contains(k) {
                let i = choose|i: int| 0 <= i < rest.len() && rest[i] == k;
                assert(names[i] == k);
            }
            assert(k != names.last());
        }
        if p.dom().contains(names.last()) {
            assert(p.insert(names.last(), stopped(p[names.last()])).dom() =~= p.dom());
        }
    }
}

/// Marking rules stopped marks each of them stopped, whatever it was before.
pub proof fn lemma_stopped_all_in(m: Map<Seq<char>, RuleView>, names: Seq<Seq<char>>, k: Seq<char>)
    requires
        m.dom().contains(k),
        names.contains(k),
    ensures
        stopped_all(m, names)[k] == stopped(m[k]),
    decreases names.len(),
{
    let rest = names.drop_last();
    lemma_stopped_all_dom_keep(m, rest);
    if k != names.last() {
        let i = choose|i: int| 0 <= i < names.len() && names[i] == k;
        assert(rest[i] == k);
        lemma_stopped_all_in(m, rest, k);
    } else if rest.contains(k) {
        lemma_stopped_all_in(m, rest, k);
    } else {
        lemma_stopped_all_settings(m, rest);
    }
}

proof fn lemma_stopped_all_dom_keep(m: Map<Seq<char>, RuleView>, names: Seq<Seq<char>>)
    ensures
        stopped_all(m, names).dom() == m.dom(),
{
    crate::stop_run::lemma_stopped_all_dom(m, names);
}

/// A run of starting rules.
pub struct StartRun {
    pub rules: RuleTable,
    pub names: Vec<String>,
    pub index: usize,
    pub rule: Option<PortForwardRule>,
    pub dups: Vec<String>,
    pub dup_k: usize,
    pub running: Vec<String>,
    pub stale: Vec<String>,
    pub existing: Vec<u32>,
    pub kill_k: usize,
    pub listeners: Vec<u32>,
    pub listener_k: usize,
    pub probes: usize,
    pub stable: Option<u32>,
    pub samples: usize,
    pub stage: StartStage,
    pub failure: Option<StartError>,
    pub initial: Ghost<Map<Seq<char>, RuleView>>,
}

impl View for StartRun {
    type V = StartView;

    open spec fn view(&self) -> StartView {
        StartView {
            rules: self.rules@,
            order: self.rules.names(),
            names: string_views(self.names@),
            index: self.index as int,
            rule: match self.rule {
                Some(r) => Some(r@),
                None => None,
            },
            dups: string_views(self.dups@),
            dup_k: self.dup_k as int,
            running: string_views(self.running@),
            stale: string_views(self.stale@),
            existing: self.existing@,
            kill_k: self.kill_k as int,
            listeners: self.listeners@,
            listener_k: self.listener_k as int,
            probes: self.probes as int,
            stable: self.stable,
            samples: self.samples as int,
            stage: self.stage,
            failure: match self.failure {
                Some(f) => Some(f@),
                None => None,
            },
            initial: self.initial@,
        }
    }
}

impl StartRun {
    /// Whether the run is in a reachable state.
    pub open spec fn wf(&self) -> bool {
        &&& self.rules.wf()
        &&& start_wf(self@)
    }

    /// The action the run asks for now.
    pub fn action(&self) -> (r: StartAction)
        requires
            self.wf(),
        ensures
            r@ == start_action(self@),
    {
        match self.stage {
            StartStage::Resolve => {
                let other_name = &self.dups[self.dup_k];
                assert(self@.dups[self.dup_k as int] == other_name@);
                let other = self.rules.get(other_name).unwrap();
                StartAction::Resolve {
                    saved: other.pid,
                    local_port: other.local_port,
                    remote_port: other.remote_port,
                    remote_host: other.remote_host.clone(),
                    pause: false,
                }
            },
            StartStage::ListExisting | StartStage::Listener => {
                let rule = self.rule.as_ref().unwrap();
                StartAction::ListRuleProcesses {
                    local_port: rule.local_port,
                    remote_port: rule.remote_port,
                    remote_host: rule.remote_host.clone(),
                }
            },
            StartStage::Kill => StartAction::Kill(self.existing[self.kill_k]),
            StartStage::Config => StartAction::ReadConfig { pause: self.existing.len() > 0 },
            StartStage::Listeners => {
                let rule = self.rule.as_ref().unwrap();
                StartAction::ListListeners { local_port: rule.local_port }
            },
            StartStage::Launch => {
                let rule = self.rule.as_ref().unwrap();
                StartAction::Launch {
                    forward: loopback_forward_arg(rule.local_port, rule.remote_port),
                    remote_host: rule.remote_host.clone(),
                }
            },
            StartStage::Ready => {
                let rule = self.rule.as_ref().unwrap();
                StartAction::Resolve {
                    saved: rule.pid,
                    local_port: rule.local_port,
                    remote_port: rule.remote_port,
                    remote_host: rule.remote_host.clone(),
                    pause: self.probes > 0,
                }
            },
            StartStage::Saved => StartAction::Save,
            StartStage::Failed => StartAction::Fail(self.copy_failure()),
        }
    }

    fn copy_failure(&self) -> (r: StartError)
        requires
            self.failure is Some,
        ensures
            r@ == self.failure->0@,
    {
        match self.failure.as_ref().unwrap() {
            StartError::NotFound(n) => StartError::NotFound(n.clone()),
            StartError::Lookup(t) => StartError::Lookup(t.clone()),
            StartError::PortOccupied { port, running, name } => {
                let copy = clone_strings(running);
                StartError::PortOccupied { port: *port, running: copy, name: name.clone() }
            },
            StartError::ReplaceFailed { name, cause } => StartError::ReplaceFailed {
                name: name.clone(),
                cause: cause.clone(),
            },
            StartError::Conflict(c) => StartError::Conflict(
                HostForwardConflict {
                    host: c.host.clone(),
                    local_port: c.local_port,
                    destination: c.destination.clone(),
                    remote_port: c.remote_port,
                },
            ),
            StartError::PortInUse(p) => StartError::PortInUse(*p),
            StartError::Launch(t) => StartError::Launch(t.clone()),
            StartError::Exited { name, status } => StartError::Exited {
                name: name.clone(),
                status: status.clone(),
            },
            StartError::NotReady { name, cause } => StartError::NotReady {
                name: name.clone(),
                cause: cause.clone(),
            },
        }
    }

    /// The other rules, in table order, that use local port `port`.
    fn others_on_port(&self, name: &String, port: u16) -> (r: Vec<String>)
        requires
            self.rules.wf(),
        ensures
            string_views(r@) == same_port_others(self.rules.names(), self.rules@, name@, port),
    {
        let ghost order = self.rules.names();
        let ghost e = self.rules.entries();
        let mut out: Vec<String> = Vec::new();
        let n = self.rules.len();
        for i in 0..n
            invariant
                n == e.len(),
                order == names_of(e),
                e == self.rules.entries(),
                self.rules.wf(),
                string_views(out@) == same_port_others(order.take(i as int), self.rules@, name@, port),
        {
            let row = self.rules.entry(i);
            proof {
                assert(order.take(i + 1).drop_last() =~= order.take(i as int));
                assert(order.take(i + 1).last() == e[i as int].0);
                lemma_map_of_row(e, i as int);
            }
            if !row.0.eq(name) && row.1.local_port == port {
                let k = row.0.clone();
                proof {
                    lemma_string_views_push(out@, k);
                }
                out.push(k);
            }
        }
        assert(order.take(n as int) =~= order);
        out
    }

    /// Starts on the name at `index`, or finishes.
    fn begin(&mut self)
        requires
            old(self).rules.wf(),
            0 <= old(self).index <= old(self).names.len(),
            settings_kept(old(self)@.initial, old(self)@.rules),
            others_kept(old(self)@.initial, old(self)@.rules, old(self)@.names),
            started_upto(old(self)@, old(self).index as int),
        ensures
            final(self)@ == start_begin(old(self)@),
            final(self).wf(),
    {
        if self.index >= self.names.len() {
            self.stage = StartStage::Saved;
            return ;
        }
        let name = self.names[self.index].clone();
        assert(name@ == self@.names[self.index as int]);
        let rule = match self.rules.get(&name) {
            None => {
                self.stage = StartStage::Failed;
                self.failure = Some(StartError::NotFound(name));
                return ;
            },
            Some(rule) => rule.duplicate(),
        };
        let port = rule.local_port;
        let dups = self.others_on_port(&name, port);
        proof {
            let ds = string_views(dups@);
            lemma_same_port_others(self.rules.names(), self.rules@, name@, port);
            assert forall|k: int| 0 <= k < ds.len() implies self@.rules.dom().contains(#[trigger] ds[k])
                && ds[k] != name@ && port_of(self@.initial, ds[k]) == port_of(self@.initial, name@) by {
                assert(ds.contains(ds[k]));
                assert(same_settings(self@.initial[ds[k]], self@.rules[ds[k]]));
                assert(same_settings(self@.initial[name@], self@.rules[name@]));
            }
        }
        self.rule = Some(rule);
        self.dups = dups;
        self.dup_k = 0;
        self.running = Vec::new();
        self.stale = Vec::new();
        proof {
            assert(string_views(self.running@) =~= Seq::<Seq<char>>::empty());
            assert(string_views(self.stale@) =~= Seq::<Seq<char>>::empty());
        }
        self.next_dup();
    }

    /// Looks up the next rule on the same port, or decides on them.
    fn next_dup(&mut self)
        requires
            old(self).rules.wf(),
            start_rule_ok(old(self)@),
            others_kept(old(self)@.initial, old(self)@.rules, old(self)@.names),
            started_upto(old(self)@, old(self).index as int),
            0 <= old(self).dup_k <= old(self).dups.len(),
        ensures
            final(self)@ == start_next_dup(old(self)@),
            final(self).wf(),
    {
        if self.dup_k < self.dups.len() {
            self.stage = StartStage::Resolve;
            return ;
        }
        if self.running.len() > 0 {
            let running = clone_strings(&self.running);
            let name = self.names[self.index].clone();
            let port = self.rule.as_ref().unwrap().local_port;
            self.failure = Some(StartError::PortOccupied { port, running, name });
            self.stage = StartStage::Failed;
            return ;
        }
        let ghost s = self@;
        stop_names(&mut self.rules, &self.stale);
        proof {
            let m = stopped_all(s.rules, s.stale);
            lemma_stopped_all_settings(s.rules, s.stale);
            let name = s.names[s.index];
            if s.stale.contains(name) {
                let k = choose|k: int| 0 <= k < s.stale.len() && s.stale[k] == name;
                assert(s.stale[k] != s.names[s.index]);
            }
            assert(m[name] == s.rules[name]);
            assert forall|k: int|
                0 <= k < s.index && !later_same_port(s.names, s.initial, k, s.index + 1) implies #[trigger] started_at(
                m,
                s.names,
                k,
            ) by {
                if later_same_port(s.names, s.initial, k, s.index) {
                    let j = choose|j: int|
                        k < j < s.index && #[trigger] port_of(s.initial, s.names[j]) == port_of(
                            s.initial,
                            s.names[k],
                        );
                    assert(k < j < s.index + 1);
                }
                assert(started_at(s.rules, s.names, k));
                if s.stale.contains(s.names[k]) {
                    let i = choose|i: int| 0 <= i < s.stale.len() && s.stale[i] == s.names[k];
                    assert(port_of(s.initial, s.stale[i]) == port_of(s.initial, s.names[s.index]));
                    assert(port_of(s.initial, s.names[s.index]) == port_of(s.initial, s.names[k]));
                    assert(s.index < s.index + 1);
                }
            }
            assert forall|k: Seq<char>| #[trigger] s.initial.dom().contains(k) implies same_settings(
                s.initial[k],
                m[k],
            ) by {
                assert(s.rules.dom().contains(k));
                assert(same_settings(s.initial[k], s.rules[k]));
                assert(same_settings(s.rules[k], m[k]));
            }
            assert forall|n: Seq<char>|
                #[trigger] s.initial.dom().contains(n) && !s.names.contains(n) implies m[n]
                == s.initial[n] || m[n] == stopped(s.initial[n]) by {
                assert(s.rules.dom().contains(n));
                if s.stale.contains(n) {
                    lemma_stopped_all_in(s.rules, s.stale, n);
                    let i = choose|i: int| 0 <= i < s.stale.len() && s.stale[i] == n;
                    assert(port_of(s.initial, s.stale[i]) == port_of(s.initial, s.names[s.index]));
                    assert(port_of(s.initial, s.names[s.index]) == port_of(s.initial, n));
                }
            }
        }
        self.stage = StartStage::ListExisting;
    }

    /// Marks the current rule as running with `pid` and goes on.
    fn finish_name(&mut self, pid: u32)
        requires
            old(self).rules.wf(),
            start_rule_ok(old(self)@),
            others_kept(old(self)@.initial, old(self)@.rules, old(self)@.names),
            started_upto(old(self)@, old(self).index + 1),
        ensures
            final(self)@ == start_finish_name(old(self)@, pid),
            final(self).wf(),
    {
        let ghost s = self@;
        let name = self.names[self.index].clone();
        assert(name@ == s.names[s.index]);
        self.rules.set_state(&name, true, Some(pid));
        proof {
            assert(self.rules@ == s.rules.insert(name@, running(s.rules[name@], pid)));
            assert(self.rules@.dom() =~= s.rules.dom());
            let m = self.rules@;
            assert forall|k: int|
                0 <= k < s.index + 1 && !later_same_port(s.names, s.initial, k, s.index + 1) implies #[trigger] started_at(
                m,
                s.names,
                k,
            ) by {
                if k < s.index {
                    assert(started_at(s.rules, s.names, k));
                    if s.names[k] == s.names[s.index] {
                        assert(port_of(s.initial, s.names[s.index]) == port_of(s.initial, s.names[k]));
                    }
                }
            }
            assert forall|k: Seq<char>| #[trigger] s.initial.dom().contains(k) implies same_settings(
                s.initial[k],
                self.rules@[k],
            ) by {
                assert(s.rules.dom().contains(k));
            }
        }
        let n = self.names.len();
        assert(self.index < n);
        self.index = self.index + 1;
        self.begin();
    }

    /// Fails the run.
    fn fail(&mut self, e: StartError)
        requires
            old(self).rules.wf(),
            start_rule_ok(old(self)@),
            others_kept(old(self)@.initial, old(self)@.rules, old(self)@.names),
        ensures
            final(self)@ == start_fail(old(self)@, e@),
            final(self).wf(),
    {
        self.failure = Some(e);
        self.stage = StartStage::Failed;
    }

    /// The current rule's name.
    fn current_name(&self) -> (r: String)
        requires
            start_rule_ok(self@),
        ensures
            r@ == self@.names[self@.index],
    {
        self.names[self.index].clone()
    }

    /// Reports a look for a rule's process: the process found, or the error text.
    pub fn resolved(&mut self, found: Result<Option<u32>, String>) -> (r: StartAction)
        requires
            old(self).wf(),
        ensures
            final(self).wf(),
            final(self)@ == start_on_resolved(
                old(self)@,
                match found {
                    Ok(p) => Ok(p),
                    Err(t) => Err(t@),
                },
            ),
            r@ == start_action(final(self)@),
    {
        if self.stage == StartStage::Resolve {
            match found {
                Err(t) => {
                    self.fail(StartError::Lookup(t));
                },
                Ok(p) => {
                    let other = self.dups[self.dup_k].clone();
                    let ghost before = self.running@;
                    let ghost before_stale = self.stale@;
                    if p.is_some() {
                        proof {
                            lemma_string_views_push(self.running@, other);
                        }
                        self.running.push(other);
                    } else {
                        proof {
                            lemma_string_views_push(self.stale@, other);
                        }
                        self.stale.push(other);
                    }
                    let n = self.dups.len();
                    assert(self.dup_k < n);
                    self.dup_k = self.dup_k + 1;
                    self.next_dup();
                },
            }
        } else if self.stage == StartStage::Ready {
            match found {
                Err(t) => {
                    let name = self.current_name();
                    self.fail(StartError::NotReady { name, cause: t });
                },
                Ok(p) => {
                    let samples: usize = match p {
                        Some(pid) => if self.stable == Some(pid) {
                            self.samples + 1
                        } else {
                            1
                        },
                        None => 0,
                    };
                    if p.is_some() && samples >= READY_PROBES {
                        self.finish_name(p.unwrap());
                    } else if self.probes + 1 < READY_PROBES {
                        self.probes = self.probes + 1;
                        self.stable = p;
                        self.samples = samples;
                    } else {
                        let name = self.current_name();
                        let port = self.rule.as_ref().unwrap().local_port;
                        let cause = String::from_str(
                            "ssh process started but local listener 127.0.0.1:",
                        ).concat(decimal_string(port as u32).as_str()).concat(
                            " was not established",
                        );
                        self.fail(StartError::NotReady { name, cause });
                    }
                },
            }
        }
        self.action()
    }

    /// Reports a list of the rule's ssh clients (`Err` when it could not be made).
    pub fn processes_listed(&mut self, listed: Result<Vec<u32>, String>) -> (r: StartAction)
        requires
            old(self).wf(),
        ensures
            final(self).wf(),
            final(self)@ == start_on_processes(
                old(self)@,
                match listed {
                    Ok(v) => Ok(v@),
                    Err(t) => Err(t@),
                },
            ),
            r@ == start_action(final(self)@),
    {
        let pids = match listed {
            Ok(v) => v,
            Err(_) => Vec::new(),
        };
        if self.stage == StartStage::ListExisting {
            self.existing = pids;
            self.kill_k = 0;
            self.next_kill();
        } else if self.stage == StartStage::Listener {
            let target = self.listeners[self.listener_k];
            let mut found = false;
            for i in 0..pids.len()
                invariant
                    found == (exists|k: int| 0 <= k < i && #[trigger] pids@[k] == target),
            {
                if pids[i] == target {
                    found = true;
                }
            }
            assert(found == pids@.contains(target));
            if found {
                let n = self.listeners.len();
                assert(self.listener_k < n);
                self.listener_k = self.listener_k + 1;
                self.next_listener();
            } else {
                let port = self.rule.as_ref().unwrap().local_port;
                self.fail(StartError::PortInUse(port));
            }
        }
        self.action()
    }

    fn next_kill(&mut self)
        requires
            old(self).rules.wf(),
            start_rule_ok(old(self)@),
            others_kept(old(self)@.initial, old(self)@.rules, old(self)@.names),
            started_upto(old(self)@, old(self).index + 1),
            0 <= old(self).kill_k <= old(self).existing.len(),
        ensures
            final(self)@ == start_next_kill(old(self)@),
            final(self).wf(),
    {
        if self.kill_k < self.existing.len() {
            self.stage = StartStage::Kill;
        } else {
            self.stage = StartStage::Config;
        }
    }

    fn next_listener(&mut self)
        requires
            old(self).rules.wf(),
            start_rule_ok(old(self)@),
            others_kept(old(self)@.initial, old(self)@.rules, old(self)@.names),
            started_upto(old(self)@, old(self).index + 1),
            0 <= old(self).listener_k <= old(self).listeners.len(),
        ensures
            final(self)@ == start_next_listener(old(self)@),
            final(self).wf(),
    {
        if self.listener_k < self.listeners.len() {
            self.stage = StartStage::Listener;
        } else {
            self.stage = StartStage::Launch;
        }
    }

    /// Reports the end of a kill: `Err` holds the error text when it failed.
    pub fn killed(&mut self, result: Result<(), String>) -> (r: StartAction)
        requires
            old(self).wf(),
        ensures
            final(self).wf(),
            final(self)@ == start_on_killed(
                old(self)@,
                match result {
                    Ok(()) => None,
                    Err(t) => Some(t@),
                },
            ),
            r@ == start_action(final(self)@),
    {
        if self.stage == StartStage::Kill {
            match result {
                Err(t) => {
                    let name = self.current_name();
                    self.fail(StartError::ReplaceFailed { name, cause: t });
                },
                Ok(()) => {
                    let n = self.existing.len();
                    assert(self.kill_k < n);
                    self.kill_k = self.kill_k + 1;
                    self.next_kill();
                },
            }
        }
        self.action()
    }

    /// Reports the text of the ssh client configuration (`None` when it could not be read).
    pub fn config_read(&mut self, config: Option<String>) -> (r: StartAction)
        requires
            old(self).wf(),
        ensures
            final(self).wf(),
            final(self)@ == start_on_config(
                old(self)@,
                match config {
                    Some(t) => Some(t@),
                    None => None,
                },
            ),
            r@ == start_action(final(self)@),
    {
        if self.stage == StartStage::Config {
            let text = match config {
                Some(t) => t,
                None => String::new(),
            };
            let rule = self.rule.as_ref().unwrap().duplicate();
            match check_host_forward_conflict(text.as_str(), &rule) {
                Err(c) => {
                    self.fail(StartError::Conflict(c));
                },
                Ok(()) => {
                    self.stage = StartStage::Listeners;
                },
            }
        }
        self.action()
    }

    /// Reports the processes listening on the port (`Err` when they could not be listed).
    pub fn listeners_listed(&mut self, listed: Result<Vec<u32>, String>) -> (r: StartAction)
        requires
            old(self).wf(),
        ensures
            final(self).wf(),
            final(self)@ == start_on_listeners(
                old(self)@,
                match listed {
                    Ok(v) => Ok(v@),
                    Err(t) => Err(t@),
                },
            ),
            r@ == start_action(final(self)@),
    {
        if self.stage == StartStage::Listeners {
            match listed {
                Ok(v) => {
                    self.listeners = v;
                    self.listener_k = 0;
                    self.next_listener();
                },
                Err(_) => {
                    self.stage = StartStage::Launch;
                },
            }
        }
        self.action()
    }

    /// Reports how running ssh went: whether it exited successfully with its
    /// exit status, or why it could not be run.
    pub fn launched(&mut self, outcome: Result<(bool, String), String>) -> (r: StartAction)
        requires
            old(self).wf(),
        ensures
            final(self).wf(),
            final(self)@ == start_on_launched(
                old(self)@,
                match outcome {
                    Ok((ok, status)) => Ok((ok, status@)),
                    Err(t) => Err(t@),
                },
            ),
            r@ == start_action(final(self)@),
    {
        if self.stage == StartStage::Launch {
            match outcome {
                Err(t) => {
                    self.fail(StartError::Launch(t));
                },
                Ok((ok, status)) => {
                    if ok {
                        self.probes = 0;
                        self.stable = None;
                        self.samples = 0;
                        self.stage = StartStage::Ready;
                    } else {
                        let name = self.current_name();
                        self.fail(StartError::Exited { name, status });
                    }
                },
            }
        }
        self.action()
    }

    /// Starts a run that starts the rules `names` of `rules`, in order.
    pub fn new(rules: RuleTable, names: Vec<String>) -> (r: (StartRun, StartAction))
        requires
            rules.wf(),
        ensures
            r.0.wf(),
            r.0@ == start_begin(
                StartView {
                    rules: rules@,
                    order: rules.names(),
                    names: string_views(names@),
                    index: 0,
                    rule: None,
                    dups: seq![],
                    dup_k: 0,
                    running: seq![],
                    stale: seq![],
                    existing: seq![],
                    kill_k: 0,
                    listeners: seq![],
                    listener_k: 0,
                    probes: 0,
                    stable: None,
                    samples: 0,
                    stage: StartStage::Saved,
                    failure: None,
                    initial: rules@,
                },
            ),
            r.1@ == start_action(r.0@),
    {
        let ghost orig = rules@;
        let mut run = StartRun {
            rules,
            names,
            index: 0,
            rule: None,
            dups: Vec::new(),
            dup_k: 0,
            running: Vec::new(),
            stale: Vec::new(),
            existing: Vec::new(),
            kill_k: 0,
            listeners: Vec::new(),
            listener_k: 0,
            probes: 0,
            stable: None,
            samples: 0,
            stage: StartStage::Saved,
            failure: None,
            initial: Ghost(orig),
        };
        proof {
            assert(string_views(run.dups@) =~= Seq::<Seq<char>>::empty());
            assert(string_views(run.running@) =~= Seq::<Seq<char>>::empty());
            assert(string_views(run.stale@) =~= Seq::<Seq<char>>::empty());
            assert(run.existing@ =~= Seq::<u32>::empty());
            assert(run.listeners@ =~= Seq::<u32>::empty());
        }
        run.begin();
        let a = run.action();
        (run, a)
    }
}

/// Marks each rule of `names` that `rules` holds as not running, in order.
fn stop_names(rules: &mut RuleTable, names: &Vec<String>)
    requires
        old(rules).wf(),
    ensures
        final(rules).wf(),
        final(rules).names() == old(rules).names(),
        final(rules)@ == stopped_all(old(rules)@, string_views(names@)),
{
    let ghost m0 = rules@;
    let ghost ns = string_views(names@);
    let ghost order = rules.names();
    assert(ns.take(0) =~= Seq::<Seq<char>>::empty());
    for i in 0..names.len()
        invariant
            ns == string_views(names@),
            rules.wf(),
            rules.names() == order,
            rules@ == stopped_all(m0, ns.take(i as int)),
    {
        let k = names[i].clone();
        let ghost before = rules@;
        rules.set_state(&k, false, None);
        proof {
            assert(ns.take(i + 1).drop_last() =~= ns.take(i as int));
            assert(ns.take(i + 1).last() == k@);
        }
    }
    assert(ns.take(names.len() as int) =~= ns);
}

/// Copies a vector of strings.
fn clone_strings(v: &Vec<String>) -> (r: Vec<String>)
    ensures
        string_views(r@) == string_views(v@),
{
    let mut out: Vec<String> = Vec::new();
    for i in 0..v.len()
        invariant
            string_views(out@) == string_views(v@).take(i as int),
    {
        let s = v[i].clone();
        proof {
            lemma_string_views_push(out@, s);
            assert(string_views(v@).take(i + 1) =~= string_views(v@).take(i as int).push(v@[i as int]@));
        }
        out.push(s);
    }
    assert(string_views(v@).take(v.len() as int) =~= string_views(v@));
    out
}

/// The other rules on the port are rules, and are not the rule itself.
pub proof fn lemma_same_port_others(
    order: Seq<Seq<char>>,
    rules: Map<Seq<char>, RuleView>,
    name: Seq<char>,
    port: u16,
)
    ensures
        forall|k: Seq<char>| #[trigger] same_port_others(order, rules, name, port).contains(k)
            ==> rules.dom().contains(k) && k != name && rules[k].local_port == port,
    decreases order.len(),
{
    if order.len() > 0 {
        lemma_same_port_others(order.drop_last(), rules, name, port);
        let rest = same_port_others(order.drop_last(), rules, name, port);
        assert forall|k: Seq<char>| #[trigger] same_port_others(order, rules, name, port).contains(k)
            implies rules.dom().contains(k) && k != name && rules[k].local_port == port by {
            let s = same_port_others(order, rules, name, port);
            let i = choose|i: int| 0 <= i < s.len() && s[i] == k;
            if i < rest.len() {
                assert(rest[i] == k);
                assert(rest.contains(k));
            }
        }
    }
}

/// Starting rules changes only the status and process id of rules: every
/// rule keeps its ports and host, and no rule appears or disappears.
pub proof fn lemma_start_keeps_settings(s: StartView)
    requires
        start_wf(s),
    ensures
        settings_kept(s.initial, s.rules),
{
}

/// When a run saves, every name given is marked running with its process,
/// except a name after which another name on the same local port was started:
/// starting that later rule marks the earlier one as not running when its
/// process is gone. A rule not given is as it was, or, sharing the local port
/// of a rule given, marked as not running.
pub proof fn lemma_start_saves_started(s: StartView)
    requires
        start_wf(s),
        s.stage == StartStage::Saved,
    ensures
        forall|k: int|
            0 <= k < s.names.len() && !later_same_port(s.names, s.initial, k, s.names.len() as int)
                ==> #[trigger] started_at(s.rules, s.names, k),
        others_kept(s.initial, s.rules, s.names),
{
}

/// Starting every rule of a table whose rules use distinct local ports marks
/// each of them running with its process, once the run saves.
pub proof fn lemma_start_distinct_ports_all_started(s: StartView)
    requires
        start_wf(s),
        s.stage == StartStage::Saved,
        forall|i: int, j: int|
            0 <= i < j < s.names.len() ==> #[trigger] port_of(s.initial, s.names[i]) != #[trigger] port_of(
                s.initial,
                s.names[j],
            ),
    ensures
        forall|k: int| 0 <= k < s.names.len() ==> #[trigger] started_at(s.rules, s.names, k),
{
    lemma_start_saves_started(s);
    assert forall|k: int| 0 <= k < s.names.len() implies #[trigger] started_at(s.rules, s.names, k) by {
        if later_same_port(s.names, s.initial, k, s.names.len() as int) {
            let j = choose|j: int|
                k < j < s.names.len() && #[trigger] port_of(s.initial, s.names[j]) == port_of(
                    s.initial,
                    s.names[k],
                );
            assert(port_of(s.initial, s.names[k]) != port_of(s.initial, s.names[j]));
        }
    }
}

/// A failed run stays failed, whatever is reported.
pub proof fn lemma_start_failed_absorbs(
    s: StartView,
    found: Result<Option<u32>, Seq<char>>,
    listed: Result<Seq<u32>, Seq<char>>,
    failure: Option<Seq<char>>,
    config: Option<Seq<char>>,
    outcome: Result<(bool, Seq<char>), Seq<char>>,
)
    requires
        s.stage == StartStage::Failed,
    ensures
        start_on_resolved(s, found) == s,
        start_on_processes(s, listed) == s,
        start_on_killed(s, failure) == s,
        start_on_config(s, config) == s,
        start_on_listeners(s, listed) == s,
        start_on_launched(s, outcome) == s,
{
}

/// A rule is marked running only when the same process was found at every
/// look: the look that finishes it is the last one allowed, and all earlier
/// looks found that process.
pub proof fn lemma_ready_needs_every_look(s: StartView, p: u32)
    requires
        start_wf(s),
        s.stage == StartStage::Ready,
        start_on_resolved(s, Ok(Some(p))).index == s.index + 1,
    ensures
        s.probes == READY_PROBES - 1,
        s.samples == READY_PROBES - 1,
        s.stable == Some(p),
{
}

} // verus!
