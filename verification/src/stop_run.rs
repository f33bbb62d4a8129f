//! Stopping rules, as a state machine. The caller performs each action it is
//! handed (query the process table, kill a process, look for the rule's
//! process again, look for a listener) and reports what happened; the machine
//! decides what comes next and how the rule table changes.
use vstd::prelude::*;

use crate::cmd::common::{PortForwardRule, RuleTable, RuleView};
use crate::order::{increasing, increasing_set, sorted_set};
use crate::services::is_missing_process_error;
use crate::text::{decimal, has_infix, lower_seq, string_views};

verus! {

/// How many times the machine looks for the rule's process after the kills.
pub const STOP_PROBES: usize = 50;

/// Where a run stands.
#[derive(PartialEq, Eq, Structural, Clone, Copy)]
pub enum RunStage {
    Inspect,
    Kill,
    Probe,
    Listener,
    Saved,
    Failed,
}

/// Why stopping failed.
pub enum StopError {
    /// No rule has this name.
    NotFound(String),
    /// Stopping this rule failed for the given reason.
    Failed { name: String, cause: String },
}

/// The value of a [`StopError`].
pub enum StopErrorView {
    NotFound(Seq<char>),
    Failed { name: Seq<char>, cause: Seq<char> },
}

impl View for StopError {
    type V = StopErrorView;

    open spec fn view(&self) -> StopErrorView {
        match self {
            StopError::NotFound(n) => StopErrorView::NotFound(n@),
            StopError::Failed { name, cause } => StopErrorView::Failed { name: name@, cause: cause@ },
        }
    }
}

impl StopError {
    /// The message shown for this error.
    pub fn message(&self) -> (r: String)
        ensures
            r@ == match self@ {
                StopErrorView::NotFound(n) => "Rule '"@ + n + "' not found"@,
                StopErrorView::Failed { name, cause } => "Failed to stop '"@ + name + "'"@,
            },
    {
        match self {
            StopError::NotFound(n) => String::from_str("Rule '").concat(n.as_str()).concat(
                "' not found",
            ),
            StopError::Failed { name, cause } => String::from_str("Failed to stop '").concat(
                name.as_str(),
            ).concat("'"),
        }
    }

    fn duplicate(&self) -> (r: StopError)
        ensures
            r@ == self@,
    {
        match self {
            StopError::NotFound(n) => StopError::NotFound(n.clone()),
            StopError::Failed { name, cause } => StopError::Failed {
                name: name.clone(),
                cause: cause.clone(),
            },
        }
    }
}

/// What the caller has to do next.
pub enum StopAction {
    /// List the ssh clients of the rule (`ps`), and the processes listening on
    /// the local port with whether each is an ssh client; report with `inspected`.
    Inspect { local_port: u16, remote_port: u16, remote_host: String },
    /// Kill this process; report with `killed`.
    Kill(u32),
    /// Look for the process that holds the rule (no saved process id); report
    /// with `probed`. When `pause` is set, wait 100 ms first.
    Probe { local_port: u16, remote_port: u16, remote_host: String, pause: bool },
    /// Wait 100 ms, then tell whether no process listens on the port; report
    /// with `listener_checked`.
    CheckListener { local_port: u16 },
    /// Every rule is stopped: save the table.
    Save,
    /// Stopping failed; nothing is saved.
    Fail(StopError),
}

/// The value of a [`StopAction`].
pub enum StopActionView {
    Inspect { local_port: u16, remote_port: u16, remote_host: Seq<char> },
    Kill(u32),
    Probe { local_port: u16, remote_port: u16, remote_host: Seq<char>, pause: bool },
    CheckListener { local_port: u16 },
    Save,
    Fail(StopErrorView),
}

impl View for StopAction {
    type V = StopActionView;

    open spec fn view(&self) -> StopActionView {
        match self {
            StopAction::Inspect { local_port, remote_port, remote_host } => StopActionView::Inspect {
                local_port: *local_port,
                remote_port: *remote_port,
                remote_host: remote_host@,
            },
            StopAction::Kill(p) => StopActionView::Kill(*p),
            StopAction::Probe { local_port, remote_port, remote_host, pause } =>
                StopActionView::Probe {
                local_port: *local_port,
                remote_port: *remote_port,
                remote_host: remote_host@,
                pause: *pause,
            },
            StopAction::CheckListener { local_port } => StopActionView::CheckListener {
                local_port: *local_port,
            },
            StopAction::Save => StopActionView::Save,
            StopAction::Fail(e) => StopActionView::Fail(e@),
        }
    }
}

/// The state of a run, by value.
pub struct StopView {
    pub rules: Map<Seq<char>, RuleView>,
    pub names: Seq<Seq<char>>,
    pub index: int,
    pub rule: Option<RuleView>,
    pub pids: Seq<u32>,
    pub killed: int,
    pub probes: int,
    pub stage: RunStage,
    pub failure: Option<StopErrorView>,
    pub initial: Map<Seq<char>, RuleView>,
}

/// A rule marked as not running.
pub open spec fn stopped(rule: RuleView) -> RuleView {
    RuleView { status: false, pid: None, ..rule }
}

/// `rules` with each of `names` that it holds marked as not running, in order.
pub open spec fn stopped_all(rules: Map<Seq<char>, RuleView>, names: Seq<Seq<char>>) -> Map<
    Seq<char>,
    RuleView,
>
    decreases names.len(),
{
    if names.len() == 0 {
        rules
    } else {
        let m = stopped_all(rules, names.drop_last());
        if m.dom().contains(names.last()) {
            m.insert(names.last(), stopped(m[names.last()]))
        } else {
            m
        }
    }
}

/// The listeners that are ssh clients, in order.
pub open spec fn ssh_listeners(listeners: Seq<(u32, bool)>) -> Seq<u32>
    decreases listeners.len(),
{
    if listeners.len() == 0 {
        seq![]
    } else if listeners.last().1 {
        ssh_listeners(listeners.drop_last()).push(listeners.last().0)
    } else {
        ssh_listeners(listeners.drop_last())
    }
}

/// The processes to kill for a rule: its saved process, its ssh clients and the
/// listeners on its port that are ssh clients.
pub open spec fn kill_list(saved: Option<u32>, rule_pids: Seq<u32>, listeners: Seq<(u32, bool)>) -> Seq<u32> {
    (match saved {
        Some(p) => seq![p],
        None => seq![],
    }) + rule_pids + ssh_listeners(listeners)
}

/// Starts on the name at `index`, or finishes.
pub open spec fn stop_begin(s: StopView) -> StopView {
    if s.index >= s.names.len() {
        StopView { stage: RunStage::Saved, ..s }
    } else if !s.rules.dom().contains(s.names[s.index]) {
        StopView {
            stage: RunStage::Failed,
            failure: Some(StopErrorView::NotFound(s.names[s.index])),
            ..s
        }
    } else {
        StopView { stage: RunStage::Inspect, rule: Some(s.rules[s.names[s.index]]), ..s }
    }
}

/// Kills the next process, or starts looking whether the rule is gone.
pub open spec fn stop_next_kill(s: StopView) -> StopView {
    if s.killed < s.pids.len() {
        StopView { stage: RunStage::Kill, ..s }
    } else {
        StopView { stage: RunStage::Probe, probes: 0, ..s }
    }
}

/// Marks the current rule as stopped and goes on with the next name.
pub open spec fn stop_finish_name(s: StopView) -> StopView {
    let name = s.names[s.index];
    stop_begin(
        StopView {
            rules: s.rules.insert(name, stopped(s.rules[name])),
            index: s.index + 1,
            ..s
        },
    )
}

/// Fails the run on the current name.
pub open spec fn stop_fail(s: StopView, cause: Seq<char>) -> StopView {
    StopView {
        stage: RunStage::Failed,
        failure: Some(StopErrorView::Failed { name: s.names[s.index], cause: cause }),
        ..s
    }
}

/// The processes of the current rule are known.
pub open spec fn stop_on_inspected(s: StopView, rule_pids: Seq<u32>, listeners: Seq<(u32, bool)>) -> StopView {
    if s.stage == RunStage::Inspect {
        stop_next_kill(
            StopView {
                pids: sorted_set(kill_list(s.rule->0.pid, rule_pids, listeners).to_set()),
                killed: 0,
                ..s
            },
        )
    } else {
        s
    }
}

/// A kill finished; `failure` is its error text when it failed.
pub open spec fn stop_on_killed(s: StopView, failure: Option<Seq<char>>) -> StopView {
    if s.stage == RunStage::Kill {
        match failure {
            Some(text) => if has_infix(lower_seq(text), "no such process"@) {
                stop_next_kill(StopView { killed: s.killed + 1, ..s })
            } else {
                stop_fail(s, text)
            },
            None => stop_next_kill(StopView { killed: s.killed + 1, ..s }),
        }
    } else {
        s
    }
}

/// A look for the rule's process finished.
pub open spec fn stop_on_probed(s: StopView, found: Result<Option<u32>, Seq<char>>) -> StopView {
    if s.stage == RunStage::Probe {
        match found {
            Err(text) => stop_fail(s, text),
            Ok(None) => stop_finish_name(s),
            Ok(Some(_)) => if s.probes + 1 < STOP_PROBES {
                StopView { probes: s.probes + 1, ..s }
            } else {
                StopView { probes: s.probes + 1, stage: RunStage::Listener, ..s }
            },
        }
    } else {
        s
    }
}

/// The text given when a listener is still there after stopping.
pub open spec fn still_running_text(local_port: u16) -> Seq<char> {
    "ssh listener for 127.0.0.1:"@ + decimal(local_port as nat) + " is still running after stop"@
}

/// The last look for a listener finished.
pub open spec fn stop_on_listener(s: StopView, free: bool) -> StopView {
    if s.stage == RunStage::Listener {
        if free {
            stop_finish_name(s)
        } else {
            stop_fail(s, still_running_text(s.rule->0.local_port))
        }
    } else {
        s
    }
}

/// The action a state asks for.
pub open spec fn stop_action(s: StopView) -> StopActionView {
    match s.stage {
        RunStage::Inspect => StopActionView::Inspect {
            local_port: s.rule->0.local_port,
            remote_port: s.rule->0.remote_port,
            remote_host: s.rule->0.remote_host,
        },
        RunStage::Kill => StopActionView::Kill(s.pids[s.killed]),
        RunStage::Probe => StopActionView::Probe {
            local_port: s.rule->0.local_port,
            remote_port: s.rule->0.remote_port,
            remote_host: s.rule->0.remote_host,
            pause: s.probes > 0,
        },
        RunStage::Listener => StopActionView::CheckListener { local_port: s.rule->0.local_port },
        RunStage::Saved => StopActionView::Save,
        RunStage::Failed => StopActionView::Fail(s.failure->0),
    }
}

/// The states a run can be in.
pub open spec fn stop_wf(s: StopView) -> bool {
    &&& 0 <= s.index <= s.names.len()
    &&& s.rules == stopped_all(s.initial, s.names.take(s.index))
    &&& (s.stage == RunStage::Inspect || s.stage == RunStage::Kill || s.stage == RunStage::Probe
        || s.stage == RunStage::Listener) ==> {
        &&& s.index < s.names.len()
        &&& s.rules.dom().contains(s.names[s.index])
        &&& s.rule == Some(s.rules[s.names[s.index]])
    }
    &&& s.stage == RunStage::Kill ==> 0 <= s.killed < s.pids.len()
    &&& s.stage == RunStage::Probe ==> 0 <= s.probes < STOP_PROBES
    &&& s.stage == RunStage::Saved ==> s.index == s.names.len()
    &&& s.stage == RunStage::Failed ==> s.failure is Some && s.index < s.names.len()
}

/// A run of stopping rules.
pub struct StopRun {
    pub rules: RuleTable,
    pub names: Vec<String>,
    pub index: usize,
    pub rule: Option<PortForwardRule>,
    pub pids: Vec<u32>,
    pub killed: usize,
    pub probes: usize,
    pub stage: RunStage,
    pub failure: Option<StopError>,
    pub initial: Ghost<Map<Seq<char>, RuleView>>,
}

impl View for StopRun {
    type V = StopView;

    open spec fn view(&self) -> StopView {
        StopView {
            rules: self.rules@,
            names: string_views(self.names@),
            index: self.index as int,
            rule: match self.rule {
                Some(r) => Some(r@),
                None => None,
            },
            pids: self.pids@,
            killed: self.killed as int,
            probes: self.probes as int,
            stage: self.stage,
            failure: match self.failure {
                Some(f) => Some(f@),
                None => None,
            },
            initial: self.initial@,
        }
    }
}

/// Stopping a rule twice in a row is the same as once.
proof fn lemma_stopped_all_step(m: Map<Seq<char>, RuleView>, names: Seq<Seq<char>>, i: int)
    requires
        0 <= i < names.len(),
    ensures
        stopped_all(m, names.take(i + 1)) == (if stopped_all(m, names.take(i)).dom().contains(
            names[i],
        ) {
            stopped_all(m, names.take(i)).insert(
                names[i],
                stopped(stopped_all(m, names.take(i))[names[i]]),
            )
        } else {
            stopped_all(m, names.take(i))
        }),
{
    assert(names.take(i + 1).drop_last() =~= names.take(i));
    assert(names.take(i + 1).last() == names[i]);
}

/// Marking rules stopped keeps the set of names.
pub proof fn lemma_stopped_all_dom(m: Map<Seq<char>, RuleView>, names: Seq<Seq<char>>)
    ensures
        stopped_all(m, names).dom() == m.dom(),
    decreases names.len(),
{
    if names.len() > 0 {
        lemma_stopped_all_dom(m, names.drop_last());
        let p = stopped_all(m, names.drop_last());
        if p.dom().contains(names.last()) {
            assert(p.insert(names.last(), stopped(p[names.last()])).dom() =~= p.dom());
        }
    }
}

impl StopRun {
    /// Whether the run is in a reachable state.
    pub open spec fn wf(&self) -> bool {
        &&& self.rules.wf()
        &&& stop_wf(self@)
    }

    /// The action the run asks for now.
    pub fn action(&self) -> (r: StopAction)
        requires
            self.wf(),
        ensures
            r@ == stop_action(self@),
    {
        match self.stage {
            RunStage::Inspect => {
                let rule = self.rule.as_ref().unwrap();
                StopAction::Inspect {
                    local_port: rule.local_port,
                    remote_port: rule.remote_port,
                    remote_host: rule.remote_host.clone(),
                }
            },
            RunStage::Kill => StopAction::Kill(self.pids[self.killed]),
            RunStage::Probe => {
                let rule = self.rule.as_ref().unwrap();
                StopAction::Probe {
                    local_port: rule.local_port,
                    remote_port: rule.remote_port,
                    remote_host: rule.remote_host.clone(),
                    pause: self.probes > 0,
                }
            },
            RunStage::Listener => {
                let rule = self.rule.as_ref().unwrap();
                StopAction::CheckListener { local_port: rule.local_port }
            },
            RunStage::Saved => StopAction::Save,
            RunStage::Failed => StopAction::Fail(self.failure.as_ref().unwrap().duplicate()),
        }
    }

    /// Starts on the name at `index`, or finishes.
    fn begin(&mut self)
        requires
            old(self).rules.wf(),
            0 <= old(self).index <= old(self).names.len(),
            old(self)@.rules == stopped_all(
                old(self)@.initial,
                old(self)@.names.take(old(self).index as int),
            ),
        ensures
            final(self)@ == stop_begin(old(self)@),
            final(self).wf(),
    {
        if self.index >= self.names.len() {
            self.stage = RunStage::Saved;
            return ;
        }
        let name = self.names[self.index].clone();
        assert(name@ == self@.names[self.index as int]);
        match self.rules.get(&name) {
            None => {
                self.stage = RunStage::Failed;
                self.failure = Some(StopError::NotFound(name));
            },
            Some(rule) => {
                let copy = rule.duplicate();
                self.rule = Some(copy);
                self.stage = RunStage::Inspect;
            },
        }
    }

    /// Kills the next process, or starts looking whether the rule is gone.
    fn next_kill(&mut self)
        requires
            old(self).rules.wf(),
            stop_wf(StopView { stage: RunStage::Inspect, ..old(self)@ }),
            0 <= old(self).killed <= old(self).pids.len(),
        ensures
            final(self)@ == stop_next_kill(old(self)@),
            final(self).wf(),
    {
        if self.killed < self.pids.len() {
            self.stage = RunStage::Kill;
        } else {
            self.probes = 0;
            self.stage = RunStage::Probe;
        }
    }

    /// Marks the current rule as stopped and goes on with the next name.
    fn finish_name(&mut self)
        requires
            old(self).rules.wf(),
            stop_wf(StopView { stage: RunStage::Inspect, ..old(self)@ }),
        ensures
            final(self)@ == stop_finish_name(old(self)@),
            final(self).wf(),
    {
        let ghost s = self@;
        let name = self.names[self.index].clone();
        assert(name@ == s.names[s.index]);
        self.rules.set_state(&name, false, None);
        proof {
            lemma_stopped_all_step(s.initial, s.names, s.index);
            assert(self.rules@ == s.rules.insert(name@, stopped(s.rules[name@])));
        }
        let n = self.names.len();
        assert(self.index < n);
        self.index = self.index + 1;
        self.begin();
    }

    /// Fails the run on the current name.
    fn fail(&mut self, cause: String)
        requires
            old(self).rules.wf(),
            stop_wf(StopView { stage: RunStage::Inspect, ..old(self)@ }),
        ensures
            final(self)@ == stop_fail(old(self)@, cause@),
            final(self).wf(),
    {
        let name = self.names[self.index].clone();
        self.failure = Some(StopError::Failed { name, cause });
        self.stage = RunStage::Failed;
    }

    /// Reports the processes of the current rule: its ssh clients, and the
    /// processes listening on its port with whether each is an ssh client.
    pub fn inspected(&mut self, rule_pids: &Vec<u32>, listeners: &Vec<(u32, bool)>) -> (r: StopAction)
        requires
            old(self).wf(),
        ensures
            final(self).wf(),
            old(self).stage == RunStage::Inspect ==> (increasing(final(self).pids@)
                && final(self).pids@.to_set() == kill_list(
                old(self)@.rule->0.pid,
                rule_pids@,
                listeners@,
            ).to_set()),
            final(self)@ == stop_on_inspected(old(self)@, rule_pids@, listeners@),
            r@ == stop_action(final(self)@),
    {
        if self.stage != RunStage::Inspect {
            return self.action();
        }
        let mut all: Vec<u32> = Vec::new();
        let saved = self.rule.as_ref().unwrap().pid;
        if let Some(p) = saved {
            all.push(p);
        }
        let ghost pre = all@;
        for i in 0..rule_pids.len()
            invariant
                all@ == pre + rule_pids@.take(i as int),
        {
            all.push(rule_pids[i]);
            assert(rule_pids@.take(i + 1) =~= rule_pids@.take(i as int).push(rule_pids@[i as int]));
            assert(all@ =~= pre + rule_pids@.take(i + 1));
        }
        assert(rule_pids@.take(rule_pids.len() as int) =~= rule_pids@);
        let ghost mid = all@;
        for i in 0..listeners.len()
            invariant
                all@ == mid + ssh_listeners(listeners@.take(i as int)),
        {
            let (p, is_ssh) = listeners[i];
            assert(listeners@.take(i + 1).drop_last() =~= listeners@.take(i as int));
            assert(listeners@.take(i + 1).last() == (p, is_ssh));
            if is_ssh {
                all.push(p);
            }
            assert(all@ =~= mid + ssh_listeners(listeners@.take(i + 1)));
        }
        assert(listeners@.take(listeners.len() as int) =~= listeners@);
        assert(all@ =~= kill_list(saved, rule_pids@, listeners@));
        self.pids = increasing_set(&all);
        self.killed = 0;
        self.next_kill();
        self.action()
    }

    /// Reports the end of a kill: `Err` holds the error text when it failed.
    pub fn killed(&mut self, result: Result<(), String>) -> (r: StopAction)
        requires
            old(self).wf(),
        ensures
            final(self).wf(),
            final(self)@ == stop_on_killed(
                old(self)@,
                match result {
                    Ok(()) => None,
                    Err(t) => Some(t@),
                },
            ),
            r@ == stop_action(final(self)@),
    {
        if self.stage != RunStage::Kill {
            return self.action();
        }
        match result {
            Err(text) => {
                if !is_missing_process_error(text.as_str()) {
                    self.fail(text);
                    return self.action();
                }
            },
            Ok(()) => {},
        }
        let n = self.pids.len();
        assert(self.killed < n);
        self.killed = self.killed + 1;
        self.next_kill();
        self.action()
    }

    /// Reports a look for the rule's process: the process found, or the error text.
    pub fn probed(&mut self, found: Result<Option<u32>, String>) -> (r: StopAction)
        requires
            old(self).wf(),
        ensures
            final(self).wf(),
            final(self)@ == stop_on_probed(
                old(self)@,
                match found {
                    Ok(p) => Ok(p),
                    Err(t) => Err(t@),
                },
            ),
            r@ == stop_action(final(self)@),
    {
        if self.stage != RunStage::Probe {
            return self.action();
        }
        match found {
            Err(text) => {
                self.fail(text);
            },
            Ok(None) => {
                self.finish_name();
            },
            Ok(Some(_)) => {
                self.probes = self.probes + 1;
                if self.probes >= STOP_PROBES {
                    self.stage = RunStage::Listener;
                }
            },
        }
        self.action()
    }

    /// Reports whether no process listens on the port any more.
    pub fn listener_checked(&mut self, free: bool) -> (r: StopAction)
        requires
            old(self).wf(),
        ensures
            final(self).wf(),
            final(self)@ == stop_on_listener(old(self)@, free),
            r@ == stop_action(final(self)@),
    {
        if self.stage != RunStage::Listener {
            return self.action();
        }
        if free {
            self.finish_name();
        } else {
            let port = self.rule.as_ref().unwrap().local_port;
            let text = String::from_str("ssh listener for 127.0.0.1:").concat(
                crate::text::decimal_string(port as u32).as_str(),
            ).concat(" is still running after stop");
            self.fail(text);
        }
        self.action()
    }
}

impl StopRun {
    /// Starts a run that stops the rules `names` of `rules`, in order.
    pub fn new(rules: RuleTable, names: Vec<String>) -> (r: (StopRun, StopAction))
        requires
            rules.wf(),
        ensures
            r.0.wf(),
            r.0@ == stop_begin(
                StopView {
                    rules: rules@,
                    names: string_views(names@),
                    index: 0,
                    rule: None,
                    pids: Seq::empty(),
                    killed: 0,
                    probes: 0,
                    stage: RunStage::Inspect,
                    failure: None,
                    initial: rules@,
                },
            ),
            r.1@ == stop_action(r.0@),
    {
        let ghost orig = rules@;
        let mut run = StopRun {
            rules,
            names,
            index: 0,
            rule: None,
            pids: Vec::new(),
            killed: 0,
            probes: 0,
            stage: RunStage::Inspect,
            failure: None,
            initial: Ghost(orig),
        };
        assert(run@.names.take(0) =~= Seq::<Seq<char>>::empty());
        run.begin();
        let a = run.action();
        (run, a)
    }
}

/// When a run saves, the table is the one the run began with, every name
/// given marked as not running; nothing else changed.
pub proof fn lemma_stop_saves_stopped(s: StopView)
    requires
        stop_wf(s),
        s.stage == RunStage::Saved,
    ensures
        s.rules == stopped_all(s.initial, s.names),
{
    assert(s.names.take(s.names.len() as int) =~= s.names);
}

/// When a run saves, each name given that names a rule of the table it began
/// with is marked not running with no process, its settings kept; given every
/// name of the table (`stop all`), every rule is stopped.
pub proof fn lemma_stop_saves_every_name(s: StopView)
    requires
        stop_wf(s),
        s.stage == RunStage::Saved,
    ensures
        forall|k: Seq<char>|
            #[trigger] s.initial.dom().contains(k) && s.names.contains(k) ==> s.rules.dom().contains(k)
                && s.rules[k] == stopped(s.initial[k]),
{
    lemma_stop_saves_stopped(s);
    lemma_stopped_all_dom(s.initial, s.names);
    assert forall|k: Seq<char>| #[trigger] s.initial.dom().contains(k) && s.names.contains(k) implies s.rules.dom().contains(k)
        && s.rules[k] == stopped(s.initial[k]) by {
        crate::start_run::lemma_stopped_all_in(s.initial, s.names, k);
    }
}

/// A failed run stays failed, whatever is reported.
pub proof fn lemma_stop_failed_absorbs(
    s: StopView,
    rule_pids: Seq<u32>,
    listeners: Seq<(u32, bool)>,
    failure: Option<Seq<char>>,
    found: Result<Option<u32>, Seq<char>>,
    free: bool,
)
    requires
        s.stage == RunStage::Failed,
    ensures
        stop_on_inspected(s, rule_pids, listeners) == s,
        stop_on_killed(s, failure) == s,
        stop_on_probed(s, found) == s,
        stop_on_listener(s, free) == s,
{
}

/// Stopping rules changes only the status and process id of rules: every
/// rule keeps its ports and host, and no rule appears or disappears.
pub proof fn lemma_stop_keeps_settings(s: StopView)
    requires
        stop_wf(s),
    ensures
        crate::start_run::settings_kept(s.initial, s.rules),
{
    crate::start_run::lemma_stopped_all_settings(s.initial, s.names.take(s.index));
}

} // verus!
