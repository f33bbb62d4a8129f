//! The state of the desktop window and how it reacts to the user and to the
//! background worker. Drawing, the worker thread and its channels stay with
//! the caller; every decision about what the window shows is taken here.
use vstd::prelude::*;

use crate::cmd::common::{
    PortForwardRule,
    RuleView,
    distinct_names,
    entry_view,
    entry_views,
    has_name,
    lemma_map_of_dom,
    lemma_map_of_push,
    lemma_map_of_remove,
    lemma_map_of_row,
    lemma_map_of_update,
    map_of,
    names_of,
};
use crate::order::{lemma_sorted_rows, rows_sorted, sort_rows, sorted_rows};
use crate::services::make_rule;
use crate::text::{
    chars_of,
    decimal,
    decimal_string,
    lemma_decimal_parses,
    parse_u16,
    parse_unsigned,
    string_views,
    trim,
    trim_chars,
    string_of,
};

verus! {

/// The rules and hosts the window shows, as read by the worker.
pub struct DashboardData {
    pub rules: Vec<(String, PortForwardRule)>,
    pub hosts: Vec<String>,
}

/// A job for the background worker.
pub enum WorkerCommand {
    /// Reload the rules and hosts; show the summary when it works.
    Refresh(Option<String>),
    /// Start these rules; show the summary when it works.
    Start(Vec<String>, String),
    /// Stop these rules; show the summary when it works.
    Stop(Vec<String>, String),
}

/// A line shown below the form.
pub struct UiMessage {
    pub text: String,
    pub error: bool,
}

/// What the worker reports when a job ends.
pub struct WorkerEvent {
    pub dashboard: Option<DashboardData>,
    pub message: Option<UiMessage>,
    pub completed_rules: Vec<String>,
}

/// A start or stop that the worker has not finished.
#[derive(PartialEq, Eq, Structural, Clone, Copy, Debug)]
pub enum PendingRuleState {
    Starting,
    Stopping,
}

/// The editor form; the ports are the typed text.
pub struct RuleForm {
    pub original_name: Option<String>,
    pub name: String,
    pub local_port: String,
    pub remote_port: String,
    pub remote_host: String,
}

/// The value of a [`RuleForm`].
pub struct FormView {
    pub original_name: Option<Seq<char>>,
    pub name: Seq<char>,
    pub local_port: Seq<char>,
    pub remote_port: Seq<char>,
    pub remote_host: Seq<char>,
}

impl View for RuleForm {
    type V = FormView;

    open spec fn view(&self) -> FormView {
        FormView {
            original_name: match self.original_name {
                Some(n) => Some(n@),
                None => None,
            },
            name: self.name@,
            local_port: self.local_port@,
            remote_port: self.remote_port@,
            remote_host: self.remote_host@,
        }
    }
}

/// The value of a [`UiMessage`].
pub open spec fn message_view(m: Option<UiMessage>) -> Option<(Seq<char>, bool)> {
    match m {
        Some(u) => Some((u.text@, u.error)),
        None => None,
    }
}

/// The value of a worker event: the dashboard's rows and hosts, the message,
/// and the rules whose job ended.
pub struct EventView {
    pub dashboard: Option<(Seq<(Seq<char>, RuleView)>, Seq<Seq<char>>)>,
    pub message: Option<(Seq<char>, bool)>,
    pub completed: Seq<Seq<char>>,
}

/// The value of a [`WorkerEvent`].
pub open spec fn event_view(e: WorkerEvent) -> EventView {
    EventView {
        dashboard: match e.dashboard {
            Some(d) => Some((entry_views(d.rules@), string_views(d.hosts@))),
            None => None,
        },
        message: message_view(e.message),
        completed: string_views(e.completed_rules@),
    }
}

/// The pending jobs by rule name.
pub open spec fn pending_entries(v: Seq<(String, PendingRuleState)>) -> Seq<(Seq<char>, PendingRuleState)> {
    v.map_values(|e: (String, PendingRuleState)| (e.0@, e.1))
}

/// The value of the window state.
pub struct GuiView {
    pub rules: Seq<(Seq<char>, RuleView)>,
    pub hosts: Seq<Seq<char>>,
    pub form: FormView,
    pub selected: Option<Seq<char>>,
    pub message: Option<(Seq<char>, bool)>,
    pub pending_jobs: int,
    pub pending: Map<Seq<char>, PendingRuleState>,
}

/// The state of the window.
pub struct RspGuiApp {
    pub rules: Vec<(String, PortForwardRule)>,
    pub hosts: Vec<String>,
    pub form: RuleForm,
    pub selected: Option<String>,
    pub message: Option<UiMessage>,
    pub pending_jobs: usize,
    pub pending_rules: Vec<(String, PendingRuleState)>,
}

impl View for RspGuiApp {
    type V = GuiView;

    open spec fn view(&self) -> GuiView {
        GuiView {
            rules: entry_views(self.rules@),
            hosts: string_views(self.hosts@),
            form: self.form@,
            selected: match self.selected {
                Some(n) => Some(n@),
                None => None,
            },
            message: message_view(self.message),
            pending_jobs: self.pending_jobs as int,
            pending: map_of(pending_entries(self.pending_rules@)),
        }
    }
}

/// The message shown when the worker cannot take a job.
pub open spec fn worker_unavailable() -> Seq<char> {
    "Background worker is not available"@
}

/// Shows an error.
pub open spec fn gui_set_error(g: GuiView, text: Seq<char>) -> GuiView {
    GuiView { message: Some((text, true)), ..g }
}

/// The first host, or nothing.
pub open spec fn first_host(hosts: Seq<Seq<char>>) -> Seq<char> {
    if hosts.len() > 0 {
        hosts[0]
    } else {
        seq![]
    }
}

/// Takes in a dashboard; an empty host field gets the first host.
pub open spec fn gui_apply_dashboard(
    g: GuiView,
    rows: Seq<(Seq<char>, RuleView)>,
    hosts: Seq<Seq<char>>,
) -> GuiView {
    GuiView {
        rules: rows,
        hosts: hosts,
        form: if g.form.remote_host.len() == 0 {
            FormView { remote_host: first_host(hosts), ..g.form }
        } else {
            g.form
        },
        ..g
    }
}

/// `m` with each of `names` mapped to `state`.
pub open spec fn mark_all(
    m: Map<Seq<char>, PendingRuleState>,
    names: Seq<Seq<char>>,
    state: PendingRuleState,
) -> Map<Seq<char>, PendingRuleState>
    decreases names.len(),
{
    if names.len() == 0 {
        m
    } else {
        mark_all(m, names.drop_last(), state).insert(names.last(), state)
    }
}

/// `m` without each of `names`.
pub open spec fn unmark_all(m: Map<Seq<char>, PendingRuleState>, names: Seq<Seq<char>>) -> Map<
    Seq<char>,
    PendingRuleState,
>
    decreases names.len(),
{
    if names.len() == 0 {
        m
    } else {
        unmark_all(m, names.drop_last()).remove(names.last())
    }
}

/// A job was handed to the worker (`sent`) or could not be.
pub open spec fn gui_request_refresh(g: GuiView, sent: bool) -> GuiView {
    if sent {
        GuiView { pending_jobs: g.pending_jobs + 1, ..g }
    } else {
        gui_set_error(g, worker_unavailable())
    }
}

/// A start or stop of `names` was handed to the worker (`sent`) or could not be.
pub open spec fn gui_request(
    g: GuiView,
    names: Seq<Seq<char>>,
    sent: bool,
    state: PendingRuleState,
) -> GuiView {
    if names.len() == 0 {
        g
    } else if sent {
        GuiView { pending_jobs: g.pending_jobs + 1, pending: mark_all(g.pending, names, state), ..g }
    } else {
        gui_set_error(g, worker_unavailable())
    }
}

/// Takes in one worker event.
pub open spec fn gui_after_event(g: GuiView, e: EventView) -> GuiView {
    let g1 = GuiView {
        pending_jobs: if g.pending_jobs > 0 {
            g.pending_jobs - 1
        } else {
            0
        },
        pending: unmark_all(g.pending, e.completed),
        ..g
    };
    let g2 = match e.dashboard {
        Some((rows, hosts)) => gui_apply_dashboard(g1, rows, hosts),
        None => g1,
    };
    match e.message {
        Some((text, error)) => if error {
            GuiView { message: Some((text, true)), ..g2 }
        } else {
            GuiView { message: None, ..g2 }
        },
        None => g2,
    }
}

/// Takes in worker events in order.
pub open spec fn gui_after_events(g: GuiView, es: Seq<EventView>) -> GuiView
    decreases es.len(),
{
    if es.len() == 0 {
        g
    } else {
        gui_after_event(gui_after_events(g, es.drop_last()), es.last())
    }
}

/// An empty form whose host is the first host, with nothing selected.
pub open spec fn gui_clear_form(g: GuiView) -> GuiView {
    GuiView {
        form: FormView {
            original_name: None,
            name: seq![],
            local_port: seq![],
            remote_port: seq![],
            remote_host: first_host(g.hosts),
        },
        selected: None,
        ..g
    }
}

/// The rows with `name` set to `rule`: in place when the name is shown, else added.
pub open spec fn upsert_rows(e: Seq<(Seq<char>, RuleView)>, name: Seq<char>, rule: RuleView) -> Seq<
    (Seq<char>, RuleView),
> {
    if has_name(e, name) {
        e.update(choose|i: int| 0 <= i < e.len() && (#[trigger] e[i]).0 == name, (name, rule))
    } else {
        e.push((name, rule))
    }
}

/// The rows without those named `name`.
pub open spec fn rows_without(e: Seq<(Seq<char>, RuleView)>, name: Seq<char>) -> Seq<
    (Seq<char>, RuleView),
>
    decreases e.len(),
{
    if e.len() == 0 {
        seq![]
    } else if e.last().0 == name {
        rows_without(e.drop_last(), name)
    } else {
        rows_without(e.drop_last(), name).push(e.last())
    }
}

/// Drops the row `name`; when it was selected, the form is cleared.
pub open spec fn gui_remove_rule(g: GuiView, name: Seq<char>) -> GuiView {
    let g1 = GuiView { rules: rows_without(g.rules, name), ..g };
    if g.selected == Some(name) {
        gui_clear_form(g1)
    } else {
        g1
    }
}

/// Sets row `name` to `rule` and sorts the rows.
pub open spec fn gui_upsert_rule(g: GuiView, name: Seq<char>, rule: RuleView) -> GuiView {
    GuiView { rules: sorted_rows(upsert_rows(g.rules, name, rule)), ..g }
}

/// Fills the form with rule `name` and selects it.
pub open spec fn gui_load_into_form(g: GuiView, name: Seq<char>, rule: RuleView) -> GuiView {
    GuiView {
        form: FormView {
            original_name: Some(name),
            name: name,
            local_port: decimal(rule.local_port as nat),
            remote_port: decimal(rule.remote_port as nat),
            remote_host: rule.remote_host,
        },
        selected: Some(name),
        ..g
    }
}

/// A form that passed its checks: the new rule, its name, and the name it had.
pub struct FormSubmission {
    pub original_name: Option<String>,
    pub name: String,
    pub rule: PortForwardRule,
}

/// What checking the form gives: the error text, or the name and rule to store.
pub open spec fn form_check(f: FormView) -> Result<(Seq<char>, RuleView), Seq<char>> {
    let name = trim(f.name);
    let host = trim(f.remote_host);
    let lp = parse_unsigned(trim(f.local_port), u16::MAX as int);
    let rp = parse_unsigned(trim(f.remote_port), u16::MAX as int);
    if name.len() == 0 {
        Err("Rule name cannot be empty"@)
    } else if host.len() == 0 {
        Err("Remote host cannot be empty"@)
    } else if lp is None {
        Err("Local port must be a valid number"@)
    } else if rp is None {
        Err("Remote port must be a valid number"@)
    } else {
        Ok(
            (
                name,
                RuleView {
                    local_port: lp->0 as u16,
                    remote_port: rp->0 as u16,
                    remote_host: host,
                    status: false,
                    pid: None,
                },
            ),
        )
    }
}

/// What a successful save does: the old row goes when the rule was renamed,
/// the new row is set, selected, a refresh is requested and the form cleared.
pub open spec fn gui_saved(g: GuiView, name: Seq<char>, rule: RuleView, sent: bool) -> GuiView {
    let g1 = match g.form.original_name {
        Some(old) => if old != name {
            gui_remove_rule(g, old)
        } else {
            g
        },
        None => g,
    };
    let g2 = gui_upsert_rule(g1, name, rule);
    let g3 = GuiView { selected: Some(name), ..g2 };
    gui_clear_form(gui_request_refresh(g3, sent))
}

/// The state is consistent: no name is shown twice, and no name has two jobs.
pub open spec fn gui_wf(a: &RspGuiApp) -> bool {
    &&& distinct_names(entry_views(a.rules@))
    &&& distinct_names(pending_entries(a.pending_rules@))
}

proof fn lemma_pending_entries_update(v: Seq<(String, PendingRuleState)>, i: int, x: (String, PendingRuleState))
    requires
        0 <= i < v.len(),
    ensures
        pending_entries(v.update(i, x)) == pending_entries(v).update(i, (x.0@, x.1)),
{
    assert(pending_entries(v.update(i, x)) =~= pending_entries(v).update(i, (x.0@, x.1)));
}

proof fn lemma_pending_entries_push(v: Seq<(String, PendingRuleState)>, x: (String, PendingRuleState))
    ensures
        pending_entries(v.push(x)) == pending_entries(v).push((x.0@, x.1)),
{
    assert(pending_entries(v.push(x)) =~= pending_entries(v).push((x.0@, x.1)));
}

proof fn lemma_pending_entries_remove(v: Seq<(String, PendingRuleState)>, i: int)
    requires
        0 <= i < v.len(),
    ensures
        pending_entries(v.remove(i)) == pending_entries(v).remove(i),
{
    assert(pending_entries(v.remove(i)) =~= pending_entries(v).remove(i));
}

/// Marks `name` with `state`.
fn pending_set(v: &mut Vec<(String, PendingRuleState)>, name: String, state: PendingRuleState)
    requires
        distinct_names(pending_entries(old(v)@)),
    ensures
        distinct_names(pending_entries(final(v)@)),
        map_of(pending_entries(final(v)@)) == map_of(pending_entries(old(v)@)).insert(name@, state),
{
    let ghost e = pending_entries(v@);
    let mut i: usize = 0;
    while i < v.len()
        invariant
            e == pending_entries(v@),
            v@ == old(v)@,
            distinct_names(e),
            i <= v.len(),
            forall|j: int| 0 <= j < i ==> (#[trigger] e[j]).0 != name@,
        decreases v.len() - i,
    {
        if v[i].0.eq(&name) {
            let ghost n = name@;
            proof {
                assert(e[i as int].0 == v@[i as int].0@);
                lemma_pending_entries_update(v@, i as int, (name, state));
                lemma_map_of_update(e, i as int, state);
            }
            v.set(i, (name, state));
            return ;
        }
        i += 1;
    }
    proof {
        lemma_pending_entries_push(v@, (name, state));
        lemma_map_of_push(e, name@, state);
    }
    v.push((name, state));
}

/// Drops the mark on `name`.
fn pending_clear(v: &mut Vec<(String, PendingRuleState)>, name: &String)
    requires
        distinct_names(pending_entries(old(v)@)),
    ensures
        distinct_names(pending_entries(final(v)@)),
        map_of(pending_entries(final(v)@)) == map_of(pending_entries(old(v)@)).remove(name@),
{
    let ghost e = pending_entries(v@);
    let mut i: usize = 0;
    while i < v.len()
        invariant
            e == pending_entries(v@),
            v@ == old(v)@,
            distinct_names(e),
            i <= v.len(),
            forall|j: int| 0 <= j < i ==> (#[trigger] e[j]).0 != name@,
        decreases v.len() - i,
    {
        if v[i].0.eq(name) {
            proof {
                assert(e[i as int].0 == v@[i as int].0@);
                lemma_pending_entries_remove(v@, i as int);
                lemma_map_of_remove(e, i as int);
            }
            v.remove(i);
            return ;
        }
        i += 1;
    }
    proof {
        lemma_map_of_dom(e);
        assert(!names_of(e).contains(name@)) by {
            if names_of(e).contains(name@) {
                let k = choose|k: int| 0 <= k < names_of(e).len() && names_of(e)[k] == name@;
                assert(e[k].0 == name@);
            }
        }
        assert(map_of(e).remove(name@) =~= map_of(e));
    }
}

/// Marks each of `names` with `state`, in order.
fn pending_set_all(v: &mut Vec<(String, PendingRuleState)>, names: &Vec<String>, state: PendingRuleState)
    requires
        distinct_names(pending_entries(old(v)@)),
    ensures
        distinct_names(pending_entries(final(v)@)),
        map_of(pending_entries(final(v)@)) == mark_all(map_of(pending_entries(old(v)@)), string_views(names@), state),
{
    let ghost m0 = map_of(pending_entries(v@));
    let ghost ns = string_views(names@);
    assert(ns.take(0) =~= Seq::<Seq<char>>::empty());
    for i in 0..names.len()
        invariant
            ns == string_views(names@),
            distinct_names(pending_entries(v@)),
            map_of(pending_entries(v@)) == mark_all(m0, ns.take(i as int), state),
    {
        assert(ns.take(i + 1).drop_last() =~= ns.take(i as int));
        assert(ns.take(i + 1).last() == names@[i as int]@);
        pending_set(v, names[i].clone(), state);
    }
    assert(ns.take(names.len() as int) =~= ns);
}

/// Drops the marks on each of `names`, in order.
fn pending_clear_all(v: &mut Vec<(String, PendingRuleState)>, names: &Vec<String>)
    requires
        distinct_names(pending_entries(old(v)@)),
    ensures
        distinct_names(pending_entries(final(v)@)),
        map_of(pending_entries(final(v)@)) == unmark_all(map_of(pending_entries(old(v)@)), string_views(names@)),
{
    let ghost m0 = map_of(pending_entries(v@));
    let ghost ns = string_views(names@);
    assert(ns.take(0) =~= Seq::<Seq<char>>::empty());
    for i in 0..names.len()
        invariant
            ns == string_views(names@),
            distinct_names(pending_entries(v@)),
            map_of(pending_entries(v@)) == unmark_all(m0, ns.take(i as int)),
    {
        assert(ns.take(i + 1).drop_last() =~= ns.take(i as int));
        assert(ns.take(i + 1).last() == names@[i as int]@);
        pending_clear(v, &names[i]);
    }
    assert(ns.take(names.len() as int) =~= ns);
}

proof fn lemma_entry_views_push(v: Seq<(String, PortForwardRule)>, x: (String, PortForwardRule))
    ensures
        entry_views(v.push(x)) == entry_views(v).push(entry_view(x)),
{
    assert(entry_views(v.push(x)) =~= entry_views(v).push(entry_view(x)));
}

proof fn lemma_rows_without_distinct(e: Seq<(Seq<char>, RuleView)>, name: Seq<char>)
    requires
        distinct_names(e),
    ensures
        distinct_names(rows_without(e, name)),
        forall|x: (Seq<char>, RuleView)| #[trigger] rows_without(e, name).contains(x) ==> e.contains(x),
    decreases e.len(),
{
    if e.len() > 0 {
        let p = e.drop_last();
        assert(distinct_names(p)) by {
            assert forall|i: int, j: int| 0 <= i < p.len() && 0 <= j < p.len() && i != j implies (
            #[trigger] p[i]).0 != (#[trigger] p[j]).0 by {
                assert(p[i] == e[i] && p[j] == e[j]);
            }
        }
        lemma_rows_without_distinct(p, name);
        let r = rows_without(p, name);
        assert forall|x: (Seq<char>, RuleView)| #[trigger] rows_without(e, name).contains(x) implies e.contains(x) by {
            let q = rows_without(e, name);
            let k = choose|k: int| 0 <= k < q.len() && q[k] == x;
            if k < r.len() {
                assert(r[k] == x);
                assert(r.contains(x));
                let m = choose|m: int| 0 <= m < p.len() && p[m] == x;
                assert(e[m] == x);
            } else {
                assert(e[e.len() - 1] == x);
            }
        }
        if e.last().0 != name {
            let q = r.push(e.last());
            assert forall|i: int, j: int| 0 <= i < q.len() && 0 <= j < q.len() && i != j implies (
            #[trigger] q[i]).0 != (#[trigger] q[j]).0 by {
                if i < r.len() && j < r.len() {
                    assert(q[i] == r[i] && q[j] == r[j]);
                } else if i == r.len() && j < r.len() {
                    assert(r.contains(r[j]));
                    let m = choose|m: int| 0 <= m < p.len() && p[m] == r[j];
                    assert(e[m] == p[m]);
                    assert(e[m].0 != e[e.len() - 1].0);
                } else if j == r.len() && i < r.len() {
                    assert(r.contains(r[i]));
                    let m = choose|m: int| 0 <= m < p.len() && p[m] == r[i];
                    assert(e[m] == p[m]);
                    assert(e[m].0 != e[e.len() - 1].0);
                }
            }
        }
    }
}

impl RspGuiApp {
    /// The window as it opens: nothing shown, and a first refresh handed to the
    /// worker (`sent`) or not.
    pub fn new(sent: bool) -> (r: RspGuiApp)
        ensures
            gui_wf(&r),
            r@ == gui_request_refresh(
                GuiView {
                    rules: seq![],
                    hosts: seq![],
                    form: FormView {
                        original_name: None,
                        name: seq![],
                        local_port: seq![],
                        remote_port: seq![],
                        remote_host: seq![],
                    },
                    selected: None,
                    message: None,
                    pending_jobs: 0,
                    pending: Map::empty(),
                },
                sent,
            ),
    {
        let mut app = RspGuiApp {
            rules: Vec::new(),
            hosts: Vec::new(),
            form: RuleForm {
                original_name: None,
                name: String::new(),
                local_port: String::new(),
                remote_port: String::new(),
                remote_host: String::new(),
            },
            selected: None,
            message: None,
            pending_jobs: 0,
            pending_rules: Vec::new(),
        };
        proof {
            assert(entry_views(app.rules@) =~= Seq::<(Seq<char>, RuleView)>::empty());
            assert(string_views(app.hosts@) =~= Seq::<Seq<char>>::empty());
            assert(pending_entries(app.pending_rules@) =~= Seq::<(Seq<char>, PendingRuleState)>::empty());
            assert(map_of(pending_entries(app.pending_rules@)) =~= Map::<Seq<char>, PendingRuleState>::empty());
        }
        app.request_refresh(sent);
        app
    }

    /// Shows an error.
    pub fn set_error(&mut self, text: String)
        ensures
            final(self)@ == gui_set_error(old(self)@, text@),
            final(self).rules == old(self).rules,
            final(self).pending_rules == old(self).pending_rules,
    {
        self.message = Some(UiMessage { text, error: true });
    }

    /// Whether a job is with the worker.
    pub fn is_busy(&self) -> (r: bool)
        ensures
            r == (self.pending_jobs > 0),
    {
        self.pending_jobs > 0
    }

    /// The job pending on rule `name`, if any.
    pub fn pending_state(&self, name: &String) -> (r: Option<PendingRuleState>)
        requires
            gui_wf(self),
        ensures
            r == (if self@.pending.dom().contains(name@) {
                Some(self@.pending[name@])
            } else {
                None
            }),
    {
        let ghost e = pending_entries(self.pending_rules@);
        for i in 0..self.pending_rules.len()
            invariant
                e == pending_entries(self.pending_rules@),
                distinct_names(e),
                forall|j: int| 0 <= j < i ==> (#[trigger] e[j]).0 != name@,
        {
            if self.pending_rules[i].0.eq(name) {
                proof {
                    lemma_map_of_row(e, i as int);
                }
                return Some(self.pending_rules[i].1);
            }
        }
        proof {
            if self@.pending.dom().contains(name@) {
                let j = choose|j: int| 0 <= j < e.len() && (#[trigger] e[j]).0 == name@;
                assert(e[j].0 != name@);
            }
        }
        None
    }

    /// Takes in a dashboard read by the worker.
    pub fn apply_dashboard(&mut self, dashboard: DashboardData)
        requires
            gui_wf(old(self)),
            distinct_names(entry_views(dashboard.rules@)),
        ensures
            gui_wf(final(self)),
            final(self)@ == gui_apply_dashboard(
                old(self)@,
                entry_views(dashboard.rules@),
                string_views(dashboard.hosts@),
            ),
    {
        self.rules = dashboard.rules;
        self.hosts = dashboard.hosts;
        if self.form.remote_host.as_str().is_empty() {
            self.form.remote_host = if self.hosts.len() > 0 {
                self.hosts[0].clone()
            } else {
                String::new()
            };
        }
    }

    /// A refresh was handed to the worker (`sent`) or could not be.
    pub fn request_refresh(&mut self, sent: bool)
        requires
            old(self).pending_jobs < usize::MAX,
        ensures
            final(self)@ == gui_request_refresh(old(self)@, sent),
            final(self).rules == old(self).rules,
            final(self).pending_rules == old(self).pending_rules,
    {
        if sent {
            self.pending_jobs = self.pending_jobs + 1;
        } else {
            self.set_error(String::from_str("Background worker is not available"));
        }
    }

    fn request(&mut self, names: &Vec<String>, sent: bool, state: PendingRuleState)
        requires
            gui_wf(old(self)),
            old(self).pending_jobs < usize::MAX,
        ensures
            gui_wf(final(self)),
            final(self)@ == gui_request(old(self)@, string_views(names@), sent, state),
    {
        if names.len() == 0 {
            return ;
        }
        if !sent {
            self.set_error(String::from_str("Background worker is not available"));
            return ;
        }
        self.pending_jobs = self.pending_jobs + 1;
        pending_set_all(&mut self.pending_rules, names, state);
    }

    /// A start of `names` was handed to the worker (`sent`) or could not be.
    pub fn request_start(&mut self, names: &Vec<String>, sent: bool)
        requires
            gui_wf(old(self)),
            old(self).pending_jobs < usize::MAX,
        ensures
            gui_wf(final(self)),
            final(self)@ == gui_request(
                old(self)@,
                string_views(names@),
                sent,
                PendingRuleState::Starting,
            ),
    {
        self.request(names, sent, PendingRuleState::Starting);
    }

    /// A stop of `names` was handed to the worker (`sent`) or could not be.
    pub fn request_stop(&mut self, names: &Vec<String>, sent: bool)
        requires
            gui_wf(old(self)),
            old(self).pending_jobs < usize::MAX,
        ensures
            gui_wf(final(self)),
            final(self)@ == gui_request(
                old(self)@,
                string_views(names@),
                sent,
                PendingRuleState::Stopping,
            ),
    {
        self.request(names, sent, PendingRuleState::Stopping);
    }

    fn process_worker_event(&mut self, event: WorkerEvent)
        requires
            gui_wf(old(self)),
            event.dashboard matches Some(d) ==> distinct_names(entry_views(d.rules@)),
        ensures
            gui_wf(final(self)),
            final(self)@ == gui_after_event(old(self)@, event_view(event)),
    {
        let ghost ev = event_view(event);
        self.pending_jobs = if self.pending_jobs > 0 {
            self.pending_jobs - 1
        } else {
            0
        };
        let names = event.completed_rules;
        pending_clear_all(&mut self.pending_rules, &names);
        if let Some(dashboard) = event.dashboard {
            self.apply_dashboard(dashboard);
        }
        if let Some(message) = event.message {
            if message.error {
                self.message = Some(message);
            } else {
                self.message = None;
            }
        }
    }

    /// Takes in the events the worker sent, in order.
    pub fn process_worker_events(&mut self, events: Vec<WorkerEvent>)
        requires
            gui_wf(old(self)),
            forall|k: int|
                0 <= k < events.len() ==> ((#[trigger] events@[k]).dashboard matches Some(d)
                    ==> distinct_names(entry_views(d.rules@))),
        ensures
            gui_wf(final(self)),
            final(self)@ == gui_after_events(
                old(self)@,
                events@.map_values(|e: WorkerEvent| event_view(e)),
            ),
    {
        let ghost g0 = self@;
        let ghost orig = events@;
        let ghost evs = orig.map_values(|e: WorkerEvent| event_view(e));
        let mut events = events;
        let n = events.len();
        assert(evs.take(0) =~= Seq::<EventView>::empty());
        assert(orig.skip(0) =~= orig);
        let mut i: usize = 0;
        while i < n
            invariant
                n == evs.len(),
                n == orig.len(),
                i <= n,
                events@ == orig.skip(i as int),
                forall|k: int| 0 <= k < n ==> #[trigger] evs[k] == event_view(orig[k]),
                forall|k: int|
                    0 <= k < n ==> ((#[trigger] orig[k]).dashboard matches Some(d)
                        ==> distinct_names(entry_views(d.rules@))),
                gui_wf(self),
                self@ == gui_after_events(g0, evs.take(i as int)),
            decreases n - i,
        {
            let event = events.remove(0);
            assert(event == orig[i as int]);
            assert(orig.skip(i as int).remove(0) =~= orig.skip(i + 1));
            assert(evs.take(i + 1).drop_last() =~= evs.take(i as int));
            assert(evs.take(i + 1).last() == event_view(event));
            self.process_worker_event(event);
            i += 1;
        }
        assert(evs.take(n as int) =~= evs);
    }

    /// Empties the form; its host becomes the first host; nothing is selected.
    pub fn clear_form(&mut self)
        ensures
            final(self)@ == gui_clear_form(old(self)@),
            final(self).rules == old(self).rules,
            final(self).pending_rules == old(self).pending_rules,
    {
        let host = if self.hosts.len() > 0 {
            self.hosts[0].clone()
        } else {
            String::new()
        };
        self.form = RuleForm {
            original_name: None,
            name: String::new(),
            local_port: String::new(),
            remote_port: String::new(),
            remote_host: host,
        };
        self.selected = None;
    }

    /// Sorts the rows by name.
    pub fn sort_rules(&mut self)
        requires
            gui_wf(old(self)),
        ensures
            gui_wf(final(self)),
            final(self)@ == (GuiView { rules: sorted_rows(old(self)@.rules), ..old(self)@ }),
    {
        let sorted = sort_rows(&self.rules);
        proof {
            lemma_sorted_rows(entry_views(sorted@), entry_views(self.rules@));
            crate::order::lemma_rows_sorted_distinct(entry_views(sorted@));
        }
        self.rules = sorted;
    }

    /// Sets row `name` to `rule` (in place, or added) and sorts the rows.
    pub fn upsert_rule_in_view(&mut self, name: String, rule: PortForwardRule)
        requires
            gui_wf(old(self)),
        ensures
            gui_wf(final(self)),
            final(self)@ == gui_upsert_rule(old(self)@, name@, rule@),
    {
        let ghost e = entry_views(self.rules@);
        let ghost k = name@;
        let ghost v = rule@;
        let mut i: usize = 0;
        while i < self.rules.len() && !self.rules[i].0.eq(&name)
            invariant
                e == entry_views(self.rules@),
                distinct_names(e),
                k == name@,
                i <= self.rules.len(),
                forall|j: int| 0 <= j < i ==> (#[trigger] e[j]).0 != k,
            decreases self.rules.len() - i,
        {
            assert(e[i as int].0 == self.rules@[i as int].0@);
            i += 1;
        }
        if i < self.rules.len() {
            proof {
                assert(e[i as int].0 == self.rules@[i as int].0@);
                assert(has_name(e, k));
                let c = choose|c: int| 0 <= c < e.len() && (#[trigger] e[c]).0 == k;
                assert(c == i as int);
                assert(entry_views(self.rules@.update(i as int, (name, rule))) =~= e.update(i as int, (k, v)));
                lemma_map_of_update(e, i as int, v);
            }
            self.rules.set(i, (name, rule));
        } else {
            proof {
                lemma_entry_views_push(self.rules@, (name, rule));
                lemma_map_of_push(e, k, v);
            }
            self.rules.push((name, rule));
        }
        self.sort_rules();
    }

    /// Drops row `name`; when it was selected, the form is cleared.
    pub fn remove_rule_from_view(&mut self, name: &String)
        requires
            gui_wf(old(self)),
        ensures
            gui_wf(final(self)),
            final(self)@ == gui_remove_rule(old(self)@, name@),
    {
        let ghost e = entry_views(self.rules@);
        let mut kept: Vec<(String, PortForwardRule)> = Vec::new();
        assert(e.take(0) =~= Seq::<(Seq<char>, RuleView)>::empty());
        for i in 0..self.rules.len()
            invariant
                e == entry_views(self.rules@),
                entry_views(kept@) == rows_without(e.take(i as int), name@),
        {
            assert(e.take(i + 1).drop_last() =~= e.take(i as int));
            assert(e.take(i + 1).last() == e[i as int]);
            if !self.rules[i].0.eq(name) {
                let row = (self.rules[i].0.clone(), self.rules[i].1.duplicate());
                proof {
                    lemma_entry_views_push(kept@, row);
                }
                kept.push(row);
            }
        }
        assert(e.take(self.rules.len() as int) =~= e);
        proof {
            lemma_rows_without_distinct(e, name@);
        }
        self.rules = kept;
        let was_selected = match &self.selected {
            Some(s) => s.eq(name),
            None => false,
        };
        if was_selected {
            self.clear_form();
        }
    }

    /// Fills the form with rule `name` and selects it.
    pub fn load_into_form(&mut self, name: &String, rule: &PortForwardRule)
        ensures
            final(self)@ == gui_load_into_form(old(self)@, name@, rule@),
            final(self).rules == old(self).rules,
            final(self).pending_rules == old(self).pending_rules,
    {
        self.form.original_name = Some(name.clone());
        self.form.name = name.clone();
        self.form.local_port = decimal_string(rule.local_port as u32);
        self.form.remote_port = decimal_string(rule.remote_port as u32);
        self.form.remote_host = rule.remote_host.clone();
        self.selected = Some(name.clone());
    }

    /// Checks the form. On success the name and rule to store are returned and
    /// nothing changes; otherwise the error is shown.
    pub fn save_form(&mut self) -> (r: Option<FormSubmission>)
        ensures
            match form_check(old(self)@.form) {
                Ok((name, rule)) => r matches Some(s) && s.name@ == name && s.rule@ == rule
                    && s.original_name == old(self).form.original_name && final(self)@ == old(
                    self,
                )@,
                Err(text) => r is None && final(self)@ == gui_set_error(old(self)@, text),
            },
            final(self).rules == old(self).rules,
            final(self).pending_rules == old(self).pending_rules,
    {
        let name = string_of(&trim_chars(&chars_of(self.form.name.as_str())));
        let remote_host = string_of(&trim_chars(&chars_of(self.form.remote_host.as_str())));
        if name.as_str().is_empty() {
            self.set_error(String::from_str("Rule name cannot be empty"));
            return None;
        }
        if remote_host.as_str().is_empty() {
            self.set_error(String::from_str("Remote host cannot be empty"));
            return None;
        }
        let local_port = match parse_u16(&trim_chars(&chars_of(self.form.local_port.as_str()))) {
            Some(v) => v,
            None => {
                self.set_error(String::from_str("Local port must be a valid number"));
                return None;
            },
        };
        let remote_port = match parse_u16(&trim_chars(&chars_of(self.form.remote_port.as_str()))) {
            Some(v) => v,
            None => {
                self.set_error(String::from_str("Remote port must be a valid number"));
                return None;
            },
        };
        let rule = make_rule(local_port, remote_port, remote_host, false, None);
        let original_name = match &self.form.original_name {
            Some(n) => Some(n.clone()),
            None => None,
        };
        Some(FormSubmission { original_name, name, rule })
    }

    /// Takes in how storing a checked form went (`Err` holds the error text); on
    /// success a refresh was handed to the worker (`sent`) or could not be.
    pub fn finish_save(&mut self, submission: &FormSubmission, result: Result<(), String>, sent: bool)
        requires
            gui_wf(old(self)),
            old(self).pending_jobs < usize::MAX,
        ensures
            gui_wf(final(self)),
            match result {
                Ok(()) => final(self)@ == gui_saved(
                    GuiView {
                        form: FormView {
                            original_name: match submission.original_name {
                                Some(n) => Some(n@),
                                None => None,
                            },
                            ..old(self)@.form
                        },
                        ..old(self)@
                    },
                    submission.name@,
                    submission.rule@,
                    sent,
                ),
                Err(e) => final(self)@ == gui_set_error(old(self)@, e@),
            },
    {
        match result {
            Err(e) => {
                self.set_error(e);
            },
            Ok(()) => {
                let original = match &submission.original_name {
                    Some(n) => Some(n.clone()),
                    None => None,
                };
                self.form.original_name = match &submission.original_name {
                    Some(n) => Some(n.clone()),
                    None => None,
                };
                let name = submission.name.clone();
                if let Some(old_name) = original {
                    if !old_name.eq(&name) {
                        self.remove_rule_from_view(&old_name);
                    }
                }
                self.upsert_rule_in_view(name.clone(), submission.rule.duplicate());
                self.selected = Some(name);
                self.request_refresh(sent);
                self.clear_form();
            },
        }
    }

    /// Takes in how deleting rule `name` went (`Err` holds the error text); on
    /// success a refresh was handed to the worker (`sent`) or could not be.
    pub fn delete_rule(&mut self, name: &String, result: Result<(), String>, sent: bool)
        requires
            gui_wf(old(self)),
            old(self).pending_jobs < usize::MAX,
        ensures
            gui_wf(final(self)),
            match result {
                Ok(()) => final(self)@ == gui_request_refresh(gui_remove_rule(old(self)@, name@), sent),
                Err(e) => final(self)@ == gui_set_error(old(self)@, e@),
            },
    {
        match result {
            Err(e) => {
                self.set_error(e);
            },
            Ok(()) => {
                self.remove_rule_from_view(name);
                self.request_refresh(sent);
            },
        }
    }
}

/// The command that starts `names`, unless there is none.
pub fn start_command(names: &Vec<String>, summary: String) -> (r: Option<WorkerCommand>)
    ensures
        names.len() == 0 <==> r is None,
        r matches Some(WorkerCommand::Start(n, s)) ==> string_views(n@) == string_views(names@)
            && s@ == summary@,
        r is Some ==> r matches Some(WorkerCommand::Start(_, _)),
{
    if names.len() == 0 {
        None
    } else {
        Some(WorkerCommand::Start(clone_names(names), summary))
    }
}

/// The command that stops `names`, unless there is none.
pub fn stop_command(names: &Vec<String>, summary: String) -> (r: Option<WorkerCommand>)
    ensures
        names.len() == 0 <==> r is None,
        r matches Some(WorkerCommand::Stop(n, s)) ==> string_views(n@) == string_views(names@)
            && s@ == summary@,
        r is Some ==> r matches Some(WorkerCommand::Stop(_, _)),
{
    if names.len() == 0 {
        None
    } else {
        Some(WorkerCommand::Stop(clone_names(names), summary))
    }
}

fn clone_names(v: &Vec<String>) -> (r: Vec<String>)
    ensures
        string_views(r@) == string_views(v@),
{
    let mut out: Vec<String> = Vec::new();
    for i in 0..v.len()
        invariant
            string_views(out@) == string_views(v@).take(i as int),
    {
        let s = v[i].clone();
        let ghost before = out@;
        out.push(s);
        assert(string_views(out@) =~= string_views(v@).take(i + 1)) by {
            assert(string_views(out@) =~= string_views(before).push(s@));
        }
    }
    assert(string_views(v@).take(v.len() as int) =~= string_views(v@));
    out
}

/// The event that ends a refresh: the dashboard and the summary, or the error.
pub fn refresh_event(loaded: Result<DashboardData, String>, summary: Option<String>) -> (r: WorkerEvent)
    ensures
        r.completed_rules@.len() == 0,
        match loaded {
            Ok(d) => r.dashboard == Some(d) && message_view(r.message) == match summary {
                Some(t) => Some((t@, false)),
                None => None,
            },
            Err(e) => r.dashboard is None && message_view(r.message) == Some((e@, true)),
        },
{
    match loaded {
        Ok(d) => WorkerEvent {
            dashboard: Some(d),
            message: match summary {
                Some(text) => Some(UiMessage { text, error: false }),
                None => None,
            },
            completed_rules: Vec::new(),
        },
        Err(e) => WorkerEvent {
            dashboard: None,
            message: Some(UiMessage { text: e, error: true }),
            completed_rules: Vec::new(),
        },
    }
}

/// The event that ends a start or stop of `names`: the dashboard and the
/// summary when it worked, else the error and the dashboard read afterwards.
pub fn action_event(
    names: Vec<String>,
    summary: String,
    outcome: Result<DashboardData, String>,
    fallback: Option<DashboardData>,
) -> (r: WorkerEvent)
    ensures
        string_views(r.completed_rules@) == string_views(names@),
        match outcome {
            Ok(d) => r.dashboard == Some(d) && message_view(r.message) == Some((summary@, false)),
            Err(e) => r.dashboard == fallback && message_view(r.message) == Some((e@, true)),
        },
{
    match outcome {
        Ok(d) => WorkerEvent {
            dashboard: Some(d),
            message: Some(UiMessage { text: summary, error: false }),
            completed_rules: names,
        },
        Err(e) => WorkerEvent {
            dashboard: fallback,
            message: Some(UiMessage { text: e, error: true }),
            completed_rules: names,
        },
    }
}

/// What a row of the table shows as its state.
#[derive(PartialEq, Eq, Structural, Clone, Copy, Debug)]
pub enum RowStatus {
    Starting,
    Stopping,
    Running,
    Stopped,
}

/// The state shown for rule `name`: its pending job, else whether it runs.
pub open spec fn row_status_of(
    pending: Map<Seq<char>, PendingRuleState>,
    name: Seq<char>,
    running: bool,
) -> RowStatus {
    if pending.dom().contains(name) {
        match pending[name] {
            PendingRuleState::Starting => RowStatus::Starting,
            PendingRuleState::Stopping => RowStatus::Stopping,
        }
    } else if running {
        RowStatus::Running
    } else {
        RowStatus::Stopped
    }
}

impl RowStatus {
    /// The text of the state.
    pub fn label(&self) -> (r: &'static str)
        ensures
            r@ == match *self {
                RowStatus::Starting => "Starting..."@,
                RowStatus::Stopping => "Stopping..."@,
                RowStatus::Running => "Running"@,
                RowStatus::Stopped => "Stopped"@,
            },
    {
        match self {
            RowStatus::Starting => "Starting...",
            RowStatus::Stopping => "Stopping...",
            RowStatus::Running => "Running",
            RowStatus::Stopped => "Stopped",
        }
    }

    /// The text of the row's start/stop button.
    pub fn button_label(&self) -> (r: &'static str)
        ensures
            r@ == match *self {
                RowStatus::Starting => "Starting..."@,
                RowStatus::Stopping => "Stopping..."@,
                RowStatus::Running => "Stop"@,
                RowStatus::Stopped => "Start"@,
            },
    {
        match self {
            RowStatus::Starting => "Starting...",
            RowStatus::Stopping => "Stopping...",
            RowStatus::Running => "Stop",
            RowStatus::Stopped => "Start",
        }
    }

    /// Whether the start/stop button can be clicked: no job is pending on the row.
    pub fn button_enabled(&self) -> (r: bool)
        ensures
            r == (*self == RowStatus::Running || *self == RowStatus::Stopped),
    {
        match self {
            RowStatus::Running => true,
            RowStatus::Stopped => true,
            _ => false,
        }
    }
}

impl RspGuiApp {
    /// The state shown for rule `name`, which runs or not (see [`row_status_of`]).
    pub fn row_status(&self, name: &String, running: bool) -> (r: RowStatus)
        requires
            gui_wf(self),
        ensures
            r == row_status_of(self@.pending, name@, running),
    {
        match self.pending_state(name) {
            Some(PendingRuleState::Starting) => RowStatus::Starting,
            Some(PendingRuleState::Stopping) => RowStatus::Stopping,
            None => if running {
                RowStatus::Running
            } else {
                RowStatus::Stopped
            },
        }
    }

    /// The heading of the form: whether a rule is being edited or created.
    pub fn form_heading(&self) -> (r: &'static str)
        ensures
            r@ == (if self.form.original_name is Some {
                "Edit Rule"@
            } else {
                "Create Rule"@
            }),
    {
        if self.form.original_name.is_some() {
            "Edit Rule"
        } else {
            "Create Rule"
        }
    }

    /// The text of the form's save button.
    pub fn save_label(&self) -> (r: &'static str)
        ensures
            r@ == (if self.form.original_name is Some {
                "Update Rule"@
            } else {
                "Create Rule"@
            }),
    {
        if self.form.original_name.is_some() {
            "Update Rule"
        } else {
            "Create Rule"
        }
    }
}

/// The one event that ends the worker's job `command`. `loaded` is, for a
/// refresh, the dashboard read or the error; for a start or stop, the
/// dashboard read after the rules were started or stopped, or the error of
/// either step, in which case `fallback` is a dashboard read afterwards. The
/// event names the rules of a start or stop as done whether it worked or not,
/// and none for a refresh.
pub fn event_for(
    command: WorkerCommand,
    loaded: Result<DashboardData, String>,
    fallback: Option<DashboardData>,
) -> (r: WorkerEvent)
    ensures
        match command {
            WorkerCommand::Refresh(summary) => r.completed_rules@.len() == 0 && match loaded {
                Ok(d) => r.dashboard == Some(d) && message_view(r.message) == match summary {
                    Some(t) => Some((t@, false)),
                    None => None,
                },
                Err(e) => r.dashboard is None && message_view(r.message) == Some((e@, true)),
            },
            WorkerCommand::Start(names, summary) => string_views(r.completed_rules@)
                == string_views(names@) && match loaded {
                Ok(d) => r.dashboard == Some(d) && message_view(r.message) == Some((summary@, false)),
                Err(e) => r.dashboard == fallback && message_view(r.message) == Some((e@, true)),
            },
            WorkerCommand::Stop(names, summary) => string_views(r.completed_rules@)
                == string_views(names@) && match loaded {
                Ok(d) => r.dashboard == Some(d) && message_view(r.message) == Some((summary@, false)),
                Err(e) => r.dashboard == fallback && message_view(r.message) == Some((e@, true)),
            },
        },
{
    match command {
        WorkerCommand::Refresh(summary) => refresh_event(loaded, summary),
        WorkerCommand::Start(names, summary) => action_event(names, summary, loaded, fallback),
        WorkerCommand::Stop(names, summary) => action_event(names, summary, loaded, fallback),
    }
}

/// How a rule's process id is shown in the table: `-` when there is none.
pub open spec fn pid_cell_text(pid: Option<u32>) -> Seq<char> {
    match pid {
        Some(p) => decimal(p as nat),
        None => "-"@,
    }
}

/// Builds [`pid_cell_text`].
pub fn pid_cell(pid: Option<u32>) -> (r: String)
    ensures
        r@ == pid_cell_text(pid),
{
    match pid {
        Some(p) => decimal_string(p),
        None => String::from_str("-"),
    }
}

/// The job a click on a row's start/stop button asks for: a running rule is
/// stopped, another one started, with the summary shown when the job ends.
pub fn row_toggle(name: &String, running: bool) -> (r: WorkerCommand)
    ensures
        running ==> (r matches WorkerCommand::Stop(n, s) && string_views(n@) == seq![name@] && s@
            == "Rule '"@ + name@ + "' stopped"@),
        !running ==> (r matches WorkerCommand::Start(n, s) && string_views(n@) == seq![name@] && s@
            == "Rule '"@ + name@ + "' started"@),
{
    let names = vec![name.clone()];
    assert(string_views(names@) =~= seq![name@]);
    if running {
        WorkerCommand::Stop(names, String::from_str("Rule '").concat(name.as_str()).concat("' stopped"))
    } else {
        WorkerCommand::Start(names, String::from_str("Rule '").concat(name.as_str()).concat("' started"))
    }
}

/// A dashboard replaces the rows and the hosts and leaves the rest as it was:
/// a host already in the form is kept, and only an empty one takes the first
/// host.
pub proof fn lemma_dashboard_keeps_form(g: GuiView, rows: Seq<(Seq<char>, RuleView)>, hosts: Seq<Seq<char>>)
    ensures
        gui_apply_dashboard(g, rows, hosts).rules == rows,
        gui_apply_dashboard(g, rows, hosts).hosts == hosts,
        g.form.remote_host.len() > 0 ==> gui_apply_dashboard(g, rows, hosts).form == g.form,
        g.form.remote_host.len() == 0 && hosts.len() > 0 ==> gui_apply_dashboard(g, rows, hosts).form
            == (FormView { remote_host: hosts[0], ..g.form }),
        gui_apply_dashboard(g, rows, hosts).selected == g.selected,
        gui_apply_dashboard(g, rows, hosts).message == g.message,
        gui_apply_dashboard(g, rows, hosts).pending_jobs == g.pending_jobs,
        gui_apply_dashboard(g, rows, hosts).pending == g.pending,
{
}

/// A rule loaded into the form and saved unchanged comes back as it was,
/// stopped: the ports are written in decimal and read back. This holds for
/// names and hosts without whitespace at either end, which the form trims.
pub proof fn lemma_form_roundtrip(g: GuiView, name: Seq<char>, rule: RuleView)
    requires
        name.len() > 0,
        trim(name) == name,
        rule.remote_host.len() > 0,
        trim(rule.remote_host) == rule.remote_host,
    ensures
        form_check(gui_load_into_form(g, name, rule).form) == Ok::<(Seq<char>, RuleView), Seq<char>>(
            (name, RuleView { status: false, pid: None, ..rule }),
        ),
{
    lemma_decimal_parses(rule.local_port as nat, u16::MAX as int);
    lemma_decimal_parses(rule.remote_port as nat, u16::MAX as int);
}

/// Marking `names` puts each of them in `state`; names outside keep their mark.
pub proof fn lemma_mark_all(m: Map<Seq<char>, PendingRuleState>, names: Seq<Seq<char>>, state: PendingRuleState)
    ensures
        forall|n: Seq<char>| #[trigger] names.contains(n) ==> mark_all(m, names, state).dom().contains(n)
            && mark_all(m, names, state)[n] == state,
        forall|n: Seq<char>| !names.contains(n) ==> (#[trigger] mark_all(m, names, state).dom().contains(n)
            == m.dom().contains(n)) && (m.dom().contains(n) ==> mark_all(m, names, state)[n] == m[n]),
    decreases names.len(),
{
    if names.len() > 0 {
        lemma_mark_all(m, names.drop_last(), state);
        assert forall|n: Seq<char>| #[trigger] names.contains(n) implies mark_all(m, names, state).dom().contains(n)
            && mark_all(m, names, state)[n] == state by {
            if n != names.last() {
                let i = choose|i: int| 0 <= i < names.len() && names[i] == n;
                assert(i < names.len() - 1);
                assert(names.drop_last()[i] == n);
                assert(names.drop_last().contains(n));
            }
        }
        assert forall|n: Seq<char>| !names.contains(n) implies (#[trigger] mark_all(m, names, state).dom().contains(n)
            == m.dom().contains(n)) && (m.dom().contains(n) ==> mark_all(m, names, state)[n] == m[n]) by {
            assert(n != names.last());
            if names.drop_last().contains(n) {
                let i = choose|i: int| 0 <= i < names.len() - 1 && names.drop_last()[i] == n;
                assert(names[i] == n);
            }
        }
    }
}

/// Unmarking `names` leaves none of them marked and the others as they were.
pub proof fn lemma_unmark_all(m: Map<Seq<char>, PendingRuleState>, names: Seq<Seq<char>>)
    ensures
        unmark_all(m, names) == m.remove_keys(names.to_set()),
    decreases names.len(),
{
    if names.len() > 0 {
        lemma_unmark_all(m, names.drop_last());
        assert forall|x: Seq<char>| #[trigger] names.to_set().contains(x) == names.drop_last().to_set().insert(
            names.last(),
        ).contains(x) by {
            if names.contains(x) && x != names.last() {
                let i = choose|i: int| 0 <= i < names.len() && names[i] == x;
                assert(names.drop_last()[i] == x);
            }
            if names.drop_last().contains(x) {
                let i = choose|i: int| 0 <= i < names.len() - 1 && names.drop_last()[i] == x;
                assert(names[i] == x);
            }
            assert(names[names.len() - 1] == names.last());
        }
        assert(names.to_set() =~= names.drop_last().to_set().insert(names.last()));
        assert(unmark_all(m, names) =~= m.remove_keys(names.to_set()));
    }
}

/// A start or stop that was handed to the worker, once its job ends, leaves no
/// mark on its rules and the number of jobs where it was: the marks that the
/// request set are the marks that the completion clears.
pub proof fn lemma_request_then_complete(
    g: GuiView,
    names: Seq<Seq<char>>,
    state: PendingRuleState,
    e: EventView,
)
    requires
        names.len() > 0,
        g.pending_jobs >= 0,
        e.completed == names,
    ensures
        gui_request(g, names, true, state).pending_jobs == g.pending_jobs + 1,
        forall|n: Seq<char>| #[trigger] names.contains(n) ==> gui_request(g, names, true, state).pending[n]
            == state && gui_request(g, names, true, state).pending.dom().contains(n),
        gui_after_event(gui_request(g, names, true, state), e).pending_jobs == g.pending_jobs,
        gui_after_event(gui_request(g, names, true, state), e).pending == g.pending.remove_keys(names.to_set()),
{
    lemma_mark_all(g.pending, names, state);
    lemma_unmark_all(mark_all(g.pending, names, state), names);
    let p = mark_all(g.pending, names, state);
    assert(p.remove_keys(names.to_set()) =~= g.pending.remove_keys(names.to_set())) by {
        assert forall|n: Seq<char>| !names.to_set().contains(n) implies (p.dom().contains(n) == g.pending.dom().contains(n))
            && (g.pending.dom().contains(n) ==> p[n] == g.pending[n]) by {
            assert(!names.contains(n));
        }
    }
    let g1 = gui_request(g, names, true, state);
    let e1 = gui_after_event(g1, e);
    match e.dashboard {
        Some(d) => {
            assert(e1.pending == unmark_all(p, names));
        },
        None => {},
    }
}

} // verus!
