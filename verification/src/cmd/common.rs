//! The forwarding rule and the table of named rules that the tool keeps.
use vstd::prelude::*;

use crate::text::{str_eq, string_views};

verus! {

/// One SSH local port forward: `127.0.0.1:local_port` is forwarded through
/// `remote_host` to its `localhost:remote_port`.
pub struct PortForwardRule {
    pub local_port: u16,
    pub remote_port: u16,
    pub remote_host: String,
    /// Whether the forward is believed to be running.
    pub status: bool,
    /// The process id of the ssh client that holds the forward, when known.
    pub pid: Option<u32>,
}

/// The mathematical value of a [`PortForwardRule`].
pub struct RuleView {
    pub local_port: u16,
    pub remote_port: u16,
    pub remote_host: Seq<char>,
    pub status: bool,
    pub pid: Option<u32>,
}

impl View for PortForwardRule {
    type V = RuleView;

    open spec fn view(&self) -> RuleView {
        RuleView {
            local_port: self.local_port,
            remote_port: self.remote_port,
            remote_host: self.remote_host@,
            status: self.status,
            pid: self.pid,
        }
    }
}

impl PortForwardRule {
    /// A copy of this rule.
    pub fn duplicate(&self) -> (r: PortForwardRule)
        ensures
            r@ == self@,
    {
        PortForwardRule {
            local_port: self.local_port,
            remote_port: self.remote_port,
            remote_host: self.remote_host.clone(),
            status: self.status,
            pid: self.pid,
        }
    }

    /// Whether the two rules are equal in every field.
    pub fn same_as(&self, other: &PortForwardRule) -> (r: bool)
        ensures
            r == (self@ == other@),
    {
        self.local_port == other.local_port && self.remote_port == other.remote_port
            && self.remote_host.eq(&other.remote_host) && self.status == other.status
            && self.pid == other.pid
    }
}

/// A row of the table, by value.
pub open spec fn entry_view(e: (String, PortForwardRule)) -> (Seq<char>, RuleView) {
    (e.0@, e.1@)
}

/// The values of a sequence of rows.
pub open spec fn entry_views(s: Seq<(String, PortForwardRule)>) -> Seq<(Seq<char>, RuleView)> {
    s.map_values(|e: (String, PortForwardRule)| entry_view(e))
}

/// The names of a sequence of rows, in order.
pub open spec fn names_of<V>(e: Seq<(Seq<char>, V)>) -> Seq<Seq<char>> {
    e.map_values(|p: (Seq<char>, V)| p.0)
}

/// Whether `name` names some row of `e`.
pub open spec fn has_name<V>(e: Seq<(Seq<char>, V)>, name: Seq<char>) -> bool {
    exists|i: int| 0 <= i < e.len() && (#[trigger] e[i]).0 == name
}

/// The rows of `e` as a map from name to rule (for rows with distinct names).
pub open spec fn map_of<V>(e: Seq<(Seq<char>, V)>) -> Map<Seq<char>, V> {
    Map::new(
        |k: Seq<char>| has_name(e, k),
        |k: Seq<char>| e[choose|i: int| 0 <= i < e.len() && (#[trigger] e[i]).0 == k].1,
    )
}

/// No two rows of `e` carry the same name.
pub open spec fn distinct_names<V>(e: Seq<(Seq<char>, V)>) -> bool {
    forall|i: int, j: int|
        0 <= i < e.len() && 0 <= j < e.len() && i != j ==> (#[trigger] e[i]).0 != (#[trigger] e[j]).0
}

/// In rows with distinct names, the map sends each row's name to its rule.
pub proof fn lemma_map_of_row<V>(e: Seq<(Seq<char>, V)>, i: int)
    requires
        distinct_names(e),
        0 <= i < e.len(),
    ensures
        map_of(e).dom().contains(e[i].0),
        map_of(e)[e[i].0] == e[i].1,
{
    assert(has_name(e, e[i].0));
    let j = choose|j: int| 0 <= j < e.len() && (#[trigger] e[j]).0 == e[i].0;
    assert(j == i);
}

/// The names in the table, as a set, are the domain of the map.
pub proof fn lemma_map_of_dom<V>(e: Seq<(Seq<char>, V)>)
    ensures
        map_of(e).dom() == names_of(e).to_set(),
{
    assert forall|k: Seq<char>| map_of(e).dom().contains(k) <==> names_of(e).to_set().contains(k) by {
        if map_of(e).dom().contains(k) {
            let i = choose|i: int| 0 <= i < e.len() && (#[trigger] e[i]).0 == k;
            assert(names_of(e)[i] == k);
        }
        if names_of(e).to_set().contains(k) {
            let i = choose|i: int| 0 <= i < names_of(e).len() && names_of(e)[i] == k;
            assert(e[i].0 == k);
        }
    }
    assert(map_of(e).dom() =~= names_of(e).to_set());
}

pub proof fn lemma_map_of_update<V>(e: Seq<(Seq<char>, V)>, i: int, v: V)
    requires
        distinct_names(e),
        0 <= i < e.len(),
    ensures
        distinct_names(e.update(i, (e[i].0, v))),
        map_of(e.update(i, (e[i].0, v))) == map_of(e).insert(e[i].0, v),
{
    let e2 = e.update(i, (e[i].0, v));
    assert forall|k: Seq<char>| has_name(e2, k) <==> has_name(e, k) by {
        if has_name(e2, k) {
            let j = choose|j: int| 0 <= j < e2.len() && (#[trigger] e2[j]).0 == k;
            assert(e[j].0 == k);
        }
        if has_name(e, k) {
            let j = choose|j: int| 0 <= j < e.len() && (#[trigger] e[j]).0 == k;
            assert(e2[j].0 == k);
        }
    }
    assert forall|k: Seq<char>| #[trigger] map_of(e2).dom().contains(k) implies map_of(e2)[k] == map_of(
        e,
    ).insert(e[i].0, v)[k] by {
        let j = choose|j: int| 0 <= j < e2.len() && (#[trigger] e2[j]).0 == k;
        lemma_map_of_row(e2, j);
        if j != i {
            lemma_map_of_row(e, j);
        }
    }
    assert(map_of(e2) =~= map_of(e).insert(e[i].0, v));
}

pub proof fn lemma_map_of_push<V>(e: Seq<(Seq<char>, V)>, k: Seq<char>, v: V)
    requires
        distinct_names(e),
        !has_name(e, k),
    ensures
        distinct_names(e.push((k, v))),
        map_of(e.push((k, v))) == map_of(e).insert(k, v),
{
    let e2 = e.push((k, v));
    assert forall|x: Seq<char>| has_name(e2, x) <==> (has_name(e, x) || x == k) by {
        if has_name(e2, x) {
            let j = choose|j: int| 0 <= j < e2.len() && (#[trigger] e2[j]).0 == x;
            if j < e.len() {
                assert(e[j].0 == x);
            }
        }
        if has_name(e, x) {
            let j = choose|j: int| 0 <= j < e.len() && (#[trigger] e[j]).0 == x;
            assert(e2[j].0 == x);
        }
        if x == k {
            assert(e2[e.len() as int].0 == x);
        }
    }
    assert forall|a: int, b: int|
        0 <= a < e2.len() && 0 <= b < e2.len() && a != b implies (#[trigger] e2[a]).0 != (
    #[trigger] e2[b]).0 by {
        if a == e.len() {
            assert(e2[b] == e[b]);
        } else if b == e.len() {
            assert(e2[a] == e[a]);
        } else {
            assert(e2[a] == e[a] && e2[b] == e[b]);
        }
    }
    assert forall|x: Seq<char>| #[trigger] map_of(e2).dom().contains(x) implies map_of(e2)[x]
        == map_of(e).insert(k, v)[x] by {
        let j = choose|j: int| 0 <= j < e2.len() && (#[trigger] e2[j]).0 == x;
        lemma_map_of_row(e2, j);
        if j < e.len() {
            assert(e2[j] == e[j]);
            lemma_map_of_row(e, j);
        }
    }
    assert(map_of(e2) =~= map_of(e).insert(k, v));
}

pub proof fn lemma_map_of_remove<V>(e: Seq<(Seq<char>, V)>, i: int)
    requires
        distinct_names(e),
        0 <= i < e.len(),
    ensures
        distinct_names(e.remove(i)),
        map_of(e.remove(i)) == map_of(e).remove(e[i].0),
{
    let e2 = e.remove(i);
    assert forall|a: int| 0 <= a < e2.len() implies #[trigger] e2[a] == e[if a < i {
        a
    } else {
        a + 1
    }] by {}
    assert forall|x: Seq<char>| has_name(e2, x) <==> (has_name(e, x) && x != e[i].0) by {
        if has_name(e2, x) {
            let j = choose|j: int| 0 <= j < e2.len() && (#[trigger] e2[j]).0 == x;
            let jj = if j < i {
                j
            } else {
                j + 1
            };
            assert(e[jj].0 == x);
        }
        if has_name(e, x) && x != e[i].0 {
            let j = choose|j: int| 0 <= j < e.len() && (#[trigger] e[j]).0 == x;
            if j < i {
                assert(e2[j].0 == x);
            } else {
                assert(j != i);
                assert(e2[j - 1].0 == x);
            }
        }
    }
    assert forall|a: int, b: int|
        0 <= a < e2.len() && 0 <= b < e2.len() && a != b implies (#[trigger] e2[a]).0 != (
    #[trigger] e2[b]).0 by {
        let aa = if a < i {
            a
        } else {
            a + 1
        };
        let bb = if b < i {
            b
        } else {
            b + 1
        };
        assert(e2[a] == e[aa] && e2[b] == e[bb]);
    }
    assert forall|x: Seq<char>| #[trigger] map_of(e2).dom().contains(x) implies map_of(e2)[x]
        == map_of(e).remove(e[i].0)[x] by {
        let j = choose|j: int| 0 <= j < e2.len() && (#[trigger] e2[j]).0 == x;
        lemma_map_of_row(e2, j);
        let jj = if j < i {
            j
        } else {
            j + 1
        };
        assert(e2[j] == e[jj]);
        lemma_map_of_row(e, jj);
    }
    assert(map_of(e2) =~= map_of(e).remove(e[i].0));
}

/// The rules, by name. The rows keep the order in which names were first added.
pub struct RuleTable {
    rows: Vec<(String, PortForwardRule)>,
}

impl View for RuleTable {
    type V = Map<Seq<char>, RuleView>;

    open spec fn view(&self) -> Map<Seq<char>, RuleView> {
        map_of(self.entries())
    }
}

impl RuleTable {
    /// The rows, in order.
    pub closed spec fn entries(&self) -> Seq<(Seq<char>, RuleView)> {
        entry_views(self.rows@)
    }

    /// The names, in row order.
    pub open spec fn names(&self) -> Seq<Seq<char>> {
        names_of(self.entries())
    }

    /// Well-formedness: no name occurs twice.
    pub open spec fn wf(&self) -> bool {
        distinct_names(self.entries())
    }

    /// The empty table.
    pub fn new() -> (t: RuleTable)
        ensures
            t.wf(),
            t.entries() == Seq::<(Seq<char>, RuleView)>::empty(),
            t@ == Map::<Seq<char>, RuleView>::empty(),
    {
        let t = RuleTable { rows: Vec::new() };
        assert(t.entries() =~= Seq::<(Seq<char>, RuleView)>::empty());
        assert(t@ =~= Map::<Seq<char>, RuleView>::empty());
        t
    }

    /// The number of rules.
    pub fn len(&self) -> (n: usize)
        ensures
            n == self.entries().len(),
    {
        self.rows.len()
    }

    /// Whether there is no rule.
    pub fn is_empty(&self) -> (b: bool)
        requires
            self.wf(),
        ensures
            b == (self@.dom().len() == 0),
            b == (self.entries().len() == 0),
    {
        proof {
            lemma_map_of_dom(self.entries());
            lemma_distinct_names_no_duplicates(self.entries());
            self.names().unique_seq_to_set();
        }
        self.rows.len() == 0
    }

    /// The position of the row named `name`.
    pub fn find(&self, name: &String) -> (r: Option<usize>)
        ensures
            match r {
                Some(i) => i < self.entries().len() && self.entries()[i as int].0 == name@,
                None => !has_name(self.entries(), name@),
            },
    {
        for i in 0..self.rows.len()
            invariant
                forall|j: int| 0 <= j < i ==> (#[trigger] self.entries()[j]).0 != name@,
        {
            if self.rows[i].0.eq(name) {
                return Some(i);
            }
        }
        None
    }

    /// The row at position `i`.
    pub fn entry(&self, i: usize) -> (r: &(String, PortForwardRule))
        requires
            i < self.entries().len(),
        ensures
            entry_view(*r) == self.entries()[i as int],
    {
        &self.rows[i]
    }

    /// Whether a rule is named `name` (`HashMap::contains_key`).
    pub fn contains_key(&self, name: &String) -> (b: bool)
        ensures
            b == self@.dom().contains(name@),
    {
        self.find(name).is_some()
    }

    /// The rule named `name` (`HashMap::get`).
    pub fn get(&self, name: &String) -> (r: Option<&PortForwardRule>)
        requires
            self.wf(),
        ensures
            match r {
                Some(rule) => self@.dom().contains(name@) && self@[name@] == rule@,
                None => !self@.dom().contains(name@),
            },
    {
        match self.find(name) {
            Some(i) => {
                proof {
                    lemma_map_of_row(self.entries(), i as int);
                }
                Some(&self.rows[i].1)
            },
            None => None,
        }
    }

    /// Sets the rule named `name` to `rule` (`HashMap::insert`): a known name keeps its
    /// place, a new one goes last.
    pub fn insert(&mut self, name: String, rule: PortForwardRule)
        requires
            old(self).wf(),
        ensures
            final(self).wf(),
            final(self)@ == old(self)@.insert(name@, rule@),
            old(self)@.dom().contains(name@) ==> final(self).names() == old(self).names(),
            !old(self)@.dom().contains(name@) ==> final(self).entries() == old(self).entries().push(
                (name@, rule@),
            ),
    {
        let ghost e = self.entries();
        match self.find(&name) {
            Some(i) => {
                let ghost nm = name@;
                let ghost rv = rule@;
                self.rows.set(i, (name, rule));
                proof {
                    assert(self.entries() =~= e.update(i as int, (e[i as int].0, rv)));
                    lemma_map_of_update(e, i as int, rv);
                    assert(self.names() =~= names_of(e));
                }
            },
            None => {
                let ghost nm = name@;
                let ghost rv = rule@;
                self.rows.push((name, rule));
                proof {
                    assert(self.entries() =~= e.push((nm, rv)));
                    lemma_map_of_push(e, nm, rv);
                }
            },
        }
    }

    /// Removes the rule named `name` (`HashMap::remove`); the other rows keep their order.
    pub fn remove(&mut self, name: &String) -> (r: Option<PortForwardRule>)
        requires
            old(self).wf(),
        ensures
            final(self).wf(),
            final(self)@ == old(self)@.remove(name@),
            match r {
                Some(rule) => old(self)@.dom().contains(name@) && old(self)@[name@] == rule@,
                None => !old(self)@.dom().contains(name@) && final(self).entries() == old(
                    self,
                ).entries(),
            },
            forall|i: int|
                0 <= i < old(self).entries().len() && old(self).entries()[i].0 == name@
                    ==> final(self).entries() == old(self).entries().remove(i),
    {
        let ghost e = self.entries();
        match self.find(name) {
            Some(i) => {
                proof {
                    lemma_map_of_row(e, i as int);
                }
                let row = self.rows.remove(i);
                proof {
                    assert(self.entries() =~= e.remove(i as int));
                    lemma_map_of_remove(e, i as int);
                    assert forall|j: int|
                        0 <= j < e.len() && e[j].0 == name@ implies self.entries() == e.remove(
                        j,
                    ) by {
                        if j != i as int {
                            assert(e[j].0 != e[i as int].0);
                        }
                    }
                }
                Some(row.1)
            },
            None => {
                proof {
                    lemma_map_of_dom(e);
                    assert(!map_of(e).dom().contains(name@));
                    assert(map_of(e).remove(name@) =~= map_of(e));
                }
                None
            },
        }
    }

    /// Sets the status and process id of the row at position `i`.
    pub fn set_state_at(&mut self, i: usize, status: bool, pid: Option<u32>)
        requires
            old(self).wf(),
            i < old(self).entries().len(),
        ensures
            final(self).wf(),
            final(self).entries() == old(self).entries().update(
                i as int,
                (
                    old(self).entries()[i as int].0,
                    RuleView { status: status, pid: pid, ..old(self).entries()[i as int].1 },
                ),
            ),
            final(self)@ == old(self)@.insert(
                old(self).entries()[i as int].0,
                RuleView { status: status, pid: pid, ..old(self).entries()[i as int].1 },
            ),
            final(self).names() == old(self).names(),
    {
        let ghost e = self.entries();
        let mut rule = self.rows[i].1.duplicate();
        rule.status = status;
        rule.pid = pid;
        let key = self.rows[i].0.clone();
        let ghost rv = rule@;
        self.rows.set(i, (key, rule));
        proof {
            assert(self.entries() =~= e.update(i as int, (e[i as int].0, rv)));
            lemma_map_of_update(e, i as int, rv);
            assert(self.names() =~= names_of(e));
        }
    }

    /// Sets the status and process id of the rule named `name`, if there is one;
    /// nothing else changes.
    pub fn set_state(&mut self, name: &String, status: bool, pid: Option<u32>)
        requires
            old(self).wf(),
        ensures
            final(self).wf(),
            final(self).names() == old(self).names(),
            old(self)@.dom().contains(name@) ==> final(self)@ == old(self)@.insert(
                name@,
                RuleView { status: status, pid: pid, ..old(self)@[name@] },
            ),
            !old(self)@.dom().contains(name@) ==> final(self)@ == old(self)@,
            !old(self)@.dom().contains(name@) ==> final(self).entries() == old(self).entries(),
    {
        let ghost e = self.entries();
        match self.find(name) {
            Some(i) => {
                proof {
                    lemma_map_of_row(e, i as int);
                }
                self.set_state_at(i, status, pid);
            },
            None => {
                proof {
                    lemma_map_of_dom(e);
                }
            },
        }
    }

    /// The names, in row order (the keys of the map).
    pub fn names_vec(&self) -> (r: Vec<String>)
        ensures
            string_views(r@) == self.names(),
    {
        let mut out: Vec<String> = Vec::new();
        for i in 0..self.rows.len()
            invariant
                self.names().len() == self.rows@.len(),
                out@.len() == i,
                string_views(out@) == self.names().take(i as int),
        {
            let ghost prev = out@;
            let name = self.rows[i].0.clone();
            assert(name@ == self.names()[i as int]);
            out.push(name);
            assert forall|k: int| 0 <= k <= i implies string_views(out@)[k] == self.names().take(
                i + 1,
            )[k] by {
                if k < i {
                    assert(string_views(prev)[k] == self.names().take(i as int)[k]);
                }
            }
            assert(string_views(out@) =~= self.names().take(i + 1));
        }
        assert(self.names().take(self.rows.len() as int) =~= self.names());
        out
    }

    /// A copy of the rows, in order.
    pub fn to_vec(&self) -> (r: Vec<(String, PortForwardRule)>)
        ensures
            entry_views(r@) == self.entries(),
    {
        let mut out: Vec<(String, PortForwardRule)> = Vec::new();
        for i in 0..self.rows.len()
            invariant
                self.entries().len() == self.rows@.len(),
                out@.len() == i,
                entry_views(out@) == self.entries().take(i as int),
        {
            let ghost prev = out@;
            let row = (self.rows[i].0.clone(), self.rows[i].1.duplicate());
            assert(entry_view(row) == self.entries()[i as int]);
            out.push(row);
            assert forall|k: int| 0 <= k <= i implies entry_views(out@)[k] == self.entries().take(
                i + 1,
            )[k] by {
                if k < i {
                    assert(entry_views(prev)[k] == self.entries().take(i as int)[k]);
                }
            }
            assert(entry_views(out@) =~= self.entries().take(i + 1));
        }
        assert(self.entries().take(self.rows.len() as int) =~= self.entries());
        out
    }

    /// A copy of this table.
    pub fn duplicate(&self) -> (r: RuleTable)
        ensures
            r.entries() == self.entries(),
            r@ == self@,
    {
        let rows = self.to_vec();
        RuleTable { rows }
    }
}

/// Rows with distinct names have distinct names in order.
pub proof fn lemma_distinct_names_no_duplicates<V>(e: Seq<(Seq<char>, V)>)
    requires
        distinct_names(e),
    ensures
        names_of(e).no_duplicates(),
{
    assert forall|i: int, j: int|
        0 <= i < names_of(e).len() && 0 <= j < names_of(e).len() && i != j implies names_of(e)[i]
        != names_of(e)[j] by {
        assert(e[i].0 != e[j].0);
    }
}

/// Which rules a subcommand works on, from the names given on the command line.
pub enum RuleSelection {
    /// No name was given: ask the user to pick rules.
    Select,
    /// The single name `all` was given.
    All,
    /// These names were given.
    Named(Vec<String>),
}

/// The names are exactly the keyword `all`.
pub open spec fn is_all_keyword(names: Seq<Seq<char>>) -> bool {
    names.len() == 1 && names[0] == "all"@
}

/// Reads the names given on the command line: none means "pick", `all` alone
/// means every rule, anything else names rules.
pub fn selection(names: Vec<String>) -> (r: RuleSelection)
    ensures
        names@.len() == 0 ==> r is Select,
        is_all_keyword(string_views(names@)) ==> r is All,
        names@.len() > 0 && !is_all_keyword(string_views(names@)) ==> (r matches RuleSelection::Named(
            n,
        ) && string_views(n@) == string_views(names@)),
{
    if names.len() == 0 {
        return RuleSelection::Select;
    }
    if names.len() == 1 && str_eq(names[0].as_str(), "all") {
        return RuleSelection::All;
    }
    RuleSelection::Named(names)
}

} // verus!
