//! Keeping names in the order of `String`'s `Ord`.
use vstd::prelude::*;

use crate::cmd::common::{
    PortForwardRule,
    RuleView,
    distinct_names,
    entry_view,
    entry_views,
    names_of,
};
use crate::text::{
    chars_eq,
    chars_lt,
    chars_of,
    lemma_lex_asymmetric,
    lemma_lex_irreflexive,
    lemma_lex_total,
    lemma_lex_transitive,
    lex_lt,
    string_views,
    strictly_sorted,
};

verus! {

proof fn lemma_string_views_insert(v: Seq<String>, p: int, x: String)
    requires
        0 <= p <= v.len(),
    ensures
        string_views(v.insert(p, x)) == string_views(v).insert(p, x@),
{
    assert(string_views(v.insert(p, x)) =~= string_views(v).insert(p, x@));
}

/// Inserting into a sequence adds the value to its set.
pub proof fn lemma_insert_to_set<A>(s: Seq<A>, p: int, x: A)
    requires
        0 <= p <= s.len(),
    ensures
        s.insert(p, x).to_set() == s.to_set().insert(x),
{
    let t = s.insert(p, x);
    assert forall|y: A| t.to_set().contains(y) <==> s.to_set().insert(x).contains(y) by {
        if t.to_set().contains(y) {
            let k = choose|k: int| 0 <= k < t.len() && t[k] == y;
            if k < p {
                assert(s[k] == y);
            } else if k > p {
                assert(s[k - 1] == y);
            }
        }
        if s.to_set().contains(y) {
            let k = choose|k: int| 0 <= k < s.len() && s[k] == y;
            if k < p {
                assert(t[k] == y);
            } else {
                assert(t[k + 1] == y);
            }
        }
        if y == x {
            assert(t[p] == y);
        }
    }
    assert(t.to_set() =~= s.to_set().insert(x));
}

/// Taking one more element of a sequence adds that element to the set.
pub proof fn lemma_take_next_to_set<A>(s: Seq<A>, i: int)
    requires
        0 <= i < s.len(),
    ensures
        s.take(i + 1).to_set() == s.take(i).to_set().insert(s[i]),
{
    assert(s.take(i + 1) =~= s.take(i).insert(i, s[i]));
    lemma_insert_to_set(s.take(i), i, s[i]);
}

/// Inserting `x` at the place where it keeps `s` strictly sorted.
proof fn lemma_sorted_insert(s: Seq<Seq<char>>, p: int, x: Seq<char>)
    requires
        strictly_sorted(s),
        0 <= p <= s.len(),
        forall|k: int| 0 <= k < p ==> lex_lt(#[trigger] s[k], x),
        p < s.len() ==> lex_lt(x, s[p]),
    ensures
        strictly_sorted(s.insert(p, x)),
        s.insert(p, x).to_set() == s.to_set().insert(x),
{
    let t = s.insert(p, x);
    assert forall|i: int, j: int| 0 <= i < j < t.len() implies lex_lt(#[trigger] t[i], #[trigger] t[j]) by {
        if j < p {
            assert(t[i] == s[i] && t[j] == s[j]);
        } else if j == p {
            assert(t[i] == s[i]);
        } else if i == p {
            assert(t[j] == s[j - 1]);
            if j - 1 > p {
                assert(lex_lt(s[p], s[j - 1]));
                lemma_lex_transitive(x, s[p], s[j - 1]);
            }
        } else if i < p {
            assert(t[i] == s[i] && t[j] == s[j - 1]);
        } else {
            assert(t[i] == s[i - 1] && t[j] == s[j - 1]);
        }
    }
    lemma_insert_to_set(s, p, x);
}

/// Adds `x` to the strictly sorted `out` unless it is there already.
pub fn insert_sorted(out: &mut Vec<String>, x: String)
    requires
        strictly_sorted(string_views(old(out)@)),
    ensures
        strictly_sorted(string_views(final(out)@)),
        string_views(final(out)@).to_set() == string_views(old(out)@).to_set().insert(x@),
{
    let ghost s = string_views(out@);
    let xc = chars_of(x.as_str());
    let mut p: usize = 0;
    while p < out.len() && chars_lt(&chars_of(out[p].as_str()), &xc)
        invariant
            s == string_views(out@),
            xc@ == x@,
            p <= out.len(),
            forall|k: int| 0 <= k < p ==> lex_lt(#[trigger] s[k], x@),
        decreases out.len() - p,
    {
        p += 1;
    }
    if p < out.len() && chars_eq(&chars_of(out[p].as_str()), &xc) {
        proof {
            assert(s[p as int] == x@);
            assert(s.to_set().contains(x@));
            assert(s.to_set().insert(x@) =~= s.to_set());
        }
        return ;
    }
    proof {
        if p < out.len() {
            assert(!lex_lt(s[p as int], x@));
            lemma_lex_total(s[p as int], x@);
        }
        lemma_sorted_insert(s, p as int, x@);
        lemma_string_views_insert(out@, p as int, x);
    }
    out.insert(p, x);
}

/// The names `hosts` in increasing order, each once (`sort` then `dedup`).
pub fn sorted_unique(hosts: &Vec<String>) -> (r: Vec<String>)
    ensures
        strictly_sorted(string_views(r@)),
        string_views(r@).to_set() == string_views(hosts@).to_set(),
{
    let mut out: Vec<String> = Vec::new();
    assert(string_views(out@).to_set() =~= string_views(hosts@).take(0).to_set());
    for i in 0..hosts.len()
        invariant
            strictly_sorted(string_views(out@)),
            string_views(out@).to_set() == string_views(hosts@).take(i as int).to_set(),
    {
        insert_sorted(&mut out, hosts[i].clone());
        proof {
            lemma_take_next_to_set(string_views(hosts@), i as int);
        }
    }
    assert(string_views(hosts@).take(hosts.len() as int) =~= string_views(hosts@));
    out
}

/// Rows in increasing order of name.
pub open spec fn rows_sorted(e: Seq<(Seq<char>, RuleView)>) -> bool {
    strictly_sorted(names_of(e))
}

proof fn lemma_entry_views_insert(
    v: Seq<(String, PortForwardRule)>,
    p: int,
    x: (String, PortForwardRule),
)
    requires
        0 <= p <= v.len(),
    ensures
        entry_views(v.insert(p, x)) == entry_views(v).insert(p, entry_view(x)),
{
    assert(entry_views(v.insert(p, x)) =~= entry_views(v).insert(p, entry_view(x)));
}

/// Sorts rows with distinct names by name (`sort_by` on the name).
pub fn sort_rows(rows: &Vec<(String, PortForwardRule)>) -> (r: Vec<(String, PortForwardRule)>)
    requires
        distinct_names(entry_views(rows@)),
    ensures
        rows_sorted(entry_views(r@)),
        entry_views(r@).to_set() == entry_views(rows@).to_set(),
        r.len() == rows.len(),
{
    let ghost src = entry_views(rows@);
    let mut out: Vec<(String, PortForwardRule)> = Vec::new();
    assert(entry_views(out@).to_set() =~= src.take(0).to_set());
    for i in 0..rows.len()
        invariant
            src == entry_views(rows@),
            distinct_names(src),
            out.len() == i,
            rows_sorted(entry_views(out@)),
            entry_views(out@).to_set() == src.take(i as int).to_set(),
    {
        let ghost e = entry_views(out@);
        let ghost ns = names_of(e);
        let x = (rows[i].0.clone(), rows[i].1.duplicate());
        assert(entry_view(x) == src[i as int]);
        let xc = chars_of(x.0.as_str());
        let mut p: usize = 0;
        while p < out.len() && chars_lt(&chars_of(out[p].0.as_str()), &xc)
            invariant
                e == entry_views(out@),
                ns == names_of(e),
                xc@ == x.0@,
                p <= out.len(),
                forall|k: int| 0 <= k < p ==> lex_lt(#[trigger] ns[k], x.0@),
            decreases out.len() - p,
        {
            p += 1;
        }
        proof {
            if p < out.len() {
                assert(!lex_lt(ns[p as int], x.0@));
                assert(e.to_set().contains(e[p as int]));
                let j = choose|j: int| 0 <= j < src.take(i as int).len() && src.take(i as int)[j] == e[p as int];
                assert(src[j] == e[p as int]);
                assert(ns[p as int] != x.0@);
                lemma_lex_total(ns[p as int], x.0@);
            }
            lemma_sorted_insert(ns, p as int, x.0@);
            lemma_entry_views_insert(out@, p as int, x);
            assert(names_of(e.insert(p as int, entry_view(x))) =~= ns.insert(p as int, x.0@));
            lemma_insert_to_set(e, p as int, entry_view(x));
            lemma_take_next_to_set(src, i as int);
        }
        out.insert(p, x);
    }
    assert(src.take(rows.len() as int) =~= src);
    out
}

/// Whether `s` is strictly increasing.
pub open spec fn increasing(s: Seq<u32>) -> bool {
    forall|i: int, j: int| 0 <= i < j < s.len() ==> #[trigger] s[i] < #[trigger] s[j]
}

/// Two strictly increasing sequences with the same elements are equal.
pub proof fn lemma_increasing_unique(a: Seq<u32>, b: Seq<u32>)
    requires
        increasing(a),
        increasing(b),
        a.to_set() == b.to_set(),
    ensures
        a == b,
    decreases a.len(),
{
    if a.len() == 0 {
        if b.len() > 0 {
            assert(b.to_set().contains(b[0]));
        }
        assert(a =~= b);
    } else {
        assert(a.to_set().contains(a[0]));
        assert(b.to_set().contains(a[0]));
        let i = choose|i: int| 0 <= i < b.len() && b[i] == a[0];
        assert(b.to_set().contains(b[0]));
        let j = choose|j: int| 0 <= j < a.len() && a[j] == b[0];
        if i > 0 {
            assert(b[0] < b[i]);
            if j > 0 {
                assert(a[0] < a[j]);
            }
        }
        assert(a[0] == b[0]);
        let a1 = a.drop_first();
        let b1 = b.drop_first();
        assert forall|x: u32| a1.to_set().contains(x) <==> b1.to_set().contains(x) by {
            if a1.to_set().contains(x) {
                let k = choose|k: int| 0 <= k < a1.len() && a1[k] == x;
                assert(a[k + 1] == x);
                assert(b.to_set().contains(x));
                let m = choose|m: int| 0 <= m < b.len() && b[m] == x;
                if m == 0 {
                    assert(a[0] < a[k + 1]);
                }
                assert(b1[m - 1] == x);
            }
            if b1.to_set().contains(x) {
                let k = choose|k: int| 0 <= k < b1.len() && b1[k] == x;
                assert(b[k + 1] == x);
                assert(a.to_set().contains(x));
                let m = choose|m: int| 0 <= m < a.len() && a[m] == x;
                if m == 0 {
                    assert(b[0] < b[k + 1]);
                }
                assert(a1[m - 1] == x);
            }
        }
        assert(a1.to_set() =~= b1.to_set());
        lemma_increasing_unique(a1, b1);
        assert(a =~= seq![a[0]] + a1);
        assert(b =~= seq![b[0]] + b1);
    }
}

/// The elements of `s` in increasing order: the one increasing sequence with that set.
pub open spec fn sorted_set(s: Set<u32>) -> Seq<u32> {
    choose|q: Seq<u32>| increasing(q) && q.to_set() == s
}

/// Adds `x` to the increasing `out` unless it is there already.
pub fn insert_increasing(out: &mut Vec<u32>, x: u32)
    requires
        increasing(old(out)@),
    ensures
        increasing(final(out)@),
        final(out)@.to_set() == old(out)@.to_set().insert(x),
{
    let ghost s = out@;
    let mut p: usize = 0;
    while p < out.len() && out[p] < x
        invariant
            s == out@,
            p <= out.len(),
            forall|k: int| 0 <= k < p ==> #[trigger] s[k] < x,
        decreases out.len() - p,
    {
        p += 1;
    }
    if p < out.len() && out[p] == x {
        assert(s.to_set().contains(x));
        assert(s.to_set().insert(x) =~= s.to_set());
        return ;
    }
    proof {
        let t = s.insert(p as int, x);
        assert forall|i: int, j: int| 0 <= i < j < t.len() implies #[trigger] t[i] < #[trigger] t[j] by {
            if j < p {
                assert(t[i] == s[i] && t[j] == s[j]);
            } else if j == p {
                assert(t[i] == s[i]);
            } else if i == p {
                assert(t[j] == s[j - 1]);
                if j - 1 > p {
                    assert(s[p as int] < s[j - 1]);
                }
            } else if i < p {
                assert(t[i] == s[i] && t[j] == s[j - 1]);
            } else {
                assert(t[i] == s[i - 1] && t[j] == s[j - 1]);
            }
        }
        lemma_insert_to_set(s, p as int, x);
    }
    out.insert(p, x);
}

/// The values of `v` in increasing order, each once.
pub fn increasing_set(v: &Vec<u32>) -> (r: Vec<u32>)
    ensures
        increasing(r@),
        r@.to_set() == v@.to_set(),
        r@ == sorted_set(v@.to_set()),
{
    let mut out: Vec<u32> = Vec::new();
    assert(out@.to_set() =~= v@.take(0).to_set());
    for i in 0..v.len()
        invariant
            increasing(out@),
            out@.to_set() == v@.take(i as int).to_set(),
    {
        insert_increasing(&mut out, v[i]);
        proof {
            lemma_take_next_to_set(v@, i as int);
        }
    }
    assert(v@.take(v.len() as int) =~= v@);
    proof {
        lemma_sorted_set(out@);
    }
    out
}

/// An increasing sequence is the [`sorted_set`] of its elements.
pub proof fn lemma_sorted_set(q: Seq<u32>)
    requires
        increasing(q),
    ensures
        sorted_set(q.to_set()) == q,
{
    let c = sorted_set(q.to_set());
    assert(increasing(c) && c.to_set() == q.to_set());
    lemma_increasing_unique(c, q);
}

/// Two sequences of rows, each strictly sorted by name, with the same rows, are equal.
pub proof fn lemma_rows_sorted_unique(a: Seq<(Seq<char>, RuleView)>, b: Seq<(Seq<char>, RuleView)>)
    requires
        rows_sorted(a),
        rows_sorted(b),
        a.to_set() == b.to_set(),
    ensures
        a == b,
    decreases a.len(),
{
    if a.len() == 0 {
        if b.len() > 0 {
            assert(b.to_set().contains(b[0]));
        }
        assert(a =~= b);
    } else {
        assert(a.to_set().contains(a[0]));
        assert(b.to_set().contains(a[0]));
        let i = choose|i: int| 0 <= i < b.len() && b[i] == a[0];
        assert(b.to_set().contains(b[0]));
        let j = choose|j: int| 0 <= j < a.len() && a[j] == b[0];
        if a[0] != b[0] {
            assert(i > 0 && j > 0);
            assert(names_of(b)[0] == b[0].0 && names_of(b)[i] == b[i].0);
            assert(lex_lt(names_of(b)[0], names_of(b)[i]));
            assert(names_of(a)[0] == a[0].0 && names_of(a)[j] == a[j].0);
            assert(lex_lt(names_of(a)[0], names_of(a)[j]));
            lemma_lex_asymmetric(a[0].0, b[0].0);
        }
        let a1 = a.drop_first();
        let b1 = b.drop_first();
        assert(rows_sorted(a1)) by {
            assert forall|x: int, y: int| 0 <= x < y < names_of(a1).len() implies lex_lt(
                #[trigger] names_of(a1)[x],
                #[trigger] names_of(a1)[y],
            ) by {
                assert(names_of(a1)[x] == names_of(a)[x + 1]);
                assert(names_of(a1)[y] == names_of(a)[y + 1]);
            }
        }
        assert(rows_sorted(b1)) by {
            assert forall|x: int, y: int| 0 <= x < y < names_of(b1).len() implies lex_lt(
                #[trigger] names_of(b1)[x],
                #[trigger] names_of(b1)[y],
            ) by {
                assert(names_of(b1)[x] == names_of(b)[x + 1]);
                assert(names_of(b1)[y] == names_of(b)[y + 1]);
            }
        }
        assert forall|x: (Seq<char>, RuleView)| a1.to_set().contains(x) <==> b1.to_set().contains(
            x,
        ) by {
            if a1.to_set().contains(x) {
                let k = choose|k: int| 0 <= k < a1.len() && a1[k] == x;
                assert(a[k + 1] == x);
                assert(b.to_set().contains(x));
                let m = choose|m: int| 0 <= m < b.len() && b[m] == x;
                if m == 0 {
                    assert(names_of(a)[0] == a[0].0 && names_of(a)[k + 1] == a[k + 1].0);
                    assert(lex_lt(names_of(a)[0], names_of(a)[k + 1]));
                    lemma_lex_irreflexive(a[0].0);
                }
                assert(b1[m - 1] == x);
            }
            if b1.to_set().contains(x) {
                let k = choose|k: int| 0 <= k < b1.len() && b1[k] == x;
                assert(b[k + 1] == x);
                assert(a.to_set().contains(x));
                let m = choose|m: int| 0 <= m < a.len() && a[m] == x;
                if m == 0 {
                    assert(names_of(b)[0] == b[0].0 && names_of(b)[k + 1] == b[k + 1].0);
                    assert(lex_lt(names_of(b)[0], names_of(b)[k + 1]));
                    lemma_lex_irreflexive(b[0].0);
                }
                assert(a1[m - 1] == x);
            }
        }
        assert(a1.to_set() =~= b1.to_set());
        lemma_rows_sorted_unique(a1, b1);
        assert(a =~= seq![a[0]] + a1);
        assert(b =~= seq![b[0]] + b1);
    }
}

/// The rows of `e` sorted by name: the one name-sorted sequence with those rows.
pub open spec fn sorted_rows(e: Seq<(Seq<char>, RuleView)>) -> Seq<(Seq<char>, RuleView)> {
    choose|q: Seq<(Seq<char>, RuleView)>| rows_sorted(q) && q.to_set() == e.to_set()
}

/// The first position at or after `i` whose name is not below `x`.
pub open spec fn first_not_below(ns: Seq<Seq<char>>, x: Seq<char>, i: int) -> int
    decreases ns.len() - i,
{
    if i < 0 || i >= ns.len() || !lex_lt(ns[i], x) {
        i
    } else {
        first_not_below(ns, x, i + 1)
    }
}

proof fn lemma_first_not_below(ns: Seq<Seq<char>>, x: Seq<char>, i: int)
    requires
        0 <= i <= ns.len(),
    ensures
        i <= first_not_below(ns, x, i) <= ns.len(),
        forall|k: int| i <= k < first_not_below(ns, x, i) ==> lex_lt(#[trigger] ns[k], x),
        first_not_below(ns, x, i) < ns.len() ==> !lex_lt(ns[first_not_below(ns, x, i)], x),
    decreases ns.len() - i,
{
    if i < ns.len() && lex_lt(ns[i], x) {
        lemma_first_not_below(ns, x, i + 1);
    }
}

/// Rows with distinct names have a name-sorted arrangement: [`sorted_rows`]
/// is sorted and holds the same rows.
pub proof fn lemma_sorted_rows_exists(e: Seq<(Seq<char>, RuleView)>)
    requires
        distinct_names(e),
    ensures
        rows_sorted(sorted_rows(e)),
        sorted_rows(e).to_set() == e.to_set(),
    decreases e.len(),
{
    if e.len() == 0 {
        assert(rows_sorted(e));
    } else {
        let e0 = e.drop_last();
        let x = e.last();
        assert(distinct_names(e0)) by {
            assert forall|i: int, j: int|
                0 <= i < e0.len() && 0 <= j < e0.len() && i != j implies (#[trigger] e0[i]).0
                != (#[trigger] e0[j]).0 by {
                assert(e[i] == e0[i] && e[j] == e0[j]);
            }
        }
        lemma_sorted_rows_exists(e0);
        let q0 = sorted_rows(e0);
        let ns = names_of(q0);
        let p = first_not_below(ns, x.0, 0);
        lemma_first_not_below(ns, x.0, 0);
        if p < ns.len() {
            assert(q0.to_set().contains(q0[p]));
            let j = choose|j: int| 0 <= j < e0.len() && e0[j] == q0[p];
            assert(e[j] == e0[j]);
            assert(e[e.len() - 1] == x);
            assert(ns[p] == q0[p].0);
            assert(ns[p] != x.0);
            lemma_lex_total(ns[p], x.0);
        }
        lemma_sorted_insert(ns, p, x.0);
        let q = q0.insert(p, x);
        assert(names_of(q) =~= ns.insert(p, x.0));
        lemma_insert_to_set(q0, p, x);
        assert(e =~= e0.push(x));
        assert(e.to_set() =~= e0.to_set().insert(x)) by {
            assert forall|y: (Seq<char>, RuleView)| e.to_set().contains(y) <==> e0.to_set().insert(x).contains(y) by {
                if e.to_set().contains(y) && y != x {
                    let k = choose|k: int| 0 <= k < e.len() && e[k] == y;
                    assert(k < e0.len());
                    assert(e0[k] == y);
                }
                if e0.to_set().contains(y) {
                    let k = choose|k: int| 0 <= k < e0.len() && e0[k] == y;
                    assert(e[k] == y);
                }
                if y == x {
                    assert(e[e.len() - 1] == x);
                }
            }
        }
        assert(rows_sorted(q) && q.to_set() == e.to_set());
    }
}

/// A name-sorted sequence of rows is the [`sorted_rows`] of any sequence with the same rows.
pub proof fn lemma_sorted_rows(q: Seq<(Seq<char>, RuleView)>, e: Seq<(Seq<char>, RuleView)>)
    requires
        rows_sorted(q),
        q.to_set() == e.to_set(),
    ensures
        sorted_rows(e) == q,
{
    let c = sorted_rows(e);
    assert(rows_sorted(c) && c.to_set() == e.to_set());
    lemma_rows_sorted_unique(c, q);
}

/// Rows sorted strictly by name carry distinct names.
pub proof fn lemma_rows_sorted_distinct(e: Seq<(Seq<char>, RuleView)>)
    requires
        rows_sorted(e),
    ensures
        distinct_names(e),
{
    assert forall|i: int, j: int| 0 <= i < e.len() && 0 <= j < e.len() && i != j implies (
    #[trigger] e[i]).0 != (#[trigger] e[j]).0 by {
        assert(names_of(e)[i] == e[i].0 && names_of(e)[j] == e[j].0);
        if i < j {
            assert(lex_lt(names_of(e)[i], names_of(e)[j]));
            lemma_lex_irreflexive(e[i].0);
        } else {
            assert(lex_lt(names_of(e)[j], names_of(e)[i]));
            lemma_lex_irreflexive(e[j].0);
        }
    }
}

} // verus!
