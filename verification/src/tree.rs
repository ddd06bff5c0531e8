//! The issuer/subject hierarchy of listed certificates.
use vstd::prelude::*;
use crate::text::{join, joined, spaces, text_eq, push_char};
use crate::order::{is_permutation, key_less, sort_by_keys, lemma_permutation_covers};

verus! {

/// One certificate found by the list operation, as plain text fields.
#[derive(Debug)]
pub struct CertificateRecord {
    pub path: String,
    pub name: Option<String>,
    pub kind: String,
    pub profile: Option<String>,
    pub common_name: String,
    pub algorithm: String,
    pub expires: String,
    pub issuer: String,
    pub subject: String,
    pub domains: Vec<String>,
}

/// The text of an optional field, or `fallback` when it is absent.
pub open spec fn text_or(value: Option<String>, fallback: Seq<char>) -> Seq<char> {
    match value {
        Some(v) => v@,
        None => fallback,
    }
}

/// `records[j]` is the only record whose subject is `t`.
pub open spec fn unique_subject(records: Seq<CertificateRecord>, t: Seq<char>, j: int) -> bool {
    &&& 0 <= j < records.len()
    &&& records[j].subject@ == t
    &&& forall|k: int| 0 <= k < records.len() && k != j ==> records[k].subject@ != t
}

/// Record `c` is not self-issued and its issuer names exactly one record, `p`.
pub open spec fn issued_by(records: Seq<CertificateRecord>, c: int, p: int) -> bool {
    &&& 0 <= c < records.len()
    &&& records[c].issuer@ != records[c].subject@
    &&& unique_subject(records, records[c].issuer@, p)
}

/// Record `c` has an issuer among the records that it can be placed under.
pub open spec fn resolves(records: Seq<CertificateRecord>, c: int) -> bool {
    exists|p: int| issued_by(records, c, p)
}

/// In the layout, entry `k` is indented beneath entry `j`, its issuer: one level deeper,
/// and every entry between them is at least as deep.
pub open spec fn placed_under(
    records: Seq<CertificateRecord>,
    entries: Seq<(usize, usize)>,
    k: int,
    j: int,
) -> bool {
    &&& 0 <= j < k < entries.len()
    &&& entries[j].1 + 1 == entries[k].1
    &&& issued_by(records, entries[k].0 as int, entries[j].0 as int)
    &&& forall|m: int| j < m < k ==> entries[m].1 >= entries[k].1
}

/// Entry `k` is at the top level or sits beneath its issuer.
pub open spec fn well_placed_at(
    records: Seq<CertificateRecord>,
    entries: Seq<(usize, usize)>,
    k: int,
) -> bool {
    entries[k].1 == 0 || exists|j: int| placed_under(records, entries, k, j)
}

/// Every entry of the layout is at the top level or beneath its issuer.
pub open spec fn well_placed(records: Seq<CertificateRecord>, entries: Seq<(usize, usize)>) -> bool {
    forall|k: int| 0 <= k < entries.len() ==> well_placed_at(records, entries, k)
}

/// The indices of a layout, in order.
pub open spec fn layout_indices(entries: Seq<(usize, usize)>) -> Seq<usize> {
    entries.map_values(|e: (usize, usize)| e.0)
}

/// A layout of the records: each record exactly once, each at the top level or beneath its
/// issuer, and records whose issuer does not resolve at the top level.
pub open spec fn tree_layout(records: Seq<CertificateRecord>, entries: Seq<(usize, usize)>) -> bool {
    &&& is_permutation(layout_indices(entries), records.len())
    &&& well_placed(records, entries)
    &&& forall|k: int|
        0 <= k < entries.len() && !resolves(records, entries[k].0 as int) ==> entries[k].1 == 0
}

/// The display line of one record at a depth.
pub open spec fn tree_line(record: CertificateRecord, depth: nat) -> Seq<char> {
    spaces(2 * depth) + text_or(record.name, "<unnamed>"@) + " ("@ + record.kind@ + ") — "@
        + record.common_name@ + " ["@ + record.algorithm@ + "] — expires "@ + record.expires@
}

/// The display lines of a layout.
pub open spec fn tree_lines(records: Seq<CertificateRecord>, entries: Seq<(usize, usize)>) -> Seq<
    Seq<char>,
> {
    entries.map_values(|e: (usize, usize)| tree_line(records[e.0 as int], e.1 as nat))
}

/// Number of `true` flags.
pub open spec fn count_true(v: Seq<bool>) -> nat
    decreases v.len(),
{
    if v.len() == 0 {
        0
    } else {
        count_true(v.drop_last()) + if v.last() {
            1nat
        } else {
            0nat
        }
    }
}

proof fn lemma_count_true_bound(v: Seq<bool>)
    ensures
        count_true(v) <= v.len(),
        count_true(v) == v.len() ==> forall|i: int| 0 <= i < v.len() ==> v[i],
    decreases v.len(),
{
    if v.len() > 0 {
        lemma_count_true_bound(v.drop_last());
        assert forall|i: int| 0 <= i < v.len() && count_true(v) == v.len() implies v[i] by {
            if i < v.len() - 1 {
                assert(v.drop_last()[i] == v[i]);
            }
        }
    }
}

proof fn lemma_count_monotone(v1: Seq<bool>, v2: Seq<bool>)
    requires
        v1.len() == v2.len(),
        forall|i: int| 0 <= i < v1.len() && v1[i] ==> v2[i],
    ensures
        count_true(v1) <= count_true(v2),
    decreases v1.len(),
{
    if v1.len() > 0 {
        lemma_count_monotone(v1.drop_last(), v2.drop_last());
    }
}

proof fn lemma_count_true_set(v: Seq<bool>, i: int)
    requires
        0 <= i < v.len(),
        !v[i],
    ensures
        count_true(v.update(i, true)) == count_true(v) + 1,
    decreases v.len(),
{
    let u = v.update(i, true);
    if i < v.len() - 1 {
        assert(u.drop_last() =~= v.drop_last().update(i, true));
        lemma_count_true_set(v.drop_last(), i);
    } else {
        assert(u.drop_last() =~= v.drop_last());
    }
}

proof fn lemma_count_true_all(n: nat)
    ensures
        count_true(Seq::new(n, |i: int| false)) == 0,
    decreases n,
{
    if n > 0 {
        assert(Seq::new(n, |i: int| false).drop_last() =~= Seq::new((n - 1) as nat, |i: int| false));
        lemma_count_true_all((n - 1) as nat);
    }
}

/// The DFS bookkeeping: `visited` flags exactly the records already laid out.
pub open spec fn consistent(n: nat, visited: Seq<bool>, entries: Seq<(usize, usize)>) -> bool {
    &&& visited.len() == n
    &&& count_true(visited) == entries.len()
    &&& forall|k: int| 0 <= k < entries.len() ==> (#[trigger] entries[k]).0 < n && visited[entries[k].0 as int]
    &&& forall|a: int, b: int| 0 <= a < b < entries.len() ==> entries[a].0 != entries[b].0
    &&& forall|i: int| 0 <= i < n && #[trigger] visited[i] ==> laid_out(entries, i)
}

/// Record `i` has an entry in the layout.
pub open spec fn laid_out(entries: Seq<(usize, usize)>, i: int) -> bool {
    exists|k: int| 0 <= k < entries.len() && entries[k].0 == i
}

/// `children[p]` lists every record issued by `p`.
pub open spec fn children_complete(records: Seq<CertificateRecord>, children: Seq<Vec<usize>>) -> bool {
    forall|c: int, p: int|
        0 <= c < records.len() && 0 <= p < children.len() && #[trigger] issued_by(records, c, p)
            ==> children[p]@.contains(c as usize)
}

/// `children[p]` lists its records in display order.
#[verifier::opaque]
pub open spec fn children_sorted(records: Seq<CertificateRecord>, children: Seq<Vec<usize>>) -> bool {
    forall|p: int, x: int, y: int|
        0 <= p < children.len() && 0 <= x < y < children[p]@.len() ==> display_order(
            records,
            #[trigger] children[p]@[x] as int,
            #[trigger] children[p]@[y] as int,
        )
}

/// Entries at one depth below the top with no shallower entry between them are siblings
/// beneath one issuer; they come in display order.
#[verifier::opaque]
pub open spec fn siblings_ordered(records: Seq<CertificateRecord>, e: Seq<(usize, usize)>) -> bool {
    forall|m1: int, m2: int|
        #![trigger e[m1], e[m2]]
        0 <= m1 < m2 < e.len() && e[m1].1 > 0 && e[m1].1 == e[m2].1 && (forall|m: int|
            m1 < m < m2 ==> #[trigger] e[m].1 >= e[m1].1) ==> display_order(
            records,
            e[m1].0 as int,
            e[m2].0 as int,
        )
}

/// The top level holds first the records whose issuer does not resolve, in display order,
/// and then records reached only through an issuer cycle, in index order, each once every
/// record of a lower index is laid out.
#[verifier::opaque]
pub open spec fn top_ordered(records: Seq<CertificateRecord>, e: Seq<(usize, usize)>) -> bool {
    &&& forall|m1: int, m2: int|
        #![trigger e[m1], e[m2]]
        0 <= m1 < m2 < e.len() && e[m1].1 == 0 && e[m2].1 == 0 && !resolves(records, e[m2].0 as int)
            ==> !resolves(records, e[m1].0 as int) && display_order(records, e[m1].0 as int, e[m2].0 as int)
    &&& forall|m1: int, m2: int|
        #![trigger e[m1], e[m2]]
        0 <= m1 < m2 < e.len() && e[m1].1 == 0 && e[m2].1 == 0 && resolves(records, e[m1].0 as int)
            ==> e[m1].0 < e[m2].0
    &&& forall|m: int, i: int|
        #![trigger e[m], laid_out(e.take(m), i)]
        0 <= m < e.len() && e[m].1 == 0 && resolves(records, e[m].0 as int) && 0 <= i < e[m].0
            ==> laid_out(e.take(m), i)
}

/// Every earlier entry at `depth` (below the top) with no shallower entry after it comes
/// before record `index` in display order.
#[verifier::opaque]
pub open spec fn sibling_start_ok(
    records: Seq<CertificateRecord>,
    e: Seq<(usize, usize)>,
    depth: nat,
    index: int,
) -> bool {
    depth > 0 ==> forall|m1: int|
        0 <= m1 < e.len() && e[m1].1 == depth && (forall|m: int|
            m1 < m < e.len() ==> #[trigger] e[m].1 >= depth) ==> display_order(
            records,
            #[trigger] e[m1].0 as int,
            index,
        )
}

/// The entries after `pos` one level below it are the records `list[y]` for `y < x`.
#[verifier::opaque]
pub open spec fn direct_from(
    e: Seq<(usize, usize)>,
    pos: int,
    depth: nat,
    list: Seq<usize>,
    x: int,
) -> bool {
    forall|m: int|
        pos < m < e.len() && #[trigger] e[m].1 == depth + 1 ==> exists|y: int|
            0 <= y < x && list[y] == e[m].0
}

proof fn lemma_siblings_push(
    records: Seq<CertificateRecord>,
    e0: Seq<(usize, usize)>,
    index: usize,
    depth: usize,
)
    requires
        siblings_ordered(records, e0),
        sibling_start_ok(records, e0, depth as nat, index as int),
    ensures
        siblings_ordered(records, e0.push((index, depth))),
{
    reveal(siblings_ordered);
    reveal(sibling_start_ok);
    let e1 = e0.push((index, depth));
    let pos = e0.len() as int;
    assert forall|m1: int, m2: int|
        #![trigger e1[m1], e1[m2]]
        0 <= m1 < m2 < e1.len() && e1[m1].1 > 0 && e1[m1].1 == e1[m2].1 && (forall|m: int|
            m1 < m < m2 ==> #[trigger] e1[m].1 >= e1[m1].1) implies display_order(
        records,
        e1[m1].0 as int,
        e1[m2].0 as int,
    ) by {
        assert(e1[m1] == e0[m1]);
        if m2 < pos {
            assert(e1[m2] == e0[m2]);
            assert forall|m: int| m1 < m < m2 implies #[trigger] e0[m].1 >= e0[m1].1 by {
                assert(e1[m] == e0[m]);
            }
        } else {
            assert forall|m: int| m1 < m < e0.len() implies #[trigger] e0[m].1 >= depth by {
                assert(e1[m] == e0[m]);
            }
        }
    }
}

proof fn lemma_child_start_ok(
    records: Seq<CertificateRecord>,
    children: Seq<Vec<usize>>,
    e: Seq<(usize, usize)>,
    pos: int,
    index: int,
    depth: nat,
    x: int,
)
    requires
        children_sorted(records, children),
        0 <= index < children.len(),
        0 <= x < children[index]@.len(),
        0 <= pos < e.len(),
        e[pos].1 == depth,
        direct_from(e, pos, depth, children[index]@, x),
    ensures
        sibling_start_ok(records, e, depth + 1, children[index]@[x] as int),
{
    reveal(sibling_start_ok);
    reveal(direct_from);
    reveal(children_sorted);
    let list = children[index]@;
    assert forall|m1: int|
        0 <= m1 < e.len() && e[m1].1 == depth + 1 && (forall|m: int|
            m1 < m < e.len() ==> #[trigger] e[m].1 >= depth + 1) implies display_order(
        records,
        #[trigger] e[m1].0 as int,
        list[x] as int,
    ) by {
        if m1 < pos {
            assert(e[pos].1 >= depth + 1);
        } else if m1 > pos {
            let y = choose|y: int| 0 <= y < x && list[y] == e[m1].0;
            assert(display_order(records, list[y] as int, list[x] as int));
        }
    }
}

proof fn lemma_direct_extend(
    before: Seq<(usize, usize)>,
    after: Seq<(usize, usize)>,
    pos: int,
    depth: nat,
    list: Seq<usize>,
    x: int,
)
    requires
        direct_from(before, pos, depth, list, x),
        0 <= pos,
        0 <= x < list.len(),
        before.len() <= after.len(),
        before == after.take(before.len() as int),
        after.len() > before.len() ==> after[before.len() as int] == (list[x], (depth + 1) as usize)
            && forall|m: int| before.len() < m < after.len() ==> after[m].1 >= depth + 2,
    ensures
        direct_from(after, pos, depth, list, x + 1),
{
    reveal(direct_from);
    assert forall|m: int|
        pos < m < after.len() && #[trigger] after[m].1 == depth + 1 implies exists|y: int|
            0 <= y < x + 1 && list[y] == after[m].0 by {
        if m < before.len() {
            assert(after.take(before.len() as int)[m] == after[m]);
            assert(before[m] == after[m]);
            let y = choose|y: int| 0 <= y < x && list[y] == before[m].0;
            assert(list[y] == after[m].0);
        } else {
            assert(m == before.len());
            assert(list[x] == after[m].0);
        }
    }
}

/// Every top-level entry is one of the first `t` records of `ts`.
#[verifier::opaque]
pub open spec fn tops_from(e: Seq<(usize, usize)>, ts: Seq<usize>, t: int) -> bool {
    forall|m: int| 0 <= m < e.len() && #[trigger] e[m].1 == 0 ==> exists|y: int| 0 <= y < t && ts[y] == e[m].0
}

proof fn lemma_top_sorted_step(
    records: Seq<CertificateRecord>,
    before: Seq<(usize, usize)>,
    after: Seq<(usize, usize)>,
    ts: Seq<usize>,
    t: int,
)
    requires
        top_ordered(records, before),
        tops_from(before, ts, t),
        0 <= t < ts.len(),
        forall|x: int, y: int| 0 <= x < y < ts.len() ==> display_order(records, #[trigger] ts[x] as int, #[trigger] ts[y] as int),
        forall|m: int| 0 <= m < after.len() && after[m].1 == 0 ==> !resolves(records, after[m].0 as int),
        before.len() <= after.len(),
        before == after.take(before.len() as int),
        after.len() > before.len() ==> after[before.len() as int] == (ts[t], 0usize)
            && forall|m: int| before.len() < m < after.len() ==> after[m].1 >= 1,
    ensures
        top_ordered(records, after),
        tops_from(after, ts, t + 1),
{
    reveal(top_ordered);
    reveal(tops_from);
    let b = before.len() as int;
    assert forall|m: int| 0 <= m < b implies after[m] == before[m] by {
        assert(after.take(b)[m] == after[m]);
    }
    assert forall|m1: int, m2: int|
        #![trigger after[m1], after[m2]]
        0 <= m1 < m2 < after.len() && after[m1].1 == 0 && after[m2].1 == 0 && !resolves(records, after[m2].0 as int)
            implies !resolves(records, after[m1].0 as int) && display_order(records, after[m1].0 as int, after[m2].0 as int) by {
        if m2 >= b {
            assert(m2 == b);
            let y = choose|y: int| 0 <= y < t && ts[y] == before[m1].0;
            assert(display_order(records, ts[y] as int, ts[t] as int));
        }
    }
    assert forall|m: int| 0 <= m < after.len() && #[trigger] after[m].1 == 0 implies exists|y: int| 0 <= y < t + 1 && ts[y] == after[m].0 by {
        if m < b {
            let y = choose|y: int| 0 <= y < t && ts[y] == before[m].0;
            assert(ts[y] == after[m].0);
        } else {
            assert(m == b);
            assert(ts[t] == after[m].0);
        }
    }
    assert forall|m: int, i: int|
        #![trigger after[m], laid_out(after.take(m), i)]
        0 <= m < after.len() && after[m].1 == 0 && resolves(records, after[m].0 as int) && 0 <= i < after[m].0
            implies laid_out(after.take(m), i) by {
    }
}

proof fn lemma_top_cycle_step(
    records: Seq<CertificateRecord>,
    before: Seq<(usize, usize)>,
    after: Seq<(usize, usize)>,
    u: usize,
)
    requires
        top_ordered(records, before),
        forall|m: int| 0 <= m < before.len() && before[m].1 == 0 && resolves(records, before[m].0 as int) ==> before[m].0 < u,
        forall|i: int| 0 <= i < u ==> laid_out(before, i),
        resolves(records, u as int),
        before.len() <= after.len(),
        before == after.take(before.len() as int),
        after.len() > before.len() ==> after[before.len() as int] == (u, 0usize)
            && forall|m: int| before.len() < m < after.len() ==> after[m].1 >= 1,
    ensures
        top_ordered(records, after),
        forall|m: int| 0 <= m < after.len() && after[m].1 == 0 && resolves(records, after[m].0 as int) ==> after[m].0 < u + 1,
{
    reveal(top_ordered);
    let b = before.len() as int;
    assert forall|m: int| 0 <= m < b implies after[m] == before[m] by {
        assert(after.take(b)[m] == after[m]);
    }
    assert forall|m: int| 0 <= m <= b && m <= after.len() implies after.take(m) == before.take(m) by {
        assert(after.take(m) =~= before.take(m));
    }
    assert(after.take(b) =~= before);
    assert forall|m1: int, m2: int|
        #![trigger after[m1], after[m2]]
        0 <= m1 < m2 < after.len() && after[m1].1 == 0 && after[m2].1 == 0 && resolves(records, after[m1].0 as int)
            implies after[m1].0 < after[m2].0 by {
        if m2 >= b {
            assert(m2 == b);
        }
    }
    assert forall|m: int, i: int|
        #![trigger after[m], laid_out(after.take(m), i)]
        0 <= m < after.len() && after[m].1 == 0 && resolves(records, after[m].0 as int) && 0 <= i < after[m].0
            implies laid_out(after.take(m), i) by {
        if m >= b {
            assert(m == b);
            assert(laid_out(before, i));
        } else {
            assert(after.take(m) == before.take(m));
        }
    }
    assert forall|m1: int, m2: int|
        #![trigger after[m1], after[m2]]
        0 <= m1 < m2 < after.len() && after[m1].1 == 0 && after[m2].1 == 0 && !resolves(records, after[m2].0 as int)
            implies !resolves(records, after[m1].0 as int) && display_order(records, after[m1].0 as int, after[m2].0 as int) by {
        if m2 >= b {
            assert(m2 == b);
        }
    }
}

/// A record issued by an entry's record stands beneath that entry, unless it was laid out
/// before it.
#[verifier::opaque]
pub open spec fn children_beneath(records: Seq<CertificateRecord>, e: Seq<(usize, usize)>) -> bool {
    forall|j: int, k: int|
        0 <= j < e.len() && 0 <= k < e.len() && #[trigger] issued_by(records, e[k].0 as int, e[j].0 as int)
            ==> k < j || placed_under(records, e, k, j)
}

/// When a top-level entry is laid out, every record issued by an earlier entry's record is
/// already laid out.
#[verifier::opaque]
pub open spec fn starts_closed(records: Seq<CertificateRecord>, e: Seq<(usize, usize)>) -> bool {
    forall|k: int, j: int, c: int|
        0 <= j < k < e.len() && e[k].1 == 0 && 0 <= c < records.len() && #[trigger] issued_by(
            records,
            c,
            e[j].0 as int,
        ) ==> #[trigger] laid_out(e.take(k), c)
}

proof fn lemma_start_step(
    records: Seq<CertificateRecord>,
    before: Seq<(usize, usize)>,
    after: Seq<(usize, usize)>,
    visited: Seq<bool>,
)
    requires
        starts_closed(records, before),
        consistent(records.len() as nat, visited, before),
        forall|j: int| 0 <= j < before.len() ==> children_laid_out(records, before, visited, j),
        before.len() <= after.len(),
        before == after.take(before.len() as int),
        after.len() > before.len() ==> after[before.len() as int].1 == 0
            && forall|m: int| before.len() < m < after.len() ==> after[m].1 >= 1,
    ensures
        starts_closed(records, after),
{
    reveal(starts_closed);
    let b = before.len() as int;
    assert forall|m: int| 0 <= m < b implies after[m] == before[m] by {
        assert(after.take(b)[m] == after[m]);
    }
    assert forall|k: int, j: int, c: int|
        0 <= j < k < after.len() && after[k].1 == 0 && 0 <= c < records.len() && #[trigger] issued_by(
            records,
            c,
            after[j].0 as int,
        ) implies #[trigger] laid_out(after.take(k), c) by {
        if k < b {
            assert(after.take(k) =~= before.take(k));
        } else {
            assert(k == b);
            assert(children_laid_out(records, before, visited, j));
            assert(visited[c]);
            assert(laid_out(before, c));
            assert(after.take(k) =~= before);
        }
    }
}

proof fn lemma_children_beneath(records: Seq<CertificateRecord>, e: Seq<(usize, usize)>)
    requires
        starts_closed(records, e),
        well_placed(records, e),
        forall|a: int, b: int| 0 <= a < b < e.len() ==> e[a].0 != e[b].0,
        forall|k: int| 0 <= k < e.len() ==> (#[trigger] e[k]).0 < records.len(),
    ensures
        children_beneath(records, e),
{
    reveal(children_beneath);
    reveal(starts_closed);
    assert forall|j: int, k: int|
        0 <= j < e.len() && 0 <= k < e.len() && #[trigger] issued_by(records, e[k].0 as int, e[j].0 as int)
            implies k < j || placed_under(records, e, k, j) by {
        if k > j {
            if e[k].1 == 0 {
                assert(laid_out(e.take(k), e[k].0 as int));
                let k2 = choose|k2: int| 0 <= k2 < e.take(k).len() && e.take(k)[k2].0 == e[k].0;
                assert(e[k2].0 == e[k].0);
            } else {
                assert(well_placed_at(records, e, k));
                let j2 = choose|j2: int| placed_under(records, e, k, j2);
                lemma_issuer_unique(records, e[k].0 as int, e[j].0 as int, e[j2].0 as int);
            }
        } else if k == j {
            assert(records[e[k].0 as int].issuer@ != records[e[k].0 as int].subject@);
        }
    }
}

/// Every record issued by the record of entry `m` is laid out.
pub open spec fn children_laid_out(
    records: Seq<CertificateRecord>,
    entries: Seq<(usize, usize)>,
    visited: Seq<bool>,
    m: int,
) -> bool {
    forall|c: int| 0 <= c < records.len() && #[trigger] issued_by(records, c, entries[m].0 as int) ==> visited[c]
}

/// `children[p]` lists exactly records issued by `p`.
pub open spec fn children_valid(records: Seq<CertificateRecord>, children: Seq<Vec<usize>>) -> bool {
    &&& children.len() == records.len()
    &&& forall|p: int, x: int|
        0 <= p < children.len() && 0 <= x < children[p]@.len() ==> issued_by(
            records,
            #[trigger] children[p]@[x] as int,
            p,
        )
}

proof fn lemma_placed_under_extend(
    records: Seq<CertificateRecord>,
    e1: Seq<(usize, usize)>,
    e2: Seq<(usize, usize)>,
    k: int,
)
    requires
        e1.len() <= e2.len(),
        e1 == e2.take(e1.len() as int),
        0 <= k < e1.len(),
        well_placed_at(records, e1, k),
    ensures
        well_placed_at(records, e2, k),
{
    if e1[k].1 != 0 {
        let j = choose|j: int| placed_under(records, e1, k, j);
        assert(e2[k] == e1[k]);
        assert(e2[j] == e1[j]);
        assert forall|m: int| j < m < k implies e2[m].1 >= e2[k].1 by {
            assert(e2[m] == e1[m]);
        }
        assert(placed_under(records, e2, k, j));
    }
}

/// The records first laid out by a branch, from `before` to `after`, with the layout
/// `entries`: `index`, and records issued by one of them that is laid out earlier, so each
/// is reached from `index` through its issuers; and every record issued by one of them is
/// laid out too.
pub open spec fn reached_branch(
    records: Seq<CertificateRecord>,
    before: Seq<bool>,
    after: Seq<bool>,
    entries: Seq<(usize, usize)>,
    index: int,
) -> bool {
    &&& forall|i: int|
        0 <= i < records.len() && #[trigger] after[i] && !before[i] ==> i == index || exists|
            p: int,
            j: int,
            k: int,
        |
            0 <= p < records.len() && after[p] && !before[p] && issued_by(records, i, p) && 0 <= j < k
                < entries.len() && entries[j].0 == p && entries[k].0 == i
    &&& forall|p: int, c: int|
        0 <= p < records.len() && after[p] && !before[p] && #[trigger] issued_by(records, c, p)
            ==> after[c]
}

proof fn lemma_new_entry_position(
    n: nat,
    v0: Seq<bool>,
    e0: Seq<(usize, usize)>,
    v1: Seq<bool>,
    e1: Seq<(usize, usize)>,
    i: int,
) -> (k: int)
    requires
        consistent(n, v0, e0),
        consistent(n, v1, e1),
        e0.len() <= e1.len(),
        e0 == e1.take(e0.len() as int),
        0 <= i < n,
        v1[i],
        !v0[i],
    ensures
        e0.len() <= k < e1.len(),
        e1[k].0 == i,
{
    assert(laid_out(e1, i));
    let k = choose|k: int| 0 <= k < e1.len() && e1[k].0 == i;
    if k < e0.len() {
        assert(e1.take(e0.len() as int)[k] == e1[k]);
        assert(e0[k].0 == i);
        assert(v0[e0[k].0 as int]);
    }
    k
}

proof fn lemma_branch_reach(
    records: Seq<CertificateRecord>,
    v0: Seq<bool>,
    e0: Seq<(usize, usize)>,
    v1: Seq<bool>,
    e1: Seq<(usize, usize)>,
    index: int,
    depth: nat,
)
    requires
        consistent(records.len() as nat, v0, e0),
        consistent(records.len() as nat, v1, e1),
        e0.len() < e1.len(),
        e0 == e1.take(e0.len() as int),
        well_placed(records, e1),
        e1[e0.len() as int].0 == index,
        e1[e0.len() as int].1 == depth,
        forall|m: int| e0.len() < m < e1.len() ==> e1[m].1 >= depth + 1,
        forall|m: int| e0.len() <= m < e1.len() ==> children_laid_out(records, e1, v1, m),
    ensures
        reached_branch(records, v0, v1, e1, index),
{
    let n = records.len() as nat;
    let pos = e0.len() as int;
    assert forall|i: int|
        0 <= i < records.len() && #[trigger] v1[i] && !v0[i] implies i == index || exists|
            p: int,
            j: int,
            k: int,
        |
            0 <= p < records.len() && v1[p] && !v0[p] && issued_by(records, i, p) && 0 <= j < k
                < e1.len() && e1[j].0 == p && e1[k].0 == i by {
        let k = lemma_new_entry_position(n, v0, e0, v1, e1, i);
        if k != pos {
            assert(well_placed_at(records, e1, k));
            let j = choose|j: int| placed_under(records, e1, k, j);
            if j < pos {
                assert(e1[pos].1 >= e1[k].1);
            }
            let p = e1[j].0 as int;
            assert(v1[p]);
            if v0[p] {
                assert(laid_out(e0, p));
                let k2 = choose|k2: int| 0 <= k2 < e0.len() && e0[k2].0 == p;
                assert(e1.take(pos)[k2] == e1[k2]);
                assert(e1[k2].0 == e1[j].0);
            }
            assert(issued_by(records, i, p));
        }
    }
    assert forall|p: int, c: int|
        0 <= p < records.len() && v1[p] && !v0[p] && #[trigger] issued_by(records, c, p) implies v1[c] by {
        let k = lemma_new_entry_position(n, v0, e0, v1, e1, p);
        assert(children_laid_out(records, e1, v1, k));
    }
}

/// Lays out record `index` at `depth` and then, one level deeper, each of its
/// children that is not laid out yet; a record already laid out is skipped. One line is
/// added per record first laid out, and those records are `index` and the records below it
/// that were not laid out yet (`reached_branch`).
pub fn render_record_branch(
    index: usize,
    depth: usize,
    records: &[CertificateRecord],
    children: &Vec<Vec<usize>>,
    visited: &mut Vec<bool>,
    entries: &mut Vec<(usize, usize)>,
)
    requires
        index < records@.len(),
        depth <= count_true(old(visited)@),
        children_valid(records@, children@),
        children_complete(records@, children@),
        children_sorted(records@, children@),
        consistent(records@.len() as nat, old(visited)@, old(entries)@),
        well_placed(records@, old(entries)@),
        siblings_ordered(records@, old(entries)@),
        sibling_start_ok(records@, old(entries)@, depth as nat, index as int),
        depth > 0 ==> exists|j: int|
            0 <= j < old(entries)@.len() && old(entries)@[j].1 + 1 == depth && issued_by(
                records@,
                index as int,
                old(entries)@[j].0 as int,
            ) && forall|m: int| j < m < old(entries)@.len() ==> old(entries)@[m].1 >= depth,
    ensures
        consistent(records@.len() as nat, final(visited)@, final(entries)@),
        well_placed(records@, final(entries)@),
        siblings_ordered(records@, final(entries)@),
        old(entries)@.len() <= final(entries)@.len(),
        old(entries)@ == final(entries)@.take(old(entries)@.len() as int),
        forall|m: int|
            old(entries)@.len() <= m < final(entries)@.len() ==> final(entries)@[m].1 >= depth,
        forall|i: int| 0 <= i < records@.len() && old(visited)@[i] ==> final(visited)@[i],
        final(visited)@[index as int],
        old(visited)@[index as int] ==> final(entries)@ == old(entries)@ && final(visited)@ == old(
            visited,
        )@,
        !old(visited)@[index as int] ==> final(entries)@.len() > old(entries)@.len()
            && final(entries)@[old(entries)@.len() as int] == (index, depth) && forall|m: int|
            old(entries)@.len() < m < final(entries)@.len() ==> final(entries)@[m].1 >= depth + 1,
        forall|m: int|
            old(entries)@.len() <= m < final(entries)@.len() ==> children_laid_out(
                records@,
                final(entries)@,
                final(visited)@,
                m,
            ),
        final(entries)@.len() - old(entries)@.len() == count_true(final(visited)@) - count_true(
            old(visited)@,
        ),
        !old(visited)@[index as int] ==> reached_branch(
            records@,
            old(visited)@,
            final(visited)@,
            final(entries)@,
            index as int,
        ),
    decreases records@.len() - count_true(old(visited)@),
{
    let ghost n = records@.len() as nat;
    let total = records.len();
    if visited[index] {
        return;
    }
    let ghost e0 = entries@;
    let ghost v0 = visited@;
    proof {
        lemma_count_true_bound(visited@);
        lemma_count_true_set(visited@, index as int);
        lemma_count_true_bound(visited@.update(index as int, true));
    }
    visited.set(index, true);
    entries.push((index, depth));
    let ghost pos = e0.len() as int;
    proof {
        let e1 = entries@;
        assert(e1.take(pos) =~= e0);
        assert forall|k: int| 0 <= k < e1.len() implies well_placed_at(records@, e1, k) by {
            if k < pos {
                lemma_placed_under_extend(records@, e0, e1, k);
            } else if depth > 0 {
                let j = choose|j: int|
                    0 <= j < e0.len() && e0[j].1 + 1 == depth && issued_by(
                        records@,
                        index as int,
                        e0[j].0 as int,
                    ) && forall|m: int| j < m < e0.len() ==> e0[m].1 >= depth;
                assert(placed_under(records@, e1, k, j));
            }
        }
        assert forall|a: int, b: int| 0 <= a < b < e1.len() implies e1[a].0 != e1[b].0 by {
            if b == pos {
                assert(visited@[e0[a].0 as int]);
            }
        }
        assert forall|i: int| 0 <= i < n && #[trigger] visited@[i] implies laid_out(e1, i) by {
            if i == index {
                assert(e1[pos].0 == i);
            } else {
                assert(v0[i]);
                let k = choose|k: int| 0 <= k < e0.len() && e0[k].0 == i;
                assert(e1[k] == e0[k]);
            }
        }
        lemma_siblings_push(records@, e0, index, depth);
        assert(e1 =~= e0.push((index, depth)));
        reveal(direct_from);
    }
    let list = &children[index];
    let mut x: usize = 0;
    while x < list.len()
        invariant
            index < records@.len(),
            depth <= count_true(old(visited)@),
            children_valid(records@, children@),
            children_complete(records@, children@),
            list@ == children@[index as int]@,
            x <= list@.len(),
            n == records@.len(),
            total == records@.len(),
            0 <= pos,
            consistent(n, visited@, entries@),
            well_placed(records@, entries@),
            pos < entries@.len(),
            entries@[pos] == (index, depth),
            e0 == entries@.take(pos),
            forall|m: int| pos < m < entries@.len() ==> entries@[m].1 >= depth + 1,
            forall|i: int| 0 <= i < records@.len() && old(visited)@[i] ==> visited@[i],
            visited@[index as int],
            count_true(old(visited)@) < count_true(visited@),
            forall|y: int| 0 <= y < x ==> visited@[#[trigger] list@[y] as int],
            forall|m: int|
                pos < m < entries@.len() ==> children_laid_out(records@, entries@, visited@, m),
            children_sorted(records@, children@),
            siblings_ordered(records@, entries@),
            direct_from(entries@, pos, depth as nat, list@, x as int),
        decreases list.len() - x,
    {
        let child = list[x];
        assert(issued_by(records@, child as int, index as int));
        let ghost before = entries@;
        let ghost vbefore = visited@;
        proof {
            assert(before[pos].0 == index);
            assert(before[pos].1 == depth);
            assert(0 <= pos < before.len());
            assert(forall|m: int| pos < m < before.len() ==> before[m].1 >= before[pos].1 + 1);
            lemma_count_true_bound(visited@);
            assert(child < records@.len());
            lemma_child_start_ok(records@, children@, before, pos, index as int, depth as nat, x as int);
        }
        render_record_branch(child, depth + 1, records, children, visited, entries);
        proof {
            assert(before == entries@.take(before.len() as int));
            assert forall|m: int| 0 <= m < before.len() implies entries@[m] == before[m] by {
                assert(entries@.take(before.len() as int)[m] == entries@[m]);
            }
            assert(entries@.take(pos) =~= before.take(pos));
            assert(entries@[pos] == before[pos]);
            assert forall|m: int| pos < m < entries@.len() implies entries@[m].1 >= depth + 1 by {
                if m < before.len() {
                    assert(entries@[m] == before[m]);
                }
            }
            assert forall|m: int| pos < m < entries@.len() implies children_laid_out(
                records@,
                entries@,
                visited@,
                m,
            ) by {
                if m < before.len() {
                    assert(entries@[m] == before[m]);
                    assert(children_laid_out(records@, before, vbefore, m));
                    assert forall|c: int|
                        0 <= c < records@.len() && #[trigger] issued_by(
                            records@,
                            c,
                            entries@[m].0 as int,
                        ) implies visited@[c] by {
                        assert(vbefore[c]);
                    }
                }
            }
            assert forall|y: int| 0 <= y < x + 1 implies visited@[#[trigger] list@[y] as int] by {
                if y < x {
                    assert(vbefore[list@[y] as int]);
                }
            }
            lemma_direct_extend(before, entries@, pos, depth as nat, list@, x as int);
            lemma_count_monotone(vbefore, visited@);
        }
        x = x + 1;
    }
    proof {
        assert forall|c: int|
            0 <= c < records@.len() && #[trigger] issued_by(
                records@,
                c,
                entries@[pos].0 as int,
            ) implies visited@[c] by {
            assert(entries@[pos].0 == index);
            assert(issued_by(records@, c, index as int));
            assert(children@.len() == records@.len());
            assert(children@[index as int]@.contains(c as usize));
            let y = choose|y: int| 0 <= y < list@.len() && list@[y] == c as usize;
            assert(visited@[list@[y] as int]);
        }
        assert(children_laid_out(records@, entries@, visited@, pos));
        lemma_branch_reach(records@, v0, e0, visited@, entries@, index as int, depth as nat);
    }
}

/// The sort key of a record in the hierarchy: profile, kind, name, common name, path.
pub open spec fn display_key(record: CertificateRecord) -> Seq<Seq<char>> {
    seq![
        text_or(record.profile, Seq::empty()),
        record.kind@,
        text_or(record.name, Seq::empty()),
        record.common_name@,
        record.path@,
    ]
}

fn text_of_option(value: &Option<String>) -> (r: String)
    ensures
        r@ == text_or(*value, Seq::empty()),
{
    match value {
        Some(v) => v.clone(),
        None => String::new(),
    }
}

/// The sort key of a record in the hierarchy: profile, kind, name, common name and path,
/// with an absent profile or name as empty text.
pub fn display_sort_key(record: &CertificateRecord) -> (r: Vec<String>)
    ensures
        r.deep_view() == display_key(*record),
{
    let r = vec![
        text_of_option(&record.profile),
        record.kind.clone(),
        text_of_option(&record.name),
        record.common_name.clone(),
        record.path.clone(),
    ];
    assert(r.deep_view() =~= display_key(*record));
    r
}

/// Record `a` comes before record `b` in display order: by display key, and by index where
/// the keys are equal.
pub open spec fn display_order(records: Seq<CertificateRecord>, a: int, b: int) -> bool {
    &&& !key_less(display_key(records[b]), display_key(records[a]))
    &&& (display_key(records[a]) == display_key(records[b]) ==> a < b)
}

/// `list` reordered by the display keys of the records it names (stable).
fn sort_by_display_key(records: &[CertificateRecord], list: &Vec<usize>) -> (r: Vec<usize>)
    requires
        forall|x: int| 0 <= x < list@.len() ==> list@[x] < records@.len(),
        forall|x: int, y: int| 0 <= x < y < list@.len() ==> list@[x] < list@[y],
    ensures
        r@.len() == list@.len(),
        forall|x: int| 0 <= x < r@.len() ==> list@.contains(#[trigger] r@[x]),
        forall|x: int| 0 <= x < list@.len() ==> r@.contains(#[trigger] list@[x]),
        forall|x: int, y: int|
            0 <= x < y < r@.len() ==> display_order(records@, #[trigger] r@[x] as int, #[trigger] r@[y] as int),
{
    let mut keys: Vec<Vec<String>> = Vec::new();
    let mut i: usize = 0;
    while i < list.len()
        invariant
            i <= list@.len(),
            keys@.len() == i,
            forall|x: int| 0 <= x < list@.len() ==> list@[x] < records@.len(),
            forall|x: int| 0 <= x < i ==> keys.deep_view()[x] == display_key(records@[#[trigger] list@[x] as int]),
        decreases list.len() - i,
    {
        let ghost before = keys.deep_view();
        keys.push(display_sort_key(&records[list[i]]));
        assert(keys.deep_view() =~= before.push(display_key(records@[list@[i as int] as int])));
        i = i + 1;
    }
    let ghost kv = keys.deep_view();
    let order = sort_by_keys(&keys);
    let mut r: Vec<usize> = Vec::new();
    let mut k: usize = 0;
    while k < order.len()
        invariant
            k <= order@.len(),
            keys@.len() == list@.len(),
            is_permutation(order@, keys@.len() as nat),
            r@.len() == k,
            forall|x: int| 0 <= x < k ==> r@[x] == list@[order@[x] as int],
        decreases order.len() - k,
    {
        r.push(list[order[k]]);
        k = k + 1;
    }
    assert forall|x: int| 0 <= x < r@.len() implies list@.contains(#[trigger] r@[x]) by {
        assert(list@[order@[x] as int] == r@[x]);
    }
    assert forall|x: int| 0 <= x < list@.len() implies r@.contains(#[trigger] list@[x]) by {
        lemma_permutation_covers(order@, list@.len() as nat, x as usize);
        let y = choose|y: int| 0 <= y < order@.len() && order@[y] == x as usize;
        assert(r@[y] == list@[x]);
    }
    assert forall|x: int, y: int| 0 <= x < y < r@.len() implies display_order(
        records@,
        #[trigger] r@[x] as int,
        #[trigger] r@[y] as int,
    ) by {
        let ox = order@[x] as int;
        let oy = order@[y] as int;
        assert(kv[ox] == display_key(records@[list@[ox] as int]));
        assert(kv[oy] == display_key(records@[list@[oy] as int]));
        assert(!key_less(kv[oy], kv[ox]));
        if kv[ox] == kv[oy] {
            assert(ox < oy);
        }
    }
    r
}

/// The record that `records[c]` hangs beneath, if its issuer names exactly one record.
fn unique_issuer(records: &[CertificateRecord], c: usize) -> (r: Option<usize>)
    requires
        c < records@.len(),
    ensures
        match r {
            Some(p) => issued_by(records@, c as int, p as int),
            None => !resolves(records@, c as int),
        },
{
    let record = &records[c];
    if text_eq(record.issuer.as_str(), record.subject.as_str()) {
        return None;
    }
    let mut found: Option<usize> = None;
    let mut count: usize = 0;
    let mut j: usize = 0;
    while j < records.len()
        invariant
            c < records@.len(),
            j <= records@.len(),
            count <= j,
            count == 0 <==> found is None,
            forall|k: int| 0 <= k < j && records@[k].subject@ == records@[c as int].issuer@ ==> (
            found == Some(k as usize) || count >= 2),
            found matches Some(f) ==> f < j && records@[f as int].subject@
                == records@[c as int].issuer@,
            count == 1 ==> forall|k: int|
                0 <= k < j && records@[k].subject@ == records@[c as int].issuer@ ==> found
                    == Some(k as usize),
            count >= 2 ==> exists|a: int, b: int|
                0 <= a < b < j && records@[a].subject@ == records@[c as int].issuer@
                    && records@[b].subject@ == records@[c as int].issuer@,
        decreases records.len() - j,
    {
        if text_eq(records[j].subject.as_str(), records[c].issuer.as_str()) {
            if count == 0 {
                found = Some(j);
                count = 1;
            } else {
                if count == 1 {
                    let f = found.unwrap();
                    assert(0 <= f < j);
                }
                count = 2;
            }
        }
        j = j + 1;
    }
    if count == 1 {
        found
    } else {
        proof {
            if count >= 2 {
                let (a, b) = choose|a: int, b: int|
                    0 <= a < b < records@.len() && records@[a].subject@
                        == records@[c as int].issuer@ && records@[b].subject@
                        == records@[c as int].issuer@;
                assert forall|p: int| !issued_by(records@, c as int, p) by {
                    if issued_by(records@, c as int, p) {
                        if p != a {
                            assert(records@[a].subject@ != records@[c as int].issuer@);
                        } else {
                            assert(records@[b].subject@ != records@[c as int].issuer@);
                        }
                    }
                }
            }
        }
        None
    }
}

/// The display line of one record at a depth.
pub fn record_line(record: &CertificateRecord, depth: usize) -> (r: String)
    ensures
        r@ == tree_line(*record, depth as nat),
{
    let mut r = String::new();
    let mut i: usize = 0;
    while i < depth
        invariant
            i <= depth,
            r@ == spaces(2 * i as nat),
        decreases depth - i,
    {
        push_char(&mut r, ' ');
        push_char(&mut r, ' ');
        i = i + 1;
        assert(r@ =~= spaces(2 * i as nat));
    }
    match &record.name {
        Some(name) => r.append(name.as_str()),
        None => r.append("<unnamed>"),
    }
    r.append(" (");
    r.append(record.kind.as_str());
    r.append(") — ");
    r.append(record.common_name.as_str());
    r.append(" [");
    r.append(record.algorithm.as_str());
    r.append("] — expires ");
    r.append(record.expires.as_str());
    r
}

/// The record that `records[c]` hangs beneath, where its issuer resolves.
pub open spec fn issuer_of(records: Seq<CertificateRecord>, c: int) -> int {
    choose|p: int| issued_by(records, c, p)
}

/// Following issuers from record `c`, within `fuel` steps, reaches a record whose issuer
/// does not resolve (a self-issued record, or one whose issuer names no single record).
pub open spec fn rooted(records: Seq<CertificateRecord>, c: int, fuel: nat) -> bool
    decreases fuel,
{
    if !resolves(records, c) {
        true
    } else if fuel == 0 {
        false
    } else {
        rooted(records, issuer_of(records, c), (fuel - 1) as nat)
    }
}

/// Every record whose chain of issuers reaches a top record is indented (and so, by
/// `well_placed`, stands beneath its issuer); only records on an issuer cycle that resolve
/// can stand at the top level.
pub open spec fn indented(records: Seq<CertificateRecord>, entries: Seq<(usize, usize)>) -> bool {
    forall|k: int|
        0 <= k < entries.len() && resolves(records, entries[k].0 as int) && rooted(
            records,
            #[trigger] entries[k].0 as int,
            records.len() as nat,
        ) ==> entries[k].1 > 0
}

proof fn lemma_issuer_unique(records: Seq<CertificateRecord>, c: int, p: int, q: int)
    requires
        issued_by(records, c, p),
        issued_by(records, c, q),
    ensures
        p == q,
{
    if p != q {
        assert(records[q].subject@ == records[c].issuer@);
    }
}

proof fn lemma_rooted_laid_out(
    records: Seq<CertificateRecord>,
    entries: Seq<(usize, usize)>,
    visited: Seq<bool>,
    c: int,
    fuel: nat,
)
    requires
        0 <= c < records.len(),
        consistent(records.len() as nat, visited, entries),
        forall|i: int| 0 <= i < records.len() && !resolves(records, i) ==> visited[i],
        forall|k: int| 0 <= k < entries.len() ==> children_laid_out(records, entries, visited, k),
        rooted(records, c, fuel),
    ensures
        visited[c],
    decreases fuel,
{
    if resolves(records, c) {
        let p = issuer_of(records, c);
        assert(issued_by(records, c, p));
        lemma_rooted_laid_out(records, entries, visited, p, (fuel - 1) as nat);
        assert(laid_out(entries, p));
        let k = choose|k: int| 0 <= k < entries.len() && entries[k].0 == p;
        assert(children_laid_out(records, entries, visited, k));
        assert(issued_by(records, c, entries[k].0 as int));
    }
}

/// The text of the hierarchy of the records: the lines of a layout that holds each record
/// once, each beneath its issuer where its chain of issuers reaches a top record, records
/// beneath one issuer and top records in display order, and cycle records after them.
pub open spec fn tree_text(records: Seq<CertificateRecord>, text: Seq<char>) -> bool {
    exists|entries: Seq<(usize, usize)>|
        #![trigger tree_lines(records, entries)]
        tree_layout(records, entries) && indented(records, entries) && siblings_ordered(
            records,
            entries,
        ) && top_ordered(records, entries) && children_beneath(records, entries) && text == joined(
            tree_lines(records, entries),
            "\n"@,
        )
}

/// Renders every certificate as an issuer/subject hierarchy: one line per record, each
/// record indented two spaces per level beneath its issuer. Self-issued records and records
/// whose issuer does not name exactly one record stand at the top level, as do records
/// reached only through a cycle, so no record is hidden or repeated. Records beneath one
/// issuer, and the top-level records, come in display order (profile, kind, name, common
/// name, path); records reached only through a cycle follow at the top level by index.
pub fn render_tree(records: &[CertificateRecord]) -> (r: String)
    ensures
        tree_text(records@, r@),
{
    let n = records.len();
    // the issuer of each record, where it names exactly one record
    let mut parent: Vec<Option<usize>> = Vec::new();
    let mut i: usize = 0;
    while i < n
        invariant
            n == records@.len(),
            i <= n,
            parent@.len() == i,
            forall|c: int| 0 <= c < i ==> match #[trigger] parent@[c] {
                Some(p) => issued_by(records@, c, p as int),
                None => !resolves(records@, c),
            },
        decreases n - i,
    {
        parent.push(unique_issuer(records, i));
        i = i + 1;
    }
    let mut top_level: Vec<usize> = Vec::new();
    let mut children: Vec<Vec<usize>> = Vec::new();
    let mut p: usize = 0;
    while p < n
        invariant
            n == records@.len(),
            p <= n,
            parent@.len() == n,
            forall|c: int| 0 <= c < n ==> match #[trigger] parent@[c] {
                Some(q) => issued_by(records@, c, q as int),
                None => !resolves(records@, c),
            },
            children@.len() == p,
            forall|q: int, x: int|
                0 <= q < p && 0 <= x < children@[q]@.len() ==> issued_by(
                    records@,
                    #[trigger] children@[q]@[x] as int,
                    q,
                ),
            forall|c: int, q: int|
                0 <= c < n && 0 <= q < p && #[trigger] issued_by(records@, c, q)
                    ==> children@[q]@.contains(c as usize),
            forall|x: int| 0 <= x < top_level@.len() ==> top_level@[x] < n,
            forall|x: int, y: int| 0 <= x < y < top_level@.len() ==> top_level@[x] < top_level@[y],
            p == 0 ==> top_level@.len() == 0,
            forall|x: int|
                0 <= x < top_level@.len() ==> !resolves(records@, #[trigger] top_level@[x] as int),
            p > 0 ==> forall|c: int| 0 <= c < n && !resolves(records@, c) ==> top_level@.contains(c as usize),
            forall|q: int, x: int, y: int|
                0 <= q < p && 0 <= x < y < children@[q]@.len() ==> display_order(
                    records@,
                    #[trigger] children@[q]@[x] as int,
                    #[trigger] children@[q]@[y] as int,
                ),
        decreases n - p,
    {
        let mut list: Vec<usize> = Vec::new();
        let mut c: usize = 0;
        while c < n
            invariant
                n == records@.len(),
                p < n,
                c <= n,
                parent@.len() == n,
                forall|c: int| 0 <= c < n ==> match #[trigger] parent@[c] {
                    Some(q) => issued_by(records@, c, q as int),
                    None => !resolves(records@, c),
                },
                forall|x: int| 0 <= x < list@.len() ==> issued_by(records@, #[trigger] list@[x] as int, p as int),
                forall|d: int| 0 <= d < c && parent@[d] == Some(p) ==> list@.contains(d as usize),
                forall|x: int| 0 <= x < top_level@.len() ==> top_level@[x] < n,
                forall|x: int, y: int| 0 <= x < y < top_level@.len() ==> top_level@[x] < top_level@[y],
                p == 0 ==> forall|x: int| 0 <= x < top_level@.len() ==> top_level@[x] < c,
                forall|x: int, y: int| 0 <= x < y < list@.len() ==> list@[x] < list@[y],
                forall|x: int| 0 <= x < list@.len() ==> list@[x] < c,
                forall|x: int|
                    0 <= x < top_level@.len() ==> !resolves(records@, #[trigger] top_level@[x] as int),
                p == 0 ==> forall|d: int| 0 <= d < c && parent@[d] is None ==> top_level@.contains(d as usize),
                p > 0 ==> forall|d: int| 0 <= d < n && !resolves(records@, d) ==> top_level@.contains(d as usize),
            decreases n - c,
        {
            let ghost list_before = list@;
            let ghost top_before = top_level@;
            match parent[c] {
                Some(q) => {
                    if q == p {
                        list.push(c);
                        assert(list@[list_before.len() as int] == c);
                    }
                },
                None => {
                    if p == 0 {
                        top_level.push(c);
                        assert(top_level@[top_before.len() as int] == c);
                    }
                },
            }
            assert forall|d: int| 0 <= d < c && parent@[d] == Some(p) implies list@.contains(d as usize) by {
                let y = choose|y: int| 0 <= y < list_before.len() && list_before[y] == d as usize;
                assert(list@[y] == list_before[y]);
            }
            assert forall|d: int| 0 <= d < n && p > 0 && !resolves(records@, d) implies top_level@.contains(d as usize) by {
                assert(top_before.contains(d as usize));
            }
            assert forall|d: int| 0 <= d < c && p == 0 && parent@[d] is None implies top_level@.contains(d as usize) by {
                let y = choose|y: int| 0 <= y < top_before.len() && top_before[y] == d as usize;
                assert(top_level@[y] == top_before[y]);
            }
            c = c + 1;
        }
        proof {
            assert forall|x: int| 0 <= x < list@.len() implies list@[x] < records@.len() by {
                assert(issued_by(records@, list@[x] as int, p as int));
            }
            assert forall|d: int| 0 <= d < n && !resolves(records@, d) implies top_level@.contains(d as usize) by {
                if p == 0 {
                    assert(parent@[d] is None) by {
                        if parent@[d] is Some {
                            assert(issued_by(records@, d, parent@[d]->0 as int));
                        }
                    }
                }
            }
        }
        let sorted = sort_by_display_key(records, &list);
        proof {
            assert forall|x: int| 0 <= x < sorted@.len() implies issued_by(
                records@,
                #[trigger] sorted@[x] as int,
                p as int,
            ) by {
                assert(list@.contains(sorted@[x]));
            }
            assert forall|d: int| 0 <= d < n && #[trigger] issued_by(records@, d, p as int)
                implies sorted@.contains(d as usize) by {
                let q = parent@[d]->0;
                assert(parent@[d] is Some);
                lemma_issuer_unique(records@, d, p as int, q as int);
                assert(list@.contains(d as usize));
                let y = choose|y: int| 0 <= y < list@.len() && list@[y] == d as usize;
                assert(sorted@.contains(list@[y]));
            }
        }
        let ghost before_children = children@;
        children.push(sorted);
        proof {
            assert forall|d: int, q: int|
                0 <= d < n && 0 <= q < p + 1 && #[trigger] issued_by(records@, d, q)
                    implies children@[q]@.contains(d as usize) by {
                if q < p {
                    assert(children@[q] == before_children[q]);
                }
            }
            assert forall|q: int, x: int, y: int|
                0 <= q < p + 1 && 0 <= x < y < children@[q]@.len() implies display_order(
                    records@,
                    #[trigger] children@[q]@[x] as int,
                    #[trigger] children@[q]@[y] as int,
                ) by {
                if q < p {
                    assert(children@[q] == before_children[q]);
                } else {
                    assert(children@[q]@ == sorted@);
                }
            }
        }
        p = p + 1;
    }
    let top_sorted = sort_by_display_key(records, &top_level);
    let mut visited: Vec<bool> = Vec::new();
    let mut v: usize = 0;
    while v < n
        invariant
            v <= n,
            visited@ == Seq::new(v as nat, |i: int| false),
        decreases n - v,
    {
        visited.push(false);
        v = v + 1;
        assert(visited@ =~= Seq::new(v as nat, |i: int| false));
    }
    let mut entries: Vec<(usize, usize)> = Vec::new();
    proof {
        lemma_count_true_all(n as nat);
        assert(children_valid(records@, children@));
        assert(children_complete(records@, children@));
        assert(children_sorted(records@, children@)) by {
            reveal(children_sorted);
        }
        assert(siblings_ordered(records@, entries@)) by {
            reveal(siblings_ordered);
        }
        assert(top_ordered(records@, entries@)) by {
            reveal(top_ordered);
        }
        assert(tops_from(entries@, top_sorted@, 0)) by {
            reveal(tops_from);
        }
        assert(starts_closed(records@, entries@)) by {
            reveal(starts_closed);
        }
    }
    let mut t: usize = 0;
    while t < top_sorted.len()
        invariant
            n == records@.len(),
            t <= top_sorted@.len(),
            forall|x: int| 0 <= x < top_sorted@.len() ==> top_level@.contains(#[trigger] top_sorted@[x]),
            forall|x: int| 0 <= x < top_level@.len() ==> top_sorted@.contains(#[trigger] top_level@[x]),
            forall|x: int| 0 <= x < top_level@.len() ==> top_level@[x] < n,
            forall|x: int|
                0 <= x < top_level@.len() ==> !resolves(records@, #[trigger] top_level@[x] as int),
            forall|d: int| 0 <= d < n && !resolves(records@, d) ==> top_level@.contains(d as usize),
            children_valid(records@, children@),
            children_complete(records@, children@),
            consistent(n as nat, visited@, entries@),
            well_placed(records@, entries@),
            forall|k: int| 0 <= k < entries@.len() && !resolves(records@, entries@[k].0 as int) ==> entries@[k].1 == 0,
            forall|k: int| 0 <= k < entries@.len() && entries@[k].1 == 0 ==> !resolves(records@, entries@[k].0 as int),
            forall|k: int| 0 <= k < entries@.len() ==> children_laid_out(records@, entries@, visited@, k),
            forall|y: int| 0 <= y < t ==> visited@[#[trigger] top_sorted@[y] as int],
            children_sorted(records@, children@),
            siblings_ordered(records@, entries@),
            top_ordered(records@, entries@),
            tops_from(entries@, top_sorted@, t as int),
            starts_closed(records@, entries@),
            forall|x: int, y: int|
                0 <= x < y < top_sorted@.len() ==> display_order(
                    records@,
                    #[trigger] top_sorted@[x] as int,
                    #[trigger] top_sorted@[y] as int,
                ),
        decreases top_sorted.len() - t,
    {
        let index = top_sorted[t];
        assert(top_level@.contains(index));
        let ghost before = entries@;
        let ghost vbefore = visited@;
        assert(sibling_start_ok(records@, entries@, 0, index as int)) by {
            reveal(sibling_start_ok);
        }
        render_record_branch(index, 0, records, &children, &mut visited, &mut entries);
        proof {
            lemma_unresolved_at_top(records@, before, entries@);
            assert forall|k: int| 0 <= k < entries@.len() && entries@[k].1 == 0 implies !resolves(
                records@,
                entries@[k].0 as int,
            ) by {
                if k < before.len() {
                    assert(entries@.take(before.len() as int)[k] == entries@[k]);
                } else {
                    assert(k == before.len());
                }
            }
            assert forall|k: int| 0 <= k < entries@.len() implies children_laid_out(
                records@,
                entries@,
                visited@,
                k,
            ) by {
                if k < before.len() {
                    assert(entries@.take(before.len() as int)[k] == entries@[k]);
                    assert(children_laid_out(records@, before, vbefore, k));
                    assert forall|c: int|
                        0 <= c < records@.len() && #[trigger] issued_by(
                            records@,
                            c,
                            entries@[k].0 as int,
                        ) implies visited@[c] by {
                        assert(vbefore[c]);
                    }
                }
            }
            assert forall|y: int| 0 <= y < t + 1 implies visited@[#[trigger] top_sorted@[y] as int] by {
                if y < t {
                    assert(vbefore[top_sorted@[y] as int]);
                }
            }
            lemma_top_sorted_step(records@, before, entries@, top_sorted@, t as int);
            lemma_start_step(records@, before, entries@, vbefore);
        }
        t = t + 1;
    }
    let ghost first = entries@;
    let ghost v1 = visited@;
    proof {
        assert forall|d: int| 0 <= d < n && !resolves(records@, d) implies v1[d] by {
            assert(top_level@.contains(d as usize));
            let x = choose|x: int| 0 <= x < top_level@.len() && top_level@[x] == d as usize;
            assert(top_sorted@.contains(top_level@[x]));
            let y = choose|y: int| 0 <= y < top_sorted@.len() && top_sorted@[y] == top_level@[x];
            assert(v1[top_sorted@[y] as int]);
        }
        assert forall|d: int| 0 <= d < n && rooted(records@, d, n as nat) implies v1[d] by {
            lemma_rooted_laid_out(records@, first, v1, d, n as nat);
        }
        assert forall|m: int| 0 <= m < first.len() && first[m].1 == 0 implies !resolves(
            records@,
            first[m].0 as int,
        ) by {}
    }
    let mut u: usize = 0;
    while u < n
        invariant
            n == records@.len(),
            u <= n,
            children_valid(records@, children@),
            children_complete(records@, children@),
            consistent(n as nat, visited@, entries@),
            well_placed(records@, entries@),
            forall|k: int| 0 <= k < entries@.len() && !resolves(records@, entries@[k].0 as int) ==> entries@[k].1 == 0,
            forall|i: int| 0 <= i < u ==> visited@[i],
            first.len() <= entries@.len(),
            first == entries@.take(first.len() as int),
            children_sorted(records@, children@),
            siblings_ordered(records@, entries@),
            top_ordered(records@, entries@),
            forall|d: int| 0 <= d < n && !resolves(records@, d) ==> visited@[d],
            forall|m: int|
                0 <= m < entries@.len() && entries@[m].1 == 0 && resolves(records@, entries@[m].0 as int)
                    ==> entries@[m].0 < u,
            starts_closed(records@, entries@),
            forall|k: int| 0 <= k < entries@.len() ==> children_laid_out(records@, entries@, visited@, k),
        decreases n - u,
    {
        if !visited[u] {
            let ghost before = entries@;
            let ghost vbefore = visited@;
            assert(sibling_start_ok(records@, entries@, 0, u as int)) by {
                reveal(sibling_start_ok);
            }
            proof {
                assert forall|i: int| 0 <= i < u implies laid_out(before, i) by {
                    assert(vbefore[i]);
                }
                assert(resolves(records@, u as int));
            }
            render_record_branch(u, 0, records, &children, &mut visited, &mut entries);
            proof {
                lemma_top_cycle_step(records@, before, entries@, u);
                lemma_start_step(records@, before, entries@, vbefore);
                assert forall|k: int| 0 <= k < entries@.len() implies children_laid_out(
                    records@,
                    entries@,
                    visited@,
                    k,
                ) by {
                    if k < before.len() {
                        assert(entries@.take(before.len() as int)[k] == entries@[k]);
                        assert(children_laid_out(records@, before, vbefore, k));
                        assert forall|c: int|
                            0 <= c < records@.len() && #[trigger] issued_by(
                                records@,
                                c,
                                entries@[k].0 as int,
                            ) implies visited@[c] by {
                            assert(vbefore[c]);
                        }
                    }
                }
                assert forall|d: int| 0 <= d < n && !resolves(records@, d) implies visited@[d] by {
                    assert(vbefore[d]);
                }
                lemma_unresolved_at_top(records@, before, entries@);
                assert(first =~= entries@.take(first.len() as int)) by {
                    assert forall|k: int| 0 <= k < first.len() implies first[k] == entries@[k] by {
                        assert(before[k] == first[k]);
                        assert(entries@.take(before.len() as int)[k] == entries@[k]);
                    }
                }
            }
        }
        u = u + 1;
    }
    let mut lines: Vec<String> = Vec::new();
    let mut k: usize = 0;
    while k < entries.len()
        invariant
            k <= entries@.len(),
            consistent(n as nat, visited@, entries@),
            n == records@.len(),
            lines.deep_view() == tree_lines(records@, entries@).take(k as int),
        decreases entries.len() - k,
    {
        let (index, depth) = entries[k];
        assert(index < n);
        let ghost old_lines = lines.deep_view();
        let line = record_line(&records[index], depth);
        lines.push(line);
        assert(lines.deep_view() =~= old_lines.push(tree_line(records@[index as int], depth as nat)));
        assert(tree_lines(records@, entries@)[k as int] == tree_line(records@[index as int], depth as nat));
        k = k + 1;
        assert(lines.deep_view() =~= tree_lines(records@, entries@).take(k as int));
    }
    proof {
        assert(tree_lines(records@, entries@).take(k as int) =~= tree_lines(records@, entries@));
        lemma_all_visited(visited@, n as nat);
        assert forall|x: int, y: int| 0 <= x < y < entries@.len() implies layout_indices(entries@)[x] != layout_indices(entries@)[y] by {}
        assert(tree_layout(records@, entries@));
        let e = entries@;
        assert forall|k: int|
            0 <= k < e.len() && resolves(records@, e[k].0 as int) && rooted(
                records@,
                #[trigger] e[k].0 as int,
                records@.len() as nat,
            ) implies e[k].1 > 0 by {
            if k < first.len() {
                assert(e.take(first.len() as int)[k] == e[k]);
                assert(first[k] == e[k]);
            } else {
                assert(v1[e[k].0 as int]);
                assert(laid_out(first, e[k].0 as int));
                let j = choose|j: int| 0 <= j < first.len() && first[j].0 == e[k].0;
                assert(e.take(first.len() as int)[j] == e[j]);
                assert(e[j].0 == e[k].0);
            }
        }
        assert(indented(records@, e));
        lemma_children_beneath(records@, e);
    }
    let r = join(&lines, "\n");
    assert(tree_text(records@, r@)) by {
        assert(tree_lines(records@, entries@) == tree_lines(records@, entries@));
    }
    r
}

proof fn lemma_all_visited(visited: Seq<bool>, n: nat)
    requires
        visited.len() == n,
        forall|i: int| 0 <= i < n ==> visited[i],
    ensures
        count_true(visited) == n,
    decreases n,
{
    if n > 0 {
        lemma_all_visited(visited.drop_last(), (n - 1) as nat);
    }
}

proof fn lemma_unresolved_at_top(
    records: Seq<CertificateRecord>,
    before: Seq<(usize, usize)>,
    after: Seq<(usize, usize)>,
)
    requires
        well_placed(records, after),
        before.len() <= after.len(),
        before == after.take(before.len() as int),
        forall|k: int| 0 <= k < before.len() && !resolves(records, before[k].0 as int) ==> before[k].1 == 0,
    ensures
        forall|k: int| 0 <= k < after.len() && !resolves(records, after[k].0 as int) ==> after[k].1 == 0,
{
    assert forall|k: int| 0 <= k < after.len() && !resolves(records, after[k].0 as int) implies after[k].1 == 0 by {
        if k < before.len() {
            assert(after.take(before.len() as int)[k] == after[k]);
        } else if after[k].1 != 0 {
            assert(well_placed_at(records, after, k));
            let j = choose|j: int| placed_under(records, after, k, j);
            assert(issued_by(records, after[k].0 as int, after[j].0 as int));
        }
    }
}

} // verus!
