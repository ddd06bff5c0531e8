//! The rendered hierarchy depends on the records only, not on the order they were found in.
use vstd::prelude::*;
use crate::order::{is_permutation, key_less, lemma_key_less_total, lemma_permutation_covers};
use crate::tree::{
    CertificateRecord, children_beneath, display_key, display_order, indented, issued_by,
    layout_indices, placed_under, resolves, rooted, siblings_ordered, top_ordered, tree_layout,
    tree_lines, tree_text, unique_subject, well_placed, well_placed_at,
};
use crate::text::joined;

verus! {

/// No two records share a path.
pub open spec fn distinct_paths(records: Seq<CertificateRecord>) -> bool {
    forall|i: int, j: int| 0 <= i < j < records.len() ==> records[i].path@ != records[j].path@
}

/// Following issuers from any record that has one reaches a record without one: the issuer
/// relation has no cycle.
pub open spec fn acyclic(records: Seq<CertificateRecord>) -> bool {
    forall|c: int| 0 <= c < records.len() && resolves(records, c) ==> rooted(records, c, records.len() as nat)
}

/// What fixes a layout once the issuer relation has no cycle: a layout of every record,
/// children right beneath their issuer in display order, and the top level made of the
/// records without an issuer, in display order.
pub open spec fn layout_facts(records: Seq<CertificateRecord>, e: Seq<(usize, usize)>) -> bool {
    &&& tree_layout(records, e)
    &&& children_beneath(records, e)
    &&& forall|m1: int, m2: int|
        #![trigger e[m1], e[m2]]
        0 <= m1 < m2 < e.len() && e[m1].1 > 0 && e[m1].1 == e[m2].1 && (forall|m: int|
            m1 < m < m2 ==> #[trigger] e[m].1 >= e[m1].1) ==> display_order(
            records,
            e[m1].0 as int,
            e[m2].0 as int,
        )
    &&& forall|m1: int, m2: int|
        #![trigger e[m1], e[m2]]
        0 <= m1 < m2 < e.len() && e[m1].1 == 0 && e[m2].1 == 0 ==> display_order(
            records,
            e[m1].0 as int,
            e[m2].0 as int,
        )
    &&& forall|k: int| 0 <= k < e.len() && #[trigger] e[k].1 == 0 ==> !resolves(records, e[k].0 as int)
}

proof fn lemma_facts_of_text(records: Seq<CertificateRecord>, e: Seq<(usize, usize)>)
    requires
        acyclic(records),
        tree_layout(records, e),
        indented(records, e),
        siblings_ordered(records, e),
        top_ordered(records, e),
        children_beneath(records, e),
    ensures
        layout_facts(records, e),
{
    reveal(siblings_ordered);
    reveal(top_ordered);
    assert(layout_indices(e).len() == e.len());
    assert forall|k: int| 0 <= k < e.len() && #[trigger] e[k].1 == 0 implies !resolves(
        records,
        e[k].0 as int,
    ) by {
        assert(layout_indices(e)[k] == e[k].0);
        if resolves(records, e[k].0 as int) {
            assert(rooted(records, e[k].0 as int, records.len() as nat));
        }
    }
}

proof fn lemma_display_antisymmetric(records: Seq<CertificateRecord>, a: int, b: int)
    requires
        distinct_paths(records),
        0 <= a < records.len(),
        0 <= b < records.len(),
        a != b,
    ensures
        !(display_order(records, a, b) && display_order(records, b, a)),
{
    let ka = display_key(records[a]);
    let kb = display_key(records[b]);
    if ka == kb {
        assert(ka[4] == kb[4]);
        if a < b {
            assert(records[a].path@ != records[b].path@);
        } else {
            assert(records[b].path@ != records[a].path@);
        }
    }
    lemma_key_less_total(ka, kb);
}

proof fn lemma_entry_distinct(records: Seq<CertificateRecord>, e: Seq<(usize, usize)>, m: int, k: int)
    requires
        tree_layout(records, e),
        0 <= m < e.len(),
        0 <= k < e.len(),
        m != k,
    ensures
        e[m].0 != e[k].0,
        e[m].0 < records.len(),
{
    assert(layout_indices(e)[m] == e[m].0);
    assert(layout_indices(e)[k] == e[k].0);
}

proof fn lemma_position_of(records: Seq<CertificateRecord>, e: Seq<(usize, usize)>, x: usize) -> (p: int)
    requires
        records.len() <= usize::MAX,
        tree_layout(records, e),
        x < records.len(),
    ensures
        0 <= p < e.len(),
        e[p].0 == x,
{
    lemma_permutation_covers(layout_indices(e), records.len() as nat, x);
    let p = choose|p: int| 0 <= p < layout_indices(e).len() && layout_indices(e)[p] == x;
    p
}

proof fn lemma_issuer_unique(records: Seq<CertificateRecord>, c: int, p: int, q: int)
    requires
        issued_by(records, c, p),
        issued_by(records, c, q),
    ensures
        p == q,
{
}

proof fn lemma_entry_bound(records: Seq<CertificateRecord>, e: Seq<(usize, usize)>, k: int)
    requires
        tree_layout(records, e),
        0 <= k < e.len(),
    ensures
        e[k].0 < records.len(),
{
    assert(layout_indices(e)[k] == e[k].0);
}

proof fn lemma_beneath(records: Seq<CertificateRecord>, e: Seq<(usize, usize)>, c: int, p: int)
    requires
        layout_facts(records, e),
        0 <= p < c < e.len(),
        issued_by(records, e[c].0 as int, e[p].0 as int),
    ensures
        placed_under(records, e, c, p),
{
    reveal(children_beneath);
}

/// A deeper entry sits below its issuer's entry, and the entry of a record with an issuer
/// that is laid out earlier sits below it.
proof fn lemma_parent_entry(records: Seq<CertificateRecord>, e: Seq<(usize, usize)>, k: int) -> (j: int)
    requires
        layout_facts(records, e),
        0 <= k < e.len(),
        e[k].1 > 0,
    ensures
        placed_under(records, e, k, j),
{
    assert(well_placed_at(records, e, k));
    choose|j: int| placed_under(records, e, k, j)
}

/// Two layouts that satisfy `layout_facts` and agree on their first `k` entries agree on
/// the next one.
proof fn lemma_next_entry(
    records: Seq<CertificateRecord>,
    e: Seq<(usize, usize)>,
    f: Seq<(usize, usize)>,
    k: int,
)
    requires
        records.len() <= usize::MAX,
        distinct_paths(records),
        layout_facts(records, e),
        layout_facts(records, f),
        0 <= k < e.len(),
        e.len() == f.len(),
        forall|m: int| 0 <= m < k ==> e[m] == f[m],
    ensures
        e[k] == f[k],
{
    let a = e[k].0;
    let b = f[k].0;
    let da = e[k].1;
    let db = f[k].1;
    lemma_entry_bound(records, e, k);
    lemma_entry_bound(records, f, k);
    assert(layout_indices(e)[k] == a);
    assert(layout_indices(f)[k] == b);
    // where each record stands in the other layout
    let pb = lemma_position_of(records, e, b);
    let pa = lemma_position_of(records, f, a);
    if pb < k {
        assert(f[pb] == e[pb]);
        lemma_entry_distinct(records, f, pb, k);
    }
    if pa < k {
        assert(f[pa] == e[pa]);
        lemma_entry_distinct(records, e, pa, k);
    }
    // a's depth bounds b's, and the other way round
    if da > 0 {
        let j = lemma_parent_entry(records, e, k);
        assert(f[j] == e[j]);
        if pa > k {
            lemma_beneath(records, f, pa, j);
            assert(f[k].1 >= f[pa].1);
        } else {
            assert(pa == k);
            lemma_beneath(records, f, k, j);
        }
    }
    if db > 0 {
        let j = lemma_parent_entry(records, f, k);
        assert(f[j] == e[j]);
        if pb > k {
            lemma_beneath(records, e, pb, j);
            assert(e[k].1 >= e[pb].1);
        } else {
            assert(pb == k);
            lemma_beneath(records, e, k, j);
        }
    }
    if a == b {
        if da == 0 && db > 0 {
            let j = lemma_parent_entry(records, f, k);
            assert(issued_by(records, b as int, f[j].0 as int));
        }
        if db == 0 && da > 0 {
            let j = lemma_parent_entry(records, e, k);
            assert(issued_by(records, a as int, e[j].0 as int));
        }
        assert(e[k] == f[k]);
    } else {
        assert(pa > k && pb > k);
        if da == 0 {
            assert(db == 0);
            assert(display_order(records, a as int, b as int)) by {
                assert(e[pb].1 == 0) by {
                    if e[pb].1 > 0 {
                        let j = lemma_parent_entry(records, e, pb);
                        assert(resolves(records, b as int));
                    }
                }
            }
            assert(display_order(records, b as int, a as int)) by {
                assert(f[pa].1 == 0) by {
                    if f[pa].1 > 0 {
                        let j = lemma_parent_entry(records, f, pa);
                        assert(resolves(records, a as int));
                    }
                }
            }
            lemma_display_antisymmetric(records, a as int, b as int);
        } else {
            assert(da == db);
            let j = lemma_parent_entry(records, e, k);
            let i = lemma_parent_entry(records, f, k);
            assert(f[i] == e[i]);
            lemma_beneath(records, e, pb, i);
            if j < i {
                assert(e[i].1 >= e[k].1);
            }
            if i < j {
                assert(e[j].1 >= e[pb].1);
            }
            assert(i == j);
            lemma_beneath(records, f, pa, j);
            assert(display_order(records, a as int, b as int)) by {
                assert forall|m: int| k < m < pb implies #[trigger] e[m].1 >= e[k].1 by {}
            }
            assert(display_order(records, b as int, a as int)) by {
                assert forall|m: int| k < m < pa implies #[trigger] f[m].1 >= f[k].1 by {}
            }
            lemma_display_antisymmetric(records, a as int, b as int);
        }
    }
}

proof fn lemma_layouts_agree_upto(
    records: Seq<CertificateRecord>,
    e: Seq<(usize, usize)>,
    f: Seq<(usize, usize)>,
    k: int,
)
    requires
        records.len() <= usize::MAX,
        distinct_paths(records),
        layout_facts(records, e),
        layout_facts(records, f),
        e.len() == f.len(),
        0 <= k <= e.len(),
    ensures
        forall|m: int| 0 <= m < k ==> e[m] == f[m],
    decreases k,
{
    if k > 0 {
        lemma_layouts_agree_upto(records, e, f, k - 1);
        lemma_next_entry(records, e, f, k - 1);
    }
}

/// Once the issuer relation has no cycle and no two records share a path, one layout at
/// most satisfies `layout_facts`.
proof fn lemma_layout_unique(records: Seq<CertificateRecord>, e: Seq<(usize, usize)>, f: Seq<(usize, usize)>)
    requires
        records.len() <= usize::MAX,
        distinct_paths(records),
        layout_facts(records, e),
        layout_facts(records, f),
    ensures
        e == f,
{
    assert(layout_indices(e).len() == e.len());
    assert(layout_indices(f).len() == f.len());
    lemma_layouts_agree_upto(records, e, f, e.len() as int);
    assert(e =~= f);
}

/// `later` holds the records of `earlier`, `later[i]` being `earlier[order[i]]`.
pub open spec fn rearranged(
    earlier: Seq<CertificateRecord>,
    later: Seq<CertificateRecord>,
    order: Seq<usize>,
) -> bool {
    &&& is_permutation(order, earlier.len())
    &&& later.len() == earlier.len()
    &&& forall|i: int| 0 <= i < later.len() ==> later[i] == earlier[order[i] as int]
}

proof fn lemma_covered(order: Seq<usize>, n: nat, x: int) -> (i: int)
    requires
        n <= usize::MAX,
        is_permutation(order, n),
        0 <= x < n,
    ensures
        0 <= i < n,
        order[i] == x,
{
    lemma_permutation_covers(order, n, x as usize);
    choose|i: int| 0 <= i < order.len() && order[i] == x as usize
}

proof fn lemma_issued_moves(
    r1: Seq<CertificateRecord>,
    r2: Seq<CertificateRecord>,
    order: Seq<usize>,
    c: int,
    p: int,
)
    requires
        r1.len() <= usize::MAX,
        rearranged(r1, r2, order),
        0 <= c < r2.len(),
        0 <= p < r2.len(),
    ensures
        issued_by(r2, c, p) == issued_by(r1, order[c] as int, order[p] as int),
{
    let t = r2[c].issuer@;
    if issued_by(r2, c, p) {
        assert forall|k: int| 0 <= k < r1.len() && k != order[p] implies r1[k].subject@ != t by {
            let i = lemma_covered(order, r1.len() as nat, k);
            assert(r2[i] == r1[k]);
        }
    }
    if issued_by(r1, order[c] as int, order[p] as int) {
        assert forall|k: int| 0 <= k < r2.len() && k != p implies r2[k].subject@ != t by {
            assert(order[k] != order[p]);
        }
    }
}

proof fn lemma_resolves_moves(r1: Seq<CertificateRecord>, r2: Seq<CertificateRecord>, order: Seq<usize>, c: int)
    requires
        r1.len() <= usize::MAX,
        rearranged(r1, r2, order),
        0 <= c < r2.len(),
    ensures
        resolves(r2, c) == resolves(r1, order[c] as int),
{
    if resolves(r2, c) {
        let p = choose|p: int| issued_by(r2, c, p);
        lemma_issued_moves(r1, r2, order, c, p);
    }
    if resolves(r1, order[c] as int) {
        let q = choose|q: int| issued_by(r1, order[c] as int, q);
        let p = lemma_covered(order, r1.len() as nat, q);
        lemma_issued_moves(r1, r2, order, c, p);
    }
}

proof fn lemma_display_moves(
    r1: Seq<CertificateRecord>,
    r2: Seq<CertificateRecord>,
    order: Seq<usize>,
    a: int,
    b: int,
)
    requires
        rearranged(r1, r2, order),
        distinct_paths(r1),
        0 <= a < r2.len(),
        0 <= b < r2.len(),
        display_order(r2, a, b),
    ensures
        display_order(r1, order[a] as int, order[b] as int),
{
    if a == b {
        assert(display_key(r2[a]) == display_key(r2[b]));
    } else if display_key(r2[a]) == display_key(r2[b]) {
        assert(display_key(r2[a])[4] == display_key(r2[b])[4]);
        let x = order[a] as int;
        let y = order[b] as int;
        assert(x != y);
        if x < y {
            assert(r1[x].path@ != r1[y].path@);
        } else {
            assert(r1[y].path@ != r1[x].path@);
        }
    }
}

/// The layout of `r2` carried over to `r1`, entry by entry.
pub open spec fn carried(order: Seq<usize>, e: Seq<(usize, usize)>) -> Seq<(usize, usize)> {
    e.map_values(|x: (usize, usize)| (order[x.0 as int], x.1))
}

#[verifier::rlimit(40)]
proof fn lemma_carried_facts(
    r1: Seq<CertificateRecord>,
    r2: Seq<CertificateRecord>,
    order: Seq<usize>,
    e: Seq<(usize, usize)>,
)
    requires
        r1.len() <= usize::MAX,
        rearranged(r1, r2, order),
        distinct_paths(r1),
        layout_facts(r2, e),
    ensures
        layout_facts(r1, carried(order, e)),
        tree_lines(r1, carried(order, e)) == tree_lines(r2, e),
{
    let g = carried(order, e);
    assert(layout_indices(e).len() == e.len());
    assert forall|k: int| 0 <= k < e.len() implies #[trigger] e[k].0 < r2.len() by {
        assert(layout_indices(e)[k] == e[k].0);
    }
    // a layout of every record
    assert forall|k: int| 0 <= k < layout_indices(g).len() implies #[trigger] layout_indices(g)[k] < r1.len() by {
        assert(layout_indices(g)[k] == order[e[k].0 as int]);
    }
    assert forall|a: int, b: int| 0 <= a < b < layout_indices(g).len() implies layout_indices(g)[a]
        != layout_indices(g)[b] by {
        assert(layout_indices(e)[a] == e[a].0);
        assert(layout_indices(e)[b] == e[b].0);
        assert(layout_indices(g)[a] == order[e[a].0 as int]);
        assert(layout_indices(g)[b] == order[e[b].0 as int]);
        if e[a].0 < e[b].0 {
            assert(order[e[a].0 as int] != order[e[b].0 as int]);
        } else {
            assert(order[e[b].0 as int] != order[e[a].0 as int]);
        }
    }
    assert(is_permutation(layout_indices(g), r1.len() as nat));
    assert forall|k: int, j: int| 0 <= j < k < e.len() && placed_under(r2, e, k, j) implies placed_under(
        r1,
        g,
        k,
        j,
    ) by {
        lemma_issued_moves(r1, r2, order, e[k].0 as int, e[j].0 as int);
    }
    assert forall|k: int| 0 <= k < g.len() implies well_placed_at(r1, g, k) by {
        assert(well_placed_at(r2, e, k));
        if e[k].1 != 0 {
            let j = choose|j: int| placed_under(r2, e, k, j);
            assert(placed_under(r1, g, k, j));
        }
    }
    assert forall|k: int| 0 <= k < g.len() && !resolves(r1, g[k].0 as int) implies g[k].1 == 0 by {
        lemma_resolves_moves(r1, r2, order, e[k].0 as int);
    }
    assert(tree_layout(r1, g));
    // children beneath their issuer
    reveal(children_beneath);
    assert forall|j: int, k: int|
        0 <= j < g.len() && 0 <= k < g.len() && #[trigger] issued_by(r1, g[k].0 as int, g[j].0 as int)
            implies k < j || placed_under(r1, g, k, j) by {
        lemma_issued_moves(r1, r2, order, e[k].0 as int, e[j].0 as int);
        assert(issued_by(r2, e[k].0 as int, e[j].0 as int));
    }
    assert(children_beneath(r1, g));
    // siblings and the top level in display order
    assert forall|m1: int, m2: int|
        #![trigger g[m1], g[m2]]
        0 <= m1 < m2 < g.len() && g[m1].1 > 0 && g[m1].1 == g[m2].1 && (forall|m: int|
            m1 < m < m2 ==> #[trigger] g[m].1 >= g[m1].1) implies display_order(
        r1,
        g[m1].0 as int,
        g[m2].0 as int,
    ) by {
        assert forall|m: int| m1 < m < m2 implies #[trigger] e[m].1 >= e[m1].1 by {
            assert(g[m].1 == e[m].1);
        }
        assert(e[m1] == e[m1] && e[m2] == e[m2]);
        lemma_display_moves(r1, r2, order, e[m1].0 as int, e[m2].0 as int);
    }
    assert forall|m1: int, m2: int|
        #![trigger g[m1], g[m2]]
        0 <= m1 < m2 < g.len() && g[m1].1 == 0 && g[m2].1 == 0 implies display_order(
        r1,
        g[m1].0 as int,
        g[m2].0 as int,
    ) by {
        assert(e[m1] == e[m1] && e[m2] == e[m2]);
        lemma_display_moves(r1, r2, order, e[m1].0 as int, e[m2].0 as int);
    }
    assert forall|k: int| 0 <= k < g.len() && #[trigger] g[k].1 == 0 implies !resolves(r1, g[k].0 as int) by {
        assert(e[k].1 == 0);
        lemma_resolves_moves(r1, r2, order, e[k].0 as int);
    }
    assert(tree_lines(r1, g) =~= tree_lines(r2, e));
}

/// The rendered hierarchy does not depend on the order in which the records were found:
/// when no two records share a path and the issuer relation has no cycle, the records in
/// any order render to the same text.
pub proof fn law_render_ignores_record_order(
    r1: Seq<CertificateRecord>,
    r2: Seq<CertificateRecord>,
    order: Seq<usize>,
    t1: Seq<char>,
    t2: Seq<char>,
)
    requires
        r1.len() <= usize::MAX,
        rearranged(r1, r2, order),
        distinct_paths(r1),
        acyclic(r1),
        acyclic(r2),
        tree_text(r1, t1),
        tree_text(r2, t2),
    ensures
        t1 == t2,
{
    let e1 = choose|entries: Seq<(usize, usize)>|
        #![trigger tree_lines(r1, entries)]
        tree_layout(r1, entries) && indented(r1, entries) && siblings_ordered(r1, entries) && top_ordered(
            r1,
            entries,
        ) && children_beneath(r1, entries) && t1 == joined(tree_lines(r1, entries), "\n"@);
    let e2 = choose|entries: Seq<(usize, usize)>|
        #![trigger tree_lines(r2, entries)]
        tree_layout(r2, entries) && indented(r2, entries) && siblings_ordered(r2, entries) && top_ordered(
            r2,
            entries,
        ) && children_beneath(r2, entries) && t2 == joined(tree_lines(r2, entries), "\n"@);
    lemma_facts_of_text(r1, e1);
    lemma_facts_of_text(r2, e2);
    lemma_carried_facts(r1, r2, order, e2);
    lemma_layout_unique(r1, e1, carried(order, e2));
}

} // verus!
