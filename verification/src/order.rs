//! Orders on text and on lists of text, and a stable sort over them.
use vstd::prelude::*;
use crate::text::{less, text_less, text_eq};

verus! {

/// `less` never relates a text to itself.
pub proof fn lemma_less_irreflexive(a: Seq<char>)
    ensures
        !less(a, a),
    decreases a.len(),
{
    if a.len() > 0 {
        lemma_less_irreflexive(a.drop_first());
    }
}

/// `less` is transitive.
pub proof fn lemma_less_transitive(a: Seq<char>, b: Seq<char>, c: Seq<char>)
    requires
        less(a, b),
        less(b, c),
    ensures
        less(a, c),
    decreases a.len(),
{
    if a.len() > 0 && b.len() > 0 && c.len() > 0 {
        if a[0] == b[0] && b[0] == c[0] {
            lemma_less_transitive(a.drop_first(), b.drop_first(), c.drop_first());
        }
    }
}

/// Two different texts are ordered one way or the other.
pub proof fn lemma_less_total(a: Seq<char>, b: Seq<char>)
    ensures
        a == b || less(a, b) || less(b, a),
    decreases a.len(),
{
    if a.len() > 0 && b.len() > 0 && a[0] == b[0] {
        lemma_less_total(a.drop_first(), b.drop_first());
        if a.drop_first() == b.drop_first() {
            assert(a =~= seq![a[0]] + a.drop_first());
            assert(b =~= seq![b[0]] + b.drop_first());
        }
    } else if a.len() > 0 && b.len() > 0 {
        let x = a[0];
        let y = b[0];
        assert((x as u32) != (y as u32)) by {
            if (x as u32) == (y as u32) {
                vstd::utf8::char_u32_cast(x, x as u32);
                vstd::utf8::char_u32_cast(y, y as u32);
                assert(x == y);
            }
        }
    } else if a.len() == 0 && b.len() == 0 {
        assert(a =~= b);
    }
}

/// Lexicographic order on lists of texts, each compared by `less`.
pub open spec fn key_less(a: Seq<Seq<char>>, b: Seq<Seq<char>>) -> bool
    decreases a.len(),
{
    if a.len() == 0 {
        b.len() > 0
    } else if b.len() == 0 {
        false
    } else if less(a[0], b[0]) {
        true
    } else if a[0] == b[0] {
        key_less(a.drop_first(), b.drop_first())
    } else {
        false
    }
}

/// `key_less` never relates a key to itself.
pub proof fn lemma_key_less_irreflexive(a: Seq<Seq<char>>)
    ensures
        !key_less(a, a),
    decreases a.len(),
{
    if a.len() > 0 {
        lemma_less_irreflexive(a[0]);
        lemma_key_less_irreflexive(a.drop_first());
    }
}

/// `key_less` is transitive.
pub proof fn lemma_key_less_transitive(a: Seq<Seq<char>>, b: Seq<Seq<char>>, c: Seq<Seq<char>>)
    requires
        key_less(a, b),
        key_less(b, c),
    ensures
        key_less(a, c),
    decreases a.len(),
{
    if a.len() > 0 && b.len() > 0 && c.len() > 0 {
        if less(a[0], b[0]) && less(b[0], c[0]) {
            lemma_less_transitive(a[0], b[0], c[0]);
        } else if a[0] == b[0] && b[0] == c[0] {
            lemma_key_less_transitive(a.drop_first(), b.drop_first(), c.drop_first());
        }
    }
}

/// Two different keys are ordered one way or the other.
pub proof fn lemma_key_less_total(a: Seq<Seq<char>>, b: Seq<Seq<char>>)
    ensures
        a == b || key_less(a, b) || key_less(b, a),
    decreases a.len(),
{
    if a.len() > 0 && b.len() > 0 {
        lemma_less_total(a[0], b[0]);
        if a[0] == b[0] {
            lemma_key_less_total(a.drop_first(), b.drop_first());
            if a.drop_first() == b.drop_first() {
                assert(a =~= seq![a[0]] + a.drop_first());
                assert(b =~= seq![b[0]] + b.drop_first());
            }
        }
    } else if a.len() == 0 && b.len() == 0 {
        assert(a =~= b);
    }
}

/// Compares two keys.
pub fn keys_less(a: &Vec<String>, b: &Vec<String>) -> (r: bool)
    ensures
        r == key_less(a.deep_view(), b.deep_view()),
{
    let ghost av = a.deep_view();
    let ghost bv = b.deep_view();
    let mut i: usize = 0;
    assert(av.skip(0) =~= av);
    assert(bv.skip(0) =~= bv);
    while i < a.len() && i < b.len()
        invariant
            av == a.deep_view(),
            bv == b.deep_view(),
            i <= a@.len(),
            i <= b@.len(),
            key_less(av, bv) == key_less(av.skip(i as int), bv.skip(i as int)),
        decreases a.len() - i,
    {
        assert(av.skip(i as int)[0] == a@[i as int]@);
        assert(bv.skip(i as int)[0] == b@[i as int]@);
        if text_less(a[i].as_str(), b[i].as_str()) {
            return true;
        }
        if !text_eq(a[i].as_str(), b[i].as_str()) {
            return false;
        }
        assert(av.skip(i as int).drop_first() =~= av.skip(i + 1));
        assert(bv.skip(i as int).drop_first() =~= bv.skip(i + 1));
        i = i + 1;
    }
    i < b.len()
}

/// `order` lists each of `0..n` exactly once.
pub open spec fn is_permutation(order: Seq<usize>, n: nat) -> bool {
    &&& order.len() == n
    &&& forall|i: int| 0 <= i < order.len() ==> order[i] < n
    &&& forall|i: int, j: int| 0 <= i < j < order.len() ==> order[i] != order[j]
}

/// `order` arranges the keys in nondecreasing order, keeping equal keys in index order.
pub open spec fn sorted_stably(order: Seq<usize>, keys: Seq<Seq<Seq<char>>>) -> bool {
    forall|i: int, j: int|
        0 <= i < j < order.len() ==> {
            &&& !key_less(keys[order[j] as int], keys[order[i] as int])
            &&& (keys[order[i] as int] == keys[order[j] as int] ==> order[i] < order[j])
        }
}

/// Every index below `n` occurs in a permutation of `0..n`.
pub proof fn lemma_permutation_covers(order: Seq<usize>, n: nat, x: usize)
    requires
        n <= usize::MAX,
        is_permutation(order, n),
        x < n,
    ensures
        order.contains(x),
    decreases n,
{
    let max = (n - 1) as usize;
    if !order.contains(x) {
        // the map i -> order[i] would send n indices into n - 1 values
        let s = order.to_set();
        assert(s.subset_of(Set::new(|v: usize| v < n && v != x)));
        lemma_distinct_to_set_len(order);
        lemma_bounded_set_len(n, x);
        vstd::set_lib::lemma_len_subset(s, Set::new(|v: usize| v < n && v != x));
    }
}

proof fn lemma_distinct_to_set_len(order: Seq<usize>)
    requires
        forall|i: int, j: int| 0 <= i < j < order.len() ==> order[i] != order[j],
    ensures
        order.to_set().len() == order.len(),
        order.to_set().finite(),
{
    order.unique_seq_to_set();
}

proof fn lemma_bounded_set_len(n: nat, x: usize)
    requires
        x < n,
        n <= usize::MAX,
    ensures
        Set::new(|v: usize| v < n && v != x).finite(),
        Set::new(|v: usize| v < n && v != x).len() == n - 1,
{
    let full = Set::new(|v: usize| v < n);
    let s = Set::new(|v: usize| v < n && v != x);
    lemma_usize_range_set(n);
    assert(s =~= full.remove(x));
}

proof fn lemma_usize_range_set(n: nat)
    requires
        n <= usize::MAX,
    ensures
        Set::new(|v: usize| v < n).finite(),
        Set::new(|v: usize| v < n).len() == n,
    decreases n,
{
    if n == 0 {
        assert(Set::new(|v: usize| v < n) =~= Set::<usize>::empty());
    } else {
        lemma_usize_range_set((n - 1) as nat);
        let m = (n - 1) as nat;
        assert(Set::new(|v: usize| v < n) =~= Set::new(|v: usize| v < m).insert(m as usize));
    }
}

/// Indices `0..keys.len()` in the order of their keys; equal keys keep their index order.
pub fn sort_by_keys(keys: &Vec<Vec<String>>) -> (order: Vec<usize>)
    ensures
        is_permutation(order@, keys@.len() as nat),
        sorted_stably(order@, keys.deep_view()),
{
    let ghost kv = keys.deep_view();
    let n = keys.len();
    let mut order: Vec<usize> = Vec::new();
    let mut k: usize = 0;
    while k < n
        invariant
            n == keys@.len(),
            kv == keys.deep_view(),
            k <= n,
            is_permutation(order@, k as nat),
            sorted_stably(order@, kv),
        decreases n - k,
    {
        let mut pos: usize = 0;
        while pos < order.len() && !keys_less(&keys[k], &keys[order[pos]])
            invariant
                n == keys@.len(),
                kv == keys.deep_view(),
                k < n,
                pos <= order@.len(),
                is_permutation(order@, k as nat),
                forall|a: int| 0 <= a < pos ==> !key_less(kv[k as int], #[trigger] kv[order@[a] as int]),
            decreases order.len() - pos,
        {
            pos = pos + 1;
        }
        let ghost old_order = order@;
        proof {
            if pos < old_order.len() {
                assert(key_less(kv[k as int], kv[old_order[pos as int] as int]));
            }
        }
        order.insert(pos, k);
        proof {
            let o = order@;
            assert(o.len() == k + 1);
            assert(o[pos as int] == k);
            assert forall|i: int| 0 <= i < o.len() implies o[i] < k + 1 by {
                if i < pos {
                    assert(o[i] == old_order[i]);
                } else if i > pos {
                    assert(o[i] == old_order[i - 1]);
                }
            }
            assert forall|i: int, j: int| 0 <= i < j < o.len() implies o[i] != o[j] by {
                if i < pos {
                    assert(o[i] == old_order[i]);
                }
                if i > pos {
                    assert(o[i] == old_order[i - 1]);
                }
                if j < pos {
                    assert(o[j] == old_order[j]);
                }
                if j > pos {
                    assert(o[j] == old_order[j - 1]);
                }
            }
            assert forall|i: int, j: int| 0 <= i < j < o.len() implies {
                &&& !key_less(kv[o[j] as int], kv[o[i] as int])
                &&& (kv[o[i] as int] == kv[o[j] as int] ==> o[i] < o[j])
            } by {
                let x = kv[k as int];
                if i < pos && j < pos {
                    assert(o[i] == old_order[i] && o[j] == old_order[j]);
                } else if i > pos && j > pos {
                    assert(o[i] == old_order[i - 1] && o[j] == old_order[j - 1]);
                } else if i < pos && j > pos {
                    assert(o[i] == old_order[i] && o[j] == old_order[j - 1]);
                } else if i == pos {
                    // the new index sits before old entries that are strictly greater
                    assert(o[j] == old_order[j - 1]);
                    let y = kv[old_order[pos as int] as int];
                    let z = kv[o[j] as int];
                    assert(key_less(x, y));
                    if j - 1 > pos {
                        assert(!key_less(z, y));
                    } else {
                        lemma_key_less_irreflexive(y);
                    }
                    if key_less(z, x) {
                        lemma_key_less_transitive(z, x, y);
                    }
                    if z == x {
                        lemma_key_less_irreflexive(x);
                    }
                } else {
                    // j == pos: the new index follows entries that are not greater
                    assert(o[i] == old_order[i]);
                    assert(!key_less(x, kv[o[i] as int]));
                    assert(old_order[i] < k);
                }
            }
        }
        k = k + 1;
    }
    order
}

} // verus!
