//! A stable sort by `(number, text)` keys.
//!
//! The launcher orders results by rank and then by lowercase name, keeping the
//! input order of equal keys. Here that order is described by positions: a
//! sort order of a key list is the list of its positions, arranged so that
//! each position comes before every later one in the order `before`.
use vstd::prelude::*;
use crate::text::{chars_lt, lemma_seq_lt_irreflexive, lemma_seq_lt_total, lemma_seq_lt_transitive, seq_lt};

verus! {

/// A sort key: a number compared first, then a text compared lexicographically.
pub struct SortKey {
    pub primary: i64,
    pub text: Vec<char>,
}

impl SortKey {
    pub open spec fn view(&self) -> (int, Seq<char>) {
        (self.primary as int, self.text@)
    }
}

/// The key list seen as mathematical pairs.
pub open spec fn key_views(keys: Seq<SortKey>) -> Seq<(int, Seq<char>)> {
    keys.map_values(|k: SortKey| k.view())
}

/// `a` sorts strictly before `b`: smaller number, or equal number and smaller text.
pub open spec fn key_lt(a: (int, Seq<char>), b: (int, Seq<char>)) -> bool {
    a.0 < b.0 || (a.0 == b.0 && seq_lt(a.1, b.1))
}

/// Position `i` comes before position `j`: its key is smaller, or the keys
/// are equal and `i` came first in the input (stability).
pub open spec fn before(keys: Seq<(int, Seq<char>)>, i: int, j: int) -> bool {
    key_lt(keys[i], keys[j]) || (keys[i] == keys[j] && i < j)
}

/// `out` lists every position of `keys` once, in the order `before`.
pub open spec fn is_sort_order(keys: Seq<(int, Seq<char>)>, out: Seq<usize>) -> bool {
    &&& out.len() == keys.len()
    &&& forall|k: int| 0 <= k < out.len() ==> #[trigger] out[k] < keys.len()
    &&& forall|i: int, j: int|
        0 <= i < j < out.len() ==> before(keys, #[trigger] out[i] as int, #[trigger] out[j] as int)
    &&& forall|p: int| 0 <= p < keys.len() ==> #[trigger] out.contains(p as usize)
}

/// The sort order of `keys` (there is exactly one, see `lemma_sort_order_unique`).
pub open spec fn sort_order(keys: Seq<(int, Seq<char>)>) -> Seq<usize> {
    choose|out: Seq<usize>| is_sort_order(keys, out)
}

pub proof fn lemma_key_lt_irreflexive(a: (int, Seq<char>))
    ensures
        !key_lt(a, a),
{
    lemma_seq_lt_irreflexive(a.1);
}

pub proof fn lemma_key_lt_transitive(a: (int, Seq<char>), b: (int, Seq<char>), c: (int, Seq<char>))
    requires
        key_lt(a, b),
        key_lt(b, c),
    ensures
        key_lt(a, c),
{
    if a.0 == b.0 && b.0 == c.0 {
        lemma_seq_lt_transitive(a.1, b.1, c.1);
    }
}

pub proof fn lemma_key_lt_total(a: (int, Seq<char>), b: (int, Seq<char>))
    ensures
        a == b || key_lt(a, b) || key_lt(b, a),
{
    lemma_seq_lt_total(a.1, b.1);
}

pub proof fn lemma_before_irreflexive(keys: Seq<(int, Seq<char>)>, i: int)
    requires
        0 <= i < keys.len(),
    ensures
        !before(keys, i, i),
{
    lemma_key_lt_irreflexive(keys[i]);
}

pub proof fn lemma_before_transitive(keys: Seq<(int, Seq<char>)>, i: int, j: int, k: int)
    requires
        0 <= i < keys.len(),
        0 <= j < keys.len(),
        0 <= k < keys.len(),
        before(keys, i, j),
        before(keys, j, k),
    ensures
        before(keys, i, k),
{
    if key_lt(keys[i], keys[j]) && key_lt(keys[j], keys[k]) {
        lemma_key_lt_transitive(keys[i], keys[j], keys[k]);
    }
}

/// A key list has exactly one sort order.
pub proof fn lemma_sort_order_unique(keys: Seq<(int, Seq<char>)>, a: Seq<usize>, b: Seq<usize>)
    requires
        is_sort_order(keys, a),
        is_sort_order(keys, b),
    ensures
        a == b,
{
    assert forall|i: int| 0 <= i < a.len() implies a[i] == b[i] by {
        lemma_sort_order_agree(keys, a, b, i);
    }
    assert(a =~= b);
}

proof fn lemma_index_of(s: Seq<usize>, x: usize) -> (m: int)
    requires
        s.contains(x),
    ensures
        0 <= m < s.len(),
        s[m] == x,
{
    choose|m: int| 0 <= m < s.len() && s[m] == x
}

proof fn lemma_sort_order_agree(keys: Seq<(int, Seq<char>)>, a: Seq<usize>, b: Seq<usize>, i: int)
    requires
        is_sort_order(keys, a),
        is_sort_order(keys, b),
        0 <= i < a.len(),
    ensures
        a[i] == b[i],
    decreases i,
{
    assert forall|k: int| 0 <= k < i implies a[k] == b[k] by {
        lemma_sort_order_agree(keys, a, b, k);
    }
    let x = a[i];
    let y = b[i];
    assert(a[i] < keys.len());
    assert(b[i] < keys.len());
    let xi = x as int;
    assert(b.contains(xi as usize));
    let m = lemma_index_of(b, x);
    let yi = y as int;
    assert(a.contains(yi as usize));
    let mp = lemma_index_of(a, y);
    if x != y {
        // x sits in b after position i, y sits in a after position i.
        if m < i {
            assert(a[m] == b[m]);
            assert(before(keys, a[m] as int, a[i] as int));
            lemma_before_irreflexive(keys, x as int);
        }
        if mp < i {
            assert(a[mp] == b[mp]);
            assert(before(keys, b[mp] as int, b[i] as int));
            lemma_before_irreflexive(keys, y as int);
        }
        assert(m > i);
        assert(mp > i);
        assert(before(keys, b[i] as int, b[m] as int));
        assert(before(keys, a[i] as int, a[mp] as int));
        lemma_before_transitive(keys, x as int, y as int, x as int);
        lemma_before_irreflexive(keys, x as int);
    }
}


/// The positions below `p`, each once, in the order `before`.
pub open spec fn orders_prefix(keys: Seq<(int, Seq<char>)>, out: Seq<usize>, p: int) -> bool {
    &&& out.len() == p
    &&& forall|k: int| 0 <= k < out.len() ==> #[trigger] out[k] < p
    &&& forall|i: int, j: int|
        0 <= i < j < out.len() ==> before(keys, #[trigger] out[i] as int, #[trigger] out[j] as int)
    &&& forall|q: int| 0 <= q < p ==> #[trigger] out.contains(q as usize)
}

/// Inserting position `p` at `q`, after every position whose key is not
/// greater than `p`'s and before the first whose key is, keeps the order.
proof fn lemma_insert_step(kv: Seq<(int, Seq<char>)>, old_out: Seq<usize>, p: int, q: int)
    requires
        0 <= p < kv.len(),
        kv.len() <= usize::MAX,
        orders_prefix(kv, old_out, p),
        0 <= q <= old_out.len(),
        forall|k: int| 0 <= k < q ==> !key_lt(kv[p], #[trigger] kv[old_out[k] as int]),
        q < old_out.len() ==> key_lt(kv[p], kv[old_out[q] as int]),
    ensures
        orders_prefix(kv, old_out.insert(q, p as usize), p + 1),
{
    assert forall|k: int| 0 <= k < q implies before(kv, #[trigger] old_out[k] as int, p) by {
        lemma_key_lt_total(kv[p], kv[old_out[k] as int]);
    }
    if q < old_out.len() {
        assert forall|k: int| q <= k < old_out.len() implies before(
            kv,
            p,
            #[trigger] old_out[k] as int,
        ) by {
            if k > q {
                assert(before(kv, old_out[q] as int, old_out[k] as int));
                lemma_before_transitive(kv, p, old_out[q] as int, old_out[k] as int);
            }
        }
    }
    let out = old_out.insert(q, p as usize);
    assert forall|k: int| 0 <= k < out.len() implies #[trigger] out[k] < p + 1 by {
        if k < q {
            assert(out[k] == old_out[k]);
        } else if k > q {
            assert(out[k] == old_out[k - 1]);
        }
    }
    assert forall|i: int, j: int| 0 <= i < j < out.len() implies before(
        kv,
        #[trigger] out[i] as int,
        #[trigger] out[j] as int,
    ) by {
        if j < q {
            assert(out[i] == old_out[i] && out[j] == old_out[j]);
        } else if j == q {
            assert(out[i] == old_out[i]);
        } else if i < q {
            assert(out[i] == old_out[i] && out[j] == old_out[j - 1]);
        } else if i == q {
            assert(out[j] == old_out[j - 1]);
        } else {
            assert(out[i] == old_out[i - 1] && out[j] == old_out[j - 1]);
        }
    }
    assert forall|r: int| 0 <= r < p + 1 implies #[trigger] out.contains(r as usize) by {
        if r == p {
            assert(out[q] == p as usize);
        } else {
            assert(old_out.contains(r as usize));
            let m = choose|m: int| 0 <= m < old_out.len() && old_out[m] == r as usize;
            if m < q {
                assert(out[m] == r as usize);
            } else {
                assert(out[m + 1] == r as usize);
            }
        }
    }
}

/// The first index at or after `from` whose key is greater than `p`'s.
pub open spec fn insert_index(kv: Seq<(int, Seq<char>)>, out: Seq<usize>, p: int, from: int) -> int
    decreases out.len() - from,
{
    if from >= out.len() || from < 0 {
        out.len() as int
    } else if key_lt(kv[p], kv[out[from] as int]) {
        from
    } else {
        insert_index(kv, out, p, from + 1)
    }
}

proof fn lemma_insert_index(kv: Seq<(int, Seq<char>)>, out: Seq<usize>, p: int, from: int)
    requires
        0 <= from <= out.len(),
        forall|k: int| 0 <= k < from ==> !key_lt(kv[p], #[trigger] kv[out[k] as int]),
    ensures
        from <= insert_index(kv, out, p, from) <= out.len(),
        forall|k: int|
            0 <= k < insert_index(kv, out, p, from) ==> !key_lt(kv[p], #[trigger] kv[out[k] as int]),
        insert_index(kv, out, p, from) < out.len() ==> key_lt(
            kv[p],
            kv[out[insert_index(kv, out, p, from)] as int],
        ),
    decreases out.len() - from,
{
    if from < out.len() && !key_lt(kv[p], kv[out[from] as int]) {
        lemma_insert_index(kv, out, p, from + 1);
    }
}

/// Insertion sort of the first `n` positions.
pub open spec fn insertion_order(kv: Seq<(int, Seq<char>)>, n: nat) -> Seq<usize>
    decreases n,
{
    if n == 0 {
        seq![]
    } else {
        let prev = insertion_order(kv, (n - 1) as nat);
        prev.insert(insert_index(kv, prev, n - 1, 0), (n - 1) as usize)
    }
}

proof fn lemma_insertion_order(kv: Seq<(int, Seq<char>)>, n: nat)
    requires
        n <= kv.len(),
        kv.len() <= usize::MAX,
    ensures
        orders_prefix(kv, insertion_order(kv, n), n as int),
    decreases n,
{
    if n > 0 {
        let prev = insertion_order(kv, (n - 1) as nat);
        lemma_insertion_order(kv, (n - 1) as nat);
        lemma_insert_index(kv, prev, n - 1, 0);
        lemma_insert_step(kv, prev, n - 1, insert_index(kv, prev, n - 1, 0));
    }
}

/// Every key list has a sort order, and `sort_order` is it.
pub proof fn lemma_sort_order(keys: Seq<(int, Seq<char>)>)
    requires
        keys.len() <= usize::MAX,
    ensures
        is_sort_order(keys, sort_order(keys)),
{
    lemma_insertion_order(keys, keys.len());
    assert(is_sort_order(keys, insertion_order(keys, keys.len())));
}

/// Whether key `a` sorts strictly before key `b`.
pub fn key_less(a: &SortKey, b: &SortKey) -> (r: bool)
    ensures
        r == key_lt(a.view(), b.view()),
{
    a.primary < b.primary || (a.primary == b.primary && chars_lt(&a.text, &b.text))
}

/// The positions of `keys` in stable sorted order.
pub fn sort_positions(keys: &Vec<SortKey>) -> (out: Vec<usize>)
    ensures
        is_sort_order(key_views(keys@), out@),
        out@ == sort_order(key_views(keys@)),
{
    let ghost kv = key_views(keys@);
    let mut out: Vec<usize> = Vec::new();
    let mut p: usize = 0;
    while p < keys.len()
        invariant
            kv == key_views(keys@),
            kv.len() == keys.len(),
            p <= keys.len(),
            out.len() == p,
            orders_prefix(kv, out@, p as int),
        decreases keys.len() - p,
    {
        // Insert p after every position whose key is not greater than p's key.
        let mut q: usize = 0;
        while q < out.len() && !key_less(&keys[p], &keys[out[q]])
            invariant
                kv == key_views(keys@),
                kv.len() == keys.len(),
                p < keys.len(),
                q <= out.len(),
                out.len() == p,
                orders_prefix(kv, out@, p as int),
                forall|k: int| 0 <= k < q ==> !key_lt(kv[p as int], #[trigger] kv[out@[k] as int]),
            decreases out.len() - q,
        {
            q = q + 1;
        }
        let ghost old_out = out@;
        proof {
            lemma_insert_step(kv, old_out, p as int, q as int);
        }
        out.insert(q, p);
        p = p + 1;
    }
    proof {
        assert(is_sort_order(kv, out@));
        lemma_sort_order_unique(kv, out@, sort_order(kv));
    }
    out
}

} // verus!
