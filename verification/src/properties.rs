//! What the launcher guarantees across its states and operations: how results
//! are ordered, how the list is laid out, which applications are pinned, how
//! the moves of the selection and of the query undo each other, and that the
//! selection stays in view.
use vstd::prelude::*;
use crate::entry::{rank_spec, DesktopEntry};
use crate::launcher::{lemma_same_pinned, lemma_same_results, LauncherView, Row};
use crate::model::{Cmd, ModelView, Msg};
use crate::order::{before, is_sort_order, key_lt, lemma_sort_order, sort_order};
use crate::usage::usage_count;
use crate::text::{lemma_seq_lt_irreflexive, lemma_seq_lt_transitive, lowercase, seq_lt};

verus! {

/// The rank of application `i` for the launcher's query (0 when it does not match).
pub open spec fn rank_of(v: LauncherView, i: int) -> int {
    match rank_spec(v.entries[i], v.query) {
        Some(r) => r as int,
        None => 0,
    }
}

/// Results `a` and `b`, with `a` listed first, are matches whose keys are in order.
proof fn lemma_results_in_key_order(v: LauncherView, a: int, b: int)
    requires
        v.entries.len() <= usize::MAX,
        0 <= a < b < v.result_count(),
    ensures
        v.ranked()[a] < v.entries.len(),
        v.ranked()[b] < v.entries.len(),
        rank_spec(v.entries[v.ranked()[a] as int], v.query) is Some,
        rank_spec(v.entries[v.ranked()[b] as int], v.query) is Some,
        key_lt(v.result_key(v.ranked()[a] as int), v.result_key(v.ranked()[b] as int))
            || v.result_key(v.ranked()[a] as int) == v.result_key(v.ranked()[b] as int),
{
    let c = v.candidates();
    let keys = v.candidate_keys();
    v.lemma_matching(v.entries.len());
    lemma_sort_order(keys);
    let o = sort_order(keys);
    assert(is_sort_order(keys, o));
    let pa = o[a] as int;
    let pb = o[b] as int;
    assert(before(keys, pa, pb));
    assert(v.ranked()[a] == c[pa]);
    assert(v.ranked()[b] == c[pb]);
    assert(keys[pa] == v.result_key(c[pa] as int));
    assert(keys[pb] == v.result_key(c[pb] as int));
}

/// A weaker match never comes before a stronger one: down the list of
/// results the ranks never decrease, whatever the launch counts, because the
/// usage boost (at most `USAGE_BOOST_CAP`) is smaller than the gap between two
/// rank tiers.
pub proof fn results_never_put_a_weaker_match_first(v: LauncherView, a: int, b: int)
    requires
        v.wf(),
        0 <= a < b < v.result_count(),
    ensures
        rank_of(v, v.ranked()[a] as int) <= rank_of(v, v.ranked()[b] as int),
{
    lemma_results_in_key_order(v, a, b);
}

/// A stronger match is never left out for a weaker one, nor listed after it:
/// when application `j` is listed at position `pb` and application `i`
/// matches the query with a strictly better rank, `i` is listed before `pb`.
pub proof fn stronger_matches_are_listed_first(v: LauncherView, i: int, j: int, pb: int)
    requires
        v.wf(),
        0 <= i < v.entries.len(),
        0 <= j < v.entries.len(),
        rank_spec(v.entries[i], v.query) is Some,
        rank_spec(v.entries[j], v.query) is Some,
        rank_of(v, i) < rank_of(v, j),
        0 <= pb < v.result_count(),
        v.ranked()[pb] == j,
    ensures
        exists|pa: int| 0 <= pa < pb && v.ranked()[pa] == i,
{
    let c = v.candidates();
    let keys = v.candidate_keys();
    v.lemma_matching(v.entries.len());
    lemma_sort_order(keys);
    let o = sort_order(keys);
    assert(is_sort_order(keys, o));
    assert(c.contains(i as usize));
    let qi = choose|q: int| 0 <= q < c.len() && c[q] == i as usize;
    assert(o.contains(qi as usize));
    let t = choose|t: int| 0 <= t < o.len() && o[t] == qi as usize;
    assert(v.ranked()[pb] == c[o[pb] as int]);
    assert(keys[o[pb] as int] == v.result_key(j));
    assert(keys[qi] == v.result_key(i));
    if t >= pb {
        if t == pb {
            assert(c[o[pb] as int] == i);
        } else {
            assert(before(keys, o[pb] as int, o[t] as int));
        }
    }
    assert(t < pb);
    assert(v.ranked()[t] == c[o[t] as int]);
}

/// While searching, frequent use ranks first within a tier: of two results
/// with the same rank, the one listed first has at least as large a usage
/// boost (its launch count, capped at `USAGE_BOOST_CAP`).
pub proof fn frequent_use_ranks_first_within_a_tier(v: LauncherView, a: int, b: int)
    requires
        v.wf(),
        0 <= a < b < v.result_count(),
        rank_of(v, v.ranked()[a] as int) == rank_of(v, v.ranked()[b] as int),
    ensures
        v.boost(v.ranked()[a] as int) >= v.boost(v.ranked()[b] as int),
{
    lemma_results_in_key_order(v, a, b);
}

/// While browsing (no query), launch counts change nothing: the results come
/// in alphabetical order of their lowercase names.
pub proof fn browsing_lists_alphabetically(v: LauncherView, a: int, b: int)
    requires
        v.wf(),
        v.browsing(),
        0 <= a < b < v.result_count(),
    ensures
        !seq_lt(
            lowercase(v.entries[v.ranked()[b] as int].name@),
            lowercase(v.entries[v.ranked()[a] as int].name@),
        ),
{
    lemma_results_in_key_order(v, a, b);
    let na = lowercase(v.entries[v.ranked()[a] as int].name@);
    let nb = lowercase(v.entries[v.ranked()[b] as int].name@);
    if seq_lt(nb, na) {
        if seq_lt(na, nb) {
            lemma_seq_lt_transitive(na, nb, na);
        }
        lemma_seq_lt_irreflexive(na);
    }
}

/// While browsing, every application matches: the first `k` match in order.
proof fn lemma_browsing_matches_all(v: LauncherView, k: nat)
    requires
        v.browsing(),
        k <= v.entries.len(),
        v.entries.len() <= usize::MAX,
    ensures
        v.matching(k) == Seq::new(k, |i: int| i as usize),
    decreases k,
{
    if k > 0 {
        lemma_browsing_matches_all(v, (k - 1) as nat);
        assert(rank_spec(v.entries[k - 1], v.query) is Some);
        assert(v.matching(k) =~= Seq::new(k, |i: int| i as usize));
    }
}

/// While browsing, the results are the complete list: every application,
/// whatever `max_results` is.
pub proof fn browsing_shows_every_application(v: LauncherView)
    requires
        v.entries.len() <= usize::MAX,
        v.browsing(),
    ensures
        v.result_count() == v.entries.len(),
{
    lemma_browsing_matches_all(v, v.entries.len());
    v.lemma_matching(v.entries.len());
    lemma_sort_order(v.candidate_keys());
}

/// The applications keyed by lowercase name alone.
pub open spec fn name_keys(entries: Seq<DesktopEntry>) -> Seq<(int, Seq<char>)> {
    Seq::new(entries.len(), |i: int| (0int, lowercase(entries[i].name@)))
}

/// While browsing, the results are exactly the applications stably sorted by
/// lowercase name (equal names in the order given), all of them whatever
/// `max_results` is; the launch counts play no part.
pub proof fn browsing_lists_the_applications_sorted_by_name(v: LauncherView)
    requires
        v.entries.len() <= usize::MAX,
        v.browsing(),
    ensures
        v.ranked() == sort_order(name_keys(v.entries)),
{
    let n = v.entries.len();
    lemma_browsing_matches_all(v, n);
    let c = v.candidates();
    let keys = v.candidate_keys();
    let nk = name_keys(v.entries);
    lemma_sort_order(keys);
    lemma_sort_order(nk);
    let o = sort_order(keys);
    assert forall|p: int| 0 <= p < n implies #[trigger] keys[p] == (100int, nk[p].1) by {
        assert(c[p] == p as usize);
    }
    assert forall|p: int, q: int| 0 <= p < n && 0 <= q < n implies before(keys, p, q) == before(nk, p, q) by {
        assert(keys[p] == (100int, nk[p].1));
        assert(keys[q] == (100int, nk[q].1));
    }
    assert(is_sort_order(nk, o));
    crate::order::lemma_sort_order_unique(nk, o, sort_order(nk));
    let sorted = o.map_values(|p: usize| c[p as int]);
    assert(sorted =~= o);
}

/// While searching, the list is flat: row `k` shows result `k`, with no
/// group letters.
pub proof fn searching_lists_results_without_letters(v: LauncherView, k: int)
    requires
        !v.browsing(),
        0 <= k < v.rows().len(),
    ensures
        v.rows()[k] == Row::Entry(k as usize),
        v.rows().len() == v.result_count(),
{
}

/// Whether a row shows a result.
pub open spec fn is_entry_row(r: Row) -> bool {
    r is Entry
}

/// The grouped rows hold the first `n` results in order and end with the last of them.
proof fn lemma_grouped_entries(v: LauncherView, n: nat)
    ensures
        v.grouped(n).filter(|r: Row| is_entry_row(r)) == Seq::new(n, |k: int| Row::Entry(k as usize)),
        n > 0 ==> v.grouped(n).last() == Row::Entry((n - 1) as usize),
    decreases n,
{
    let pred = |r: Row| is_entry_row(r);
    if n == 0 {
        reveal(Seq::filter);
        assert(v.grouped(0).filter(pred) =~= Seq::new(0, |k: int| Row::Entry(k as usize)));
    } else {
        let k = n - 1;
        let prev = v.grouped(k as nat);
        lemma_grouped_entries(v, k as nat);
        let head = if k == 0 || v.letter(k) != v.letter(k - 1) {
            seq![Row::Header(v.letter(k))]
        } else {
            seq![]
        };
        let last = seq![Row::Entry(k as usize)];
        let g = v.grouped(n);
        assert(g == prev + head + last);
        Seq::filter_distributes_over_add(prev + head, last, pred);
        Seq::filter_distributes_over_add(prev, head, pred);
        reveal_with_fuel(Seq::filter, 2);
        assert(head.filter(pred) =~= Seq::<Row>::empty()) by {
            if head.len() == 1 {
                assert(head.drop_last() =~= Seq::<Row>::empty());
            }
        }
        assert(last.drop_last() =~= Seq::<Row>::empty());
        assert(last.filter(pred) =~= last);
        assert(g.filter(pred) =~= Seq::new(n, |i: int| Row::Entry(i as usize)));
    }
}

/// In the grouped rows each group letter stands right above a result of that letter.
proof fn lemma_grouped_headers(v: LauncherView, n: nat)
    requires
        n <= usize::MAX,
    ensures
        forall|p: int|
            0 <= p < v.grouped(n).len() && (#[trigger] v.grouped(n)[p]) is Header ==> p + 1 < v.grouped(n).len()
                && v.grouped(n)[p + 1] is Entry && v.grouped(n)[p] == Row::Header(
                v.letter(v.grouped(n)[p + 1]->Entry_0 as int),
            ),
    decreases n,
{
    if n > 0 {
        let k = n - 1;
        let prev = v.grouped(k as nat);
        lemma_grouped_headers(v, k as nat);
        lemma_grouped_entries(v, k as nat);
        let g = v.grouped(n);
        if k == 0 || v.letter(k) != v.letter(k - 1) {
            assert(g == prev + seq![Row::Header(v.letter(k))] + seq![Row::Entry(k as usize)]);
            assert(g.len() == prev.len() + 2);
            assert(g[prev.len() as int] == Row::Header(v.letter(k)));
            assert(g[prev.len() as int + 1] == Row::Entry(k as usize));
        } else {
            assert(g == prev + seq![] + seq![Row::Entry(k as usize)]);
            assert(g =~= prev.push(Row::Entry(k as usize)));
        }
        assert forall|p: int| 0 <= p < g.len() && (#[trigger] g[p]) is Header implies p + 1 < g.len()
            && g[p + 1] is Entry && g[p] == Row::Header(v.letter(g[p + 1]->Entry_0 as int)) by {
            if p < prev.len() {
                assert(g[p] == prev[p]);
                assert(p + 1 < prev.len()) by {
                    if p + 1 == prev.len() {
                        assert(prev.last() == Row::Entry((k - 1) as usize));
                    }
                }
                assert(g[p + 1] == prev[p + 1]);
            }
        }
    }
}

/// In the grouped rows, result `k` has its group letter right above it exactly
/// when it is the first result or its letter differs from the previous one's.
proof fn lemma_grouped_letter_above(v: LauncherView, n: nat)
    requires
        n <= usize::MAX,
    ensures
        forall|p: int|
            0 <= p < v.grouped(n).len() && (#[trigger] v.grouped(n)[p]) is Entry ==> ((p > 0 && v.grouped(n)[p - 1]
                == Row::Header(v.letter(v.grouped(n)[p]->Entry_0 as int))) <==> (v.grouped(n)[p]->Entry_0 == 0 || v.letter(
                v.grouped(n)[p]->Entry_0 as int,
            ) != v.letter(v.grouped(n)[p]->Entry_0 - 1))),
        forall|p: int|
            0 <= p < v.grouped(n).len() && (#[trigger] v.grouped(n)[p]) is Entry ==> v.grouped(n)[p]->Entry_0 < n,
    decreases n,
{
    if n > 0 {
        let k = n - 1;
        let prev = v.grouped(k as nat);
        lemma_grouped_letter_above(v, k as nat);
        lemma_grouped_entries(v, k as nat);
        let g = v.grouped(n);
        let cond = k == 0 || v.letter(k) != v.letter(k - 1);
        if cond {
            assert(g == prev + seq![Row::Header(v.letter(k))] + seq![Row::Entry(k as usize)]);
        } else {
            assert(g == prev + seq![] + seq![Row::Entry(k as usize)]);
            assert(g =~= prev.push(Row::Entry(k as usize)));
        }
        assert forall|p: int| 0 <= p < g.len() && (#[trigger] g[p]) is Entry implies g[p]->Entry_0 < n by {
            if p < prev.len() {
                assert(g[p] == prev[p]);
            }
        }
        assert forall|p: int| 0 <= p < g.len() && (#[trigger] g[p]) is Entry implies ((p > 0 && g[p - 1]
            == Row::Header(v.letter(g[p]->Entry_0 as int))) <==> (g[p]->Entry_0 == 0 || v.letter(
            g[p]->Entry_0 as int,
        ) != v.letter(g[p]->Entry_0 - 1))) by {
            let j = g[p]->Entry_0;
            if p < prev.len() {
                assert(g[p] == prev[p]);
                if p > 0 {
                    assert(g[p - 1] == prev[p - 1]);
                }
            } else {
                assert(p == g.len() - 1);
                assert(j == k as usize);
                if !cond {
                    assert(g[p - 1] == prev.last());
                    assert(prev.last() == Row::Entry((k - 1) as usize));
                }
            }
        }
    }
}

/// While browsing, a result has its group letter right above it exactly when
/// it is the first result or its letter differs from the previous result's.
pub proof fn browsing_puts_a_letter_above_each_new_group(v: LauncherView)
    requires
        v.wf(),
        v.browsing(),
    ensures
        forall|p: int|
            0 <= p < v.rows().len() && (#[trigger] v.rows()[p]) is Entry ==> ((p > 0 && v.rows()[p - 1]
                == Row::Header(v.letter(v.rows()[p]->Entry_0 as int))) <==> (v.rows()[p]->Entry_0 == 0 || v.letter(
                v.rows()[p]->Entry_0 as int,
            ) != v.letter(v.rows()[p]->Entry_0 - 1))),
{
    v.lemma_ranked();
    lemma_grouped_letter_above(v, v.result_count());
}

/// While browsing, the rows that show results list every result once, in
/// order, and each group letter stands right above a result filed under it.
pub proof fn browsing_rows_group_results_by_letter(v: LauncherView)
    requires
        v.wf(),
        v.browsing(),
    ensures
        v.rows().filter(|r: Row| is_entry_row(r)) == Seq::new(v.result_count(), |k: int| Row::Entry(k as usize)),
        forall|p: int|
            0 <= p < v.rows().len() && (#[trigger] v.rows()[p]) is Header ==> p + 1 < v.rows().len()
                && v.rows()[p + 1] is Entry && v.rows()[p] == Row::Header(
                v.letter(v.rows()[p + 1]->Entry_0 as int),
            ),
{
    v.lemma_ranked();
    lemma_grouped_entries(v, v.result_count());
    lemma_grouped_headers(v, v.result_count());
}




/// Moving the selection down and then up, or up and then down, comes back to
/// the same state.
pub proof fn next_and_previous_selection_undo_each_other(v: LauncherView)
    requires
        v.entries.len() <= usize::MAX,
        v.selected < v.result_count(),
    ensures
        v.next_selected().prev_selected() == v,
        v.prev_selected().next_selected() == v,
{
    lemma_same_results(v, v.next_selected());
    lemma_same_results(v, v.prev_selected());
    let n = v.result_count() as int;
    v.lemma_matching(v.entries.len());
    crate::launcher::lemma_result_count(v);
    assert(v.next_selected().result_count() == n);
    assert(v.prev_selected().result_count() == n);
    assert((v.selected + 1) % n == if v.selected + 1 == n { 0 } else { v.selected + 1 }) by {
        if v.selected + 1 < n {
            vstd::arithmetic::div_mod::lemma_small_mod((v.selected + 1) as nat, n as nat);
        } else {
            vstd::arithmetic::div_mod::lemma_mod_self_0(n);
        }
    }
    if v.selected == 0 {
        assert(((n - 1) + 1) % n == 0) by {
            vstd::arithmetic::div_mod::lemma_mod_self_0(n);
        }
    } else {
        vstd::arithmetic::div_mod::lemma_small_mod(v.selected as nat, n as nat);
    }
}

/// Typing a character and deleting it again gives back the query, with the
/// selection, hover and scroll reset.
pub proof fn typing_then_deleting_restores_the_query(v: LauncherView, ch: char)
    requires
        !crate::text::is_control_spec(ch),
    ensures
        v.typed(ch).backspaced() == v.with_query(v.query),
{
    assert(v.query.push(ch).drop_last() =~= v.query);
}

/// The window of `size` rows starting at `start` shows row `pos`, or, for a
/// one-row window, the group letter right above it.
pub open spec fn shows_row(rows: Seq<Row>, start: int, size: usize, pos: int) -> bool {
    ||| start <= pos < start + size
    ||| (size == 1 && pos >= 1 && start == pos - 1 && rows[pos - 1] is Header)
}

/// After the selection is brought into a window of `size` rows, the window
/// shows the selected result's row; a one-row window scrolled up to a result
/// shows the group letter above it instead.
pub proof fn scrolling_into_view_shows_the_selection(v: LauncherView, size: usize)
    requires
        v.wf(),
        v.rows().len() > 0,
        size > 0,
    ensures
        ({
            let w = v.scrolled_into_view(size);
            &&& w.rows() == v.rows()
            &&& w.selected_row() == v.selected_row()
            &&& shows_row(w.rows(), w.window_start(size), size, w.selected_row())
        }),
{
    let w = v.scrolled_into_view(size);
    lemma_same_results(v, w);
    crate::launcher::lemma_first_pos(v.rows(), Row::Entry(v.selected_index()));
    v.lemma_rows();
}

/// The pinned applications are launched ones, the most launched first, and
/// no launched application left out was launched more often than a pinned one.
pub proof fn pinned_are_the_most_launched(v: LauncherView, limit: usize)
    requires
        v.wf(),
    ensures
        forall|a: int|
            0 <= a < v.pinned(limit).len() ==> usage_count(
                v.usage,
                v.entries[#[trigger] v.pinned(limit)[a] as int].id@,
            ) > 0,
        forall|a: int, b: int|
            0 <= a < b < v.pinned(limit).len() ==> usage_count(
                v.usage,
                v.entries[#[trigger] v.pinned(limit)[a] as int].id@,
            ) >= usage_count(v.usage, v.entries[#[trigger] v.pinned(limit)[b] as int].id@),
        forall|i: int, a: int|
            0 <= i < v.entries.len() && usage_count(v.usage, v.entries[i].id@) > 0 && !v.pinned(
                limit,
            ).contains(i as usize) && 0 <= a < v.pinned(limit).len() ==> usage_count(
                v.usage,
                #[trigger] v.entries[i].id@,
            ) <= usage_count(v.usage, v.entries[#[trigger] v.pinned(limit)[a] as int].id@),
{
    let u = v.used(v.entries.len());
    let keys = v.used_keys();
    v.lemma_used(v.entries.len());
    lemma_sort_order(keys);
    let o = sort_order(keys);
    let p = v.pinned(limit);
    assert(is_sort_order(keys, o));
    assert forall|a: int| 0 <= a < p.len() implies usage_count(
        v.usage,
        v.entries[#[trigger] p[a] as int].id@,
    ) > 0 by {
        assert(p[a] == u[o[a] as int]);
    }
    assert forall|a: int, b: int| 0 <= a < b < p.len() implies usage_count(
        v.usage,
        v.entries[#[trigger] p[a] as int].id@,
    ) >= usage_count(v.usage, v.entries[#[trigger] p[b] as int].id@) by {
        assert(before(keys, o[a] as int, o[b] as int));
        assert(p[a] == u[o[a] as int]);
        assert(p[b] == u[o[b] as int]);
        assert(keys[o[a] as int] == v.pin_key(u[o[a] as int] as int));
        assert(keys[o[b] as int] == v.pin_key(u[o[b] as int] as int));
    }
    assert forall|i: int, a: int|
        0 <= i < v.entries.len() && usage_count(v.usage, v.entries[i].id@) > 0 && !p.contains(i as usize)
            && 0 <= a < p.len() implies usage_count(v.usage, #[trigger] v.entries[i].id@) <= usage_count(
        v.usage,
        v.entries[#[trigger] p[a] as int].id@,
    ) by {
        assert(u.contains(i as usize));
        let q = choose|q: int| 0 <= q < u.len() && u[q] == i as usize;
        assert(o.contains(q as usize));
        let t = choose|t: int| 0 <= t < o.len() && o[t] == q as usize;
        if t < p.len() {
            assert(p[t] == i as usize);
            assert(p.contains(i as usize));
        }
        assert(a < t);
        assert(before(keys, o[a] as int, o[t] as int));
        assert(p[a] == u[o[a] as int]);
        assert(keys[o[a] as int] == v.pin_key(u[o[a] as int] as int));
        assert(keys[o[t] as int] == v.pin_key(i));
    }
}



/// As many applications are pinned as the limit allows (every launched one
/// when fewer were launched), no one twice; equally launched ones come by
/// lowercase name, and those with the same lowercase name in the order of the
/// entries.
pub proof fn pinned_ties_go_by_name_then_entry_order(v: LauncherView, limit: usize)
    requires
        v.wf(),
    ensures
        v.pinned(limit).len() == if (limit as int) < v.used(v.entries.len()).len() {
            limit as int
        } else {
            v.used(v.entries.len()).len() as int
        },
        forall|a: int| 0 <= a < v.pinned(limit).len() ==> #[trigger] v.pinned(limit)[a] < v.entries.len(),
        forall|a: int, b: int|
            0 <= a < b < v.pinned(limit).len() ==> #[trigger] v.pinned(limit)[a] != #[trigger] v.pinned(
                limit,
            )[b],
        forall|a: int, b: int|
            0 <= a < b < v.pinned(limit).len() && usage_count(
                v.usage,
                v.entries[#[trigger] v.pinned(limit)[a] as int].id@,
            ) == usage_count(v.usage, v.entries[#[trigger] v.pinned(limit)[b] as int].id@) ==> !seq_lt(
                lowercase(v.entries[v.pinned(limit)[b] as int].name@),
                lowercase(v.entries[v.pinned(limit)[a] as int].name@),
            ),
        forall|a: int, b: int|
            0 <= a < b < v.pinned(limit).len() && usage_count(
                v.usage,
                v.entries[#[trigger] v.pinned(limit)[a] as int].id@,
            ) == usage_count(v.usage, v.entries[#[trigger] v.pinned(limit)[b] as int].id@) && lowercase(
                v.entries[v.pinned(limit)[a] as int].name@,
            ) == lowercase(v.entries[v.pinned(limit)[b] as int].name@) ==> v.pinned(limit)[a] < v.pinned(
                limit,
            )[b],
{
    let n = v.entries.len();
    let u = v.used(n);
    let keys = v.used_keys();
    v.lemma_used(n);
    v.lemma_used_increasing(n);
    lemma_sort_order(keys);
    let o = sort_order(keys);
    let p = v.pinned(limit);
    assert(is_sort_order(keys, o));
    assert forall|a: int| 0 <= a < p.len() implies #[trigger] p[a] < v.entries.len() by {
        assert(p[a] == u[o[a] as int]);
    }
    assert forall|a: int, b: int| 0 <= a < b < p.len() implies {
        &&& before(keys, o[a] as int, o[b] as int)
        &&& p[a] == u[o[a] as int]
        &&& p[b] == u[o[b] as int]
        &&& keys[o[a] as int] == v.pin_key(p[a] as int)
        &&& keys[o[b] as int] == v.pin_key(p[b] as int)
        &&& o[a] != o[b]
    } by {
        assert(p[a] == u[o[a] as int]);
        assert(p[b] == u[o[b] as int]);
        if o[a] == o[b] {
            crate::order::lemma_before_irreflexive(keys, o[a] as int);
        }
    }
    assert forall|a: int, b: int| 0 <= a < b < p.len() implies #[trigger] p[a] != #[trigger] p[b] by {
        let (x, y) = (o[a] as int, o[b] as int);
        if x < y {
            assert(u[x] < u[y]);
        } else {
            assert(u[y] < u[x]);
        }
    }
    assert forall|a: int, b: int|
        0 <= a < b < p.len() && usage_count(v.usage, v.entries[#[trigger] p[a] as int].id@) == usage_count(
            v.usage,
            v.entries[#[trigger] p[b] as int].id@,
        ) implies !seq_lt(lowercase(v.entries[p[b] as int].name@), lowercase(v.entries[p[a] as int].name@))
        && (lowercase(v.entries[p[a] as int].name@) == lowercase(v.entries[p[b] as int].name@) ==> p[a]
        < p[b]) by {
        let na = lowercase(v.entries[p[a] as int].name@);
        let nb = lowercase(v.entries[p[b] as int].name@);
        lemma_seq_lt_irreflexive(na);
        if seq_lt(nb, na) && seq_lt(na, nb) {
            lemma_seq_lt_transitive(na, nb, na);
        }
        if na == nb {
            assert(!key_lt(keys[o[a] as int], keys[o[b] as int]));
            assert(o[a] < o[b]);
            assert(u[o[a] as int] < u[o[b] as int]);
        }
    }
}

/// After the selection moves or the query changes, the window of rows the
/// list shows holds the selected result's row (a one-row window scrolled up to
/// a result shows the group letter above it instead).
pub proof fn moving_or_typing_keeps_the_selection_in_view(m: ModelView, msg: Msg)
    requires
        m.wf(),
        msg is SelectNext || msg is SelectPrev || msg is Type || msg is Backspace,
    ensures
        ({
            let n = m.step(msg).0;
            let size = n.visible_rows();
            n.launcher.rows().len() > 0 && size > 0 ==> shows_row(
                n.launcher.rows(),
                n.launcher.window_start(size),
                size,
                n.launcher.selected_row(),
            )
        }),
{
    let m1 = match msg {
        Msg::Type(_) => ModelView { search_focused: true, caret_visible: true, ..m },
        Msg::Backspace => ModelView { search_focused: true, caret_visible: true, ..m },
        _ => m,
    };
    let l = match msg {
        Msg::Type(ch) => m.launcher.typed(ch),
        Msg::Backspace => m.launcher.backspaced(),
        Msg::SelectNext => m.launcher.next_selected(),
        _ => m.launcher.prev_selected(),
    };
    m.launcher.lemma_ranked();
    if msg is SelectNext || msg is SelectPrev {
        crate::launcher::lemma_same_count(m.launcher, l);
    }
    assert(l.wf());
    let mid = m1.with_launcher(l);
    let size0 = mid.visible_rows();
    let l2 = l.scrolled_into_view(size0);
    let n = mid.with_launcher(l2);
    assert(m.step(msg).0 == n);
    lemma_same_pinned(l, l2, crate::style::pins::MAX);
    assert(n.visible_rows() == size0);
    if l2.rows().len() > 0 && size0 > 0 {
        lemma_same_results(l, l2);
        scrolling_into_view_shows_the_selection(l, size0);
    }
}

/// A row that occurs in `rows` has a first position.
proof fn lemma_first_pos_some(rows: Seq<Row>, r: Row)
    requires
        rows.contains(r),
    ensures
        crate::launcher::first_pos(rows, r) is Some,
    decreases rows.len(),
{
    if rows[0] != r {
        let i = choose|i: int| 0 <= i < rows.len() && rows[i] == r;
        assert(rows.drop_first()[i - 1] == r);
        lemma_first_pos_some(rows.drop_first(), r);
    }
}

/// Every result has a row in the list.
proof fn lemma_results_have_rows(v: LauncherView, k: int)
    requires
        v.wf(),
        0 <= k < v.result_count(),
    ensures
        v.rows().contains(Row::Entry(k as usize)),
{
    v.lemma_ranked();
    if v.browsing() {
        lemma_grouped_entries(v, v.result_count());
        let pred = |r: Row| is_entry_row(r);
        let f = v.rows().filter(pred);
        assert(f[k] == Row::Entry(k as usize));
        assert(f.contains(Row::Entry(k as usize)));
        v.rows().lemma_filter_contains_rev(pred, Row::Entry(k as usize));
    } else {
        assert(v.rows()[k] == Row::Entry(k as usize));
    }
}

/// After the selection is brought into a window of at least two rows, the
/// window shows the selected result; and when that scrolled up onto a result
/// whose group letter is right above it, the letter is shown too.
pub proof fn scrolling_shows_the_selected_result(v: LauncherView, size: usize)
    requires
        v.wf(),
        v.result_count() > 0,
        size >= 2,
    ensures
        ({
            let w = v.scrolled_into_view(size);
            &&& w.selected_index() == v.selected_index()
            &&& exists|k: int| 0 <= k < w.window(size).len() && w.window(size)[k] == Row::Entry(w.selected_index())
            &&& (v.selected_row() < v.scroll_offset && v.selected_row() > 0 && v.rows()[v.selected_row() - 1] is Header
                ==> w.window_start(size) <= v.selected_row() - 1)
        }),
{
    let w = v.scrolled_into_view(size);
    lemma_same_results(v, w);
    let s = v.selected_index();
    lemma_results_have_rows(v, s as int);
    lemma_first_pos_some(v.rows(), Row::Entry(s));
    crate::launcher::lemma_first_pos(v.rows(), Row::Entry(s));
    scrolling_into_view_shows_the_selection(v, size);
    let pos = w.selected_row();
    let start = w.window_start(size);
    assert(w.window(size)[pos - start] == Row::Entry(s));
}

/// The event that moves the selection down (`next`) or up.
pub open spec fn move_msg(next: bool) -> Msg {
    if next {
        Msg::SelectNext
    } else {
        Msg::SelectPrev
    }
}

/// The launcher state after moving the selection down (`next`) or up.
pub open spec fn moved(v: LauncherView, next: bool) -> LauncherView {
    if next {
        v.next_selected()
    } else {
        v.prev_selected()
    }
}

proof fn lemma_moved(v: LauncherView, next: bool)
    requires
        v.wf(),
        v.result_count() > 0,
    ensures
        moved(v, next).wf(),
        moved(v, next).result_count() == v.result_count(),
        moved(v, next).query == v.query,
        moved(v, next).selected_index() == (if next {
            (v.selected_index() + 1) % (v.result_count() as int)
        } else {
            (v.selected_index() + v.result_count() - 1) % (v.result_count() as int)
        }),
        v.result_count() > 1 ==> moved(v, next).selected != v.selected,
{
    let l = moved(v, next);
    let c = v.result_count() as int;
    let s = v.selected as int;
    v.lemma_ranked();
    crate::launcher::lemma_same_count(v, l);
    assert(s < c);
    if next {
        if s + 1 < c {
            vstd::arithmetic::div_mod::lemma_small_mod((s + 1) as nat, c as nat);
        } else {
            vstd::arithmetic::div_mod::lemma_mod_self_0(c);
        }
    } else {
        if s == 0 {
            vstd::arithmetic::div_mod::lemma_small_mod((c - 1) as nat, c as nat);
        } else {
            vstd::arithmetic::div_mod::lemma_mod_add_multiples_vanish(s - 1, c);
            vstd::arithmetic::div_mod::lemma_small_mod((s - 1) as nat, c as nat);
        }
    }
}

/// Moving the selection down or up, with results to move through, selects the
/// next or the previous result (wrapping around), leaves the query alone,
/// redraws when there is more than one result, and shows the selected result
/// in a list window of at least two rows.
pub proof fn moving_the_selection_selects_and_shows_the_neighbour(m: ModelView, next: bool)
    requires
        m.wf(),
        m.launcher.result_count() > 0,
    ensures
        ({
            let (n, cmds) = m.step(move_msg(next));
            let c = m.launcher.result_count() as int;
            let s = m.launcher.selected_index() as int;
            &&& n.launcher.selected_index() == (if next {
                (s + 1) % c
            } else {
                (s + c - 1) % c
            })
            &&& n.launcher.query == m.launcher.query
            &&& n.launcher.result_count() == c
            &&& c > 1 ==> cmds == seq![Cmd::Redraw]
            &&& n.visible_rows() >= 2 ==> exists|k: int|
                0 <= k < n.launcher.window(n.visible_rows()).len() && n.launcher.window(n.visible_rows())[k]
                    == Row::Entry(n.launcher.selected_index())
        }),
{
    let msg = move_msg(next);
    let l = moved(m.launcher, next);
    lemma_moved(m.launcher, next);
    let mid = m.with_launcher(l);
    let size0 = mid.visible_rows();
    let l2 = l.scrolled_into_view(size0);
    let n = mid.with_launcher(l2);
    assert(m.step(msg) == mid.settle(l, l.selected != m.launcher.selected));
    assert(m.step(msg).0 == n);
    crate::launcher::lemma_same_count(l, l2);
    lemma_same_pinned(l, l2, crate::style::pins::MAX);
    assert(n.visible_rows() == size0);
    if size0 >= 2 {
        scrolling_shows_the_selected_result(l, size0);
    }
}

/// Bringing the selection into a window of `size` rows moves the window as
/// little as possible: a selected row below the window becomes its last row;
/// one above it becomes its first (its group letter does when that is the row
/// right above), unless that would leave the list's end short of a full
/// window; and one already between the offset and the window's end leaves the
/// window where it is.
pub proof fn scrolling_moves_the_window_as_little_as_possible(v: LauncherView, size: usize)
    requires
        v.wf(),
        v.result_count() > 0,
        size > 0,
    ensures
        ({
            let rows = v.rows();
            let count = rows.len() as int;
            let pos = v.selected_row();
            let w = v.scrolled_into_view(size);
            let last_start = if count > size { count - size } else { 0 };
            let top = if pos > 0 && rows[pos - 1] is Header { pos - 1 } else { pos };
            &&& w.rows() == rows
            &&& 0 <= pos < count
            &&& rows[pos] == Row::Entry(v.selected_index())
            &&& pos >= v.scroll_offset + size ==> w.scroll_offset == pos + 1 - size && w.window_start(size)
                == pos + 1 - size
            &&& pos < v.scroll_offset ==> w.scroll_offset == (if top < last_start { top } else { last_start })
                && w.window_start(size) == w.scroll_offset
            &&& v.scroll_offset <= pos < v.scroll_offset + size ==> w.window_start(size) == v.window_start(size)
        }),
{
    let w = v.scrolled_into_view(size);
    lemma_same_results(v, w);
    let s = v.selected_index();
    lemma_results_have_rows(v, s as int);
    lemma_first_pos_some(v.rows(), Row::Entry(s));
    crate::launcher::lemma_first_pos(v.rows(), Row::Entry(s));
    v.lemma_rows();
}

/// A press on pinned tile `i` (off the search field) launches that tile's
/// application, the `i`-th of the pinned ones, and exits.
pub proof fn pressing_a_tile_launches_its_application(m: ModelView, i: usize, x: i64, y: i64)
    requires
        i < m.launcher.pinned(crate::style::pins::MAX).len(),
        crate::layout::rect_contains(crate::layout::pin_rect_spec(m.layout(), i), x as int, y as int),
        !crate::layout::rect_contains(
            (
                m.layout().search.x as int,
                m.layout().search.y as int,
                m.layout().search.w as int,
                m.layout().search.h as int,
            ),
            x as int,
            y as int,
        ),
    ensures
        m.step(Msg::PointerPressedAt { x, y }).1 == seq![
            Cmd::Launch(m.launcher.entries[m.launcher.pinned(crate::style::pins::MAX)[i as int] as int]),
            Cmd::Exit,
        ],
{
    let count = m.launcher.pinned(crate::style::pins::MAX).len() as usize;
    assert(m.layout().pins.h > 0);
    crate::layout::pin_at_finds_the_tile_under_the_point(m.layout(), count, i, x as int, y as int);
    assert(m.hovered_tile(x as int, y as int) == Some(i));
}

/// A press on a row of the list that shows a result (the search field and the
/// pinned tiles lie above the list) selects that result, launches it and exits.
pub proof fn pressing_a_result_row_launches_that_result(m: ModelView, r: usize, k: usize, x: i64, y: i64)
    requires
        m.wf(),
        r < m.visible_rows(),
        r < m.launcher.window(m.visible_rows()).len(),
        m.launcher.window(m.visible_rows())[r as int] == Row::Entry(k),
        crate::layout::rect_contains(crate::layout::row_rect_spec(m.layout(), r), x as int, y as int),
    ensures
        k < m.launcher.result_count(),
        m.step(Msg::PointerPressedAt { x, y }).0.launcher.selected_index() == k,
        m.step(Msg::PointerPressedAt { x, y }).1 == seq![
            Cmd::Launch(m.launcher.entries[m.launcher.ranked()[k as int] as int]),
            Cmd::Exit,
        ],
{
    let v = m.launcher;
    let l = m.layout();
    let pc = v.pinned(crate::style::pins::MAX).len() as usize;
    let size = m.visible_rows();
    crate::layout::lemma_layout_fits(m.logical_width, m.logical_height, m.preferred_width, m.preferred_height, pc);
    crate::layout::lemma_list_below_search_and_tiles(
        m.logical_width,
        m.logical_height,
        m.preferred_width,
        m.preferred_height,
        pc,
    );
    let rows = v.window(size).len() as usize;
    assert((r as i32) as int == r);
    crate::layout::row_at_finds_the_row_under_the_point(l, rows, r, x as int, y as int);
    crate::layout::lemma_no_tile_below_the_strip(l, x as int, y as int, pc);
    assert(v.entry_at_row(r, size) == Some(k));
    assert(m.hovered_result(x as int, y as int) == Some(k));
    assert(m.hovered_tile(x as int, y as int) is None);
    v.lemma_rows();
    let start = v.window_start(size);
    assert(v.window(size)[r as int] == v.rows()[start + r]);
    if v.browsing() {
        lemma_grouped_letter_above(v, v.result_count());
    }
    assert(k < v.result_count());
    let w = v.index_selected(k);
    lemma_same_results(v, w);
}

/// A search lists the applications that match it: every result matches the
/// query, and when no more than `max_results` match, every matching
/// application is listed.
pub proof fn searching_lists_the_matching_applications(v: LauncherView)
    requires
        v.entries.len() <= usize::MAX,
        !v.browsing(),
    ensures
        forall|p: int|
            0 <= p < v.result_count() ==> rank_spec(v.entries[#[trigger] v.ranked()[p] as int], v.query) is Some,
        v.candidates().len() <= v.max_results ==> forall|i: int|
            0 <= i < v.entries.len() && rank_spec(#[trigger] v.entries[i], v.query) is Some ==> v.ranked().contains(
                i as usize,
            ),
{
    let c = v.candidates();
    let keys = v.candidate_keys();
    v.lemma_matching(v.entries.len());
    lemma_sort_order(keys);
    let o = sort_order(keys);
    assert(is_sort_order(keys, o));
    assert forall|p: int| 0 <= p < v.result_count() implies rank_spec(
        v.entries[#[trigger] v.ranked()[p] as int],
        v.query,
    ) is Some by {
        assert(v.ranked()[p] == c[o[p] as int]);
    }
    if c.len() <= v.max_results {
        assert forall|i: int| 0 <= i < v.entries.len() && rank_spec(#[trigger] v.entries[i], v.query) is Some implies v.ranked().contains(
            i as usize,
        ) by {
            assert(c.contains(i as usize));
            let q = choose|q: int| 0 <= q < c.len() && c[q] == i as usize;
            assert(o.contains(q as usize));
            let t = choose|t: int| 0 <= t < o.len() && o[t] == q as usize;
            assert(v.ranked()[t] == i as usize);
        }
    }
}

/// A press on the search field focuses it; on its clear button (with a
/// margin of 4 pixels) while a query is typed, it also empties the query and
/// brings the selection, hover and scroll back to the top, and redraws.
pub proof fn pressing_the_search_field_focuses_it(m: ModelView, x: i64, y: i64)
    requires
        crate::layout::rect_contains(
            (
                m.layout().search.x as int,
                m.layout().search.y as int,
                m.layout().search.w as int,
                m.layout().search.h as int,
            ),
            x as int,
            y as int,
        ),
    ensures
        m.step(Msg::PointerPressedAt { x, y }).0.search_focused,
        m.step(Msg::PointerPressedAt { x, y }).0.launcher.entries == m.launcher.entries,
        ({
            let (cx, cy, cw, ch) = crate::layout::clear_rect_spec(m.layout());
            let on_clear = m.launcher.query.len() > 0 && cx - 4 <= x < cx + cw + 4 && cy - 4 <= y < cy + ch + 4;
            let n = m.step(Msg::PointerPressedAt { x, y });
            &&& on_clear ==> n.0.launcher.query.len() == 0 && n.0.launcher.selected == 0
                && n.0.launcher.hovered is None && n.0.launcher.scroll_offset == 0 && n.1 == seq![Cmd::Redraw]
            &&& !on_clear ==> n.0.launcher == m.launcher
        }),
{
}

} // verus!
