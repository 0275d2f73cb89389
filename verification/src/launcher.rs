//! The launcher's state: the applications, the query, the selection, and the
//! ordered list of results shown for the query.
use vstd::prelude::*;
use crate::entry::{rank_spec, DesktopEntry};
use crate::order::{is_sort_order, key_views, sort_order, sort_positions, SortKey};
use crate::text::{
    char_lower, char_upper, chars_of, is_alphabetic, is_alphanumeric, is_control_spec, lowercase,
    to_lowercase, trim, trim_chars, unicode_alphabetic, unicode_alphanumeric, upper_char,
};
use crate::usage::{usage_count, UsageStats};

verus! {

/// Frequent use moves a result up by at most this much, less than the gap
/// between two rank tiers (10): it reorders results within a tier but never
/// lets a weaker match beat an exact or prefix one.
pub const USAGE_BOOST_CAP: u32 = 9;

/// A row of the result list: a letter separating groups, or an application.
#[derive(Debug, Clone, Copy)]
pub enum ListItem<'a> {
    Header(char),
    Entry { index: usize, entry: &'a DesktopEntry },
}

/// What a row of the result list shows: a group letter, or the result at a
/// position of the ranked results.
#[derive(Debug, Clone, Copy, PartialEq, Eq)]
pub enum Row {
    Header(char),
    Entry(usize),
}

/// The first alphanumeric character of `s`.
pub open spec fn first_alphanumeric(s: Seq<char>) -> Option<char>
    decreases s.len(),
{
    if s.len() == 0 {
        None
    } else if unicode_alphanumeric(s[0]) {
        Some(s[0])
    } else {
        first_alphanumeric(s.drop_first())
    }
}

/// The letter a name is grouped under: its first alphanumeric character in
/// uppercase if that character is alphabetic, `#` otherwise.
pub open spec fn group_letter_spec(name: Seq<char>) -> char {
    match first_alphanumeric(name) {
        Some(c) => if unicode_alphabetic(c) {
            char_upper(c)
        } else {
            '#'
        },
        None => '#',
    }
}

/// The smaller of two numbers.
pub open spec fn min_nat(a: int, b: int) -> int {
    if a <= b {
        a
    } else {
        b
    }
}

/// `a - b`, or 0 when `b > a`.
pub open spec fn sat_sub(a: int, b: int) -> int {
    if a >= b {
        a - b
    } else {
        0
    }
}

/// The first position of `r` in `rows`.
pub open spec fn first_pos(rows: Seq<Row>, r: Row) -> Option<nat>
    decreases rows.len(),
{
    if rows.len() == 0 {
        None
    } else if rows[0] == r {
        Some(0)
    } else {
        match first_pos(rows.drop_first(), r) {
            Some(i) => Some(i + 1),
            None => None,
        }
    }
}

/// One past the largest result shown among `rows` (0 when none is).
pub open spec fn shown_through(rows: Seq<Row>) -> nat
    decreases rows.len(),
{
    if rows.len() == 0 {
        0
    } else {
        let rest = shown_through(rows.drop_last());
        match rows.last() {
            Row::Entry(k) => if k + 1 > rest {
                (k + 1) as nat
            } else {
                rest
            },
            Row::Header(_) => rest,
        }
    }
}

/// The launcher's state, seen as values.
pub struct LauncherView {
    pub entries: Seq<DesktopEntry>,
    pub query: Seq<char>,
    pub selected: usize,
    pub hovered: Option<usize>,
    pub max_results: usize,
    pub scroll_offset: usize,
    pub usage: Map<Seq<char>, u32>,
}

impl LauncherView {
    /// The bounds every launcher keeps: at least one result may be shown, the
    /// selection is one of the results (or 0 when there are none), and the list
    /// of applications is far below the machine's limit (a `Vec` of entries
    /// cannot come near it).
    pub open spec fn wf(self) -> bool {
        &&& self.max_results >= 1
        &&& (self.selected < self.result_count() || self.selected == 0)
        &&& self.selected <= self.entries.len()
        &&& self.entries.len() <= usize::MAX / 4
    }

    /// No query is being typed (only whitespace): the list is browsed alphabetically.
    pub open spec fn browsing(self) -> bool {
        trim(self.query).len() == 0
    }

    /// How far frequent use moves application `i` up: nothing while browsing,
    /// else its launch count capped at `USAGE_BOOST_CAP`.
    pub open spec fn boost(self, i: int) -> int {
        if self.browsing() {
            0
        } else {
            min_nat(usage_count(self.usage, self.entries[i].id@) as int, USAGE_BOOST_CAP as int)
        }
    }

    /// The applications among the first `k` that match the query, in order.
    pub open spec fn matching(self, k: nat) -> Seq<usize>
        decreases k,
    {
        if k == 0 {
            seq![]
        } else if rank_spec(self.entries[k - 1], self.query) is Some {
            self.matching((k - 1) as nat).push((k - 1) as usize)
        } else {
            self.matching((k - 1) as nat)
        }
    }

    /// The applications that match the query, in order.
    pub open spec fn candidates(self) -> Seq<usize> {
        self.matching(self.entries.len())
    }

    /// The key a matching application is ordered by: its rank less its boost,
    /// then its lowercase name.
    pub open spec fn result_key(self, i: int) -> (int, Seq<char>) {
        let r = match rank_spec(self.entries[i], self.query) {
            Some(r) => r as int,
            None => 0,
        };
        (r - self.boost(i), lowercase(self.entries[i].name@))
    }

    /// The keys of the candidates, in candidate order.
    pub open spec fn candidate_keys(self) -> Seq<(int, Seq<char>)> {
        self.candidates().map_values(|i: usize| self.result_key(i as int))
    }

    /// How many of `n` ordered candidates are results: all of them while
    /// browsing (the complete list), at most `max_results` while searching.
    pub open spec fn result_limit(self, n: nat) -> nat {
        if self.browsing() {
            n
        } else {
            min_nat(self.max_results as int, n as int) as nat
        }
    }

    /// The results: the candidates in increasing key order (equal keys keep
    /// the order of the applications); every one while browsing, at most
    /// `max_results` of them while searching.
    pub open spec fn ranked(self) -> Seq<usize> {
        let c = self.candidates();
        let sorted = sort_order(self.candidate_keys()).map_values(|p: usize| c[p as int]);
        sorted.take(self.result_limit(sorted.len()) as int)
    }

    /// The number of results.
    pub open spec fn result_count(self) -> nat {
        self.ranked().len()
    }

    /// The selected result, kept within the results.
    pub open spec fn selected_index(self) -> usize {
        min_nat(self.selected as int, sat_sub(self.result_count() as int, 1)) as usize
    }

    /// The group letter of result `k`.
    pub open spec fn letter(self, k: int) -> char {
        group_letter_spec(self.entries[self.ranked()[k] as int].name@)
    }

    /// The rows for the first `n` results when browsing: each result, preceded
    /// by its group letter when that letter differs from the previous result's.
    pub open spec fn grouped(self, n: nat) -> Seq<Row>
        decreases n,
    {
        if n == 0 {
            seq![]
        } else {
            let k = n - 1;
            let head = if k == 0 || self.letter(k) != self.letter(k - 1) {
                seq![Row::Header(self.letter(k))]
            } else {
                seq![]
            };
            self.grouped(k as nat) + head + seq![Row::Entry(k as usize)]
        }
    }

    /// The rows of the list: grouped by letter while browsing, one row per
    /// result while searching.
    pub open spec fn rows(self) -> Seq<Row> {
        if self.browsing() {
            self.grouped(self.result_count())
        } else {
            Seq::new(self.result_count(), |k: int| Row::Entry(k as usize))
        }
    }

    /// The first row shown in a window of `size` rows.
    pub open spec fn window_start(self, size: usize) -> int {
        let count = self.rows().len() as int;
        let s = min_nat(self.scroll_offset as int, sat_sub(count, 1));
        min_nat(s, sat_sub(count, size as int))
    }

    /// The rows shown in a window of `size` rows.
    pub open spec fn window(self, size: usize) -> Seq<Row> {
        let rows = self.rows();
        if rows.len() == 0 || size == 0 {
            seq![]
        } else {
            let start = self.window_start(size);
            rows.subrange(start, min_nat(start + size, rows.len() as int))
        }
    }

    /// The row that holds the selected result (0 if none does).
    pub open spec fn selected_row(self) -> int {
        match first_pos(self.rows(), Row::Entry(self.selected_index())) {
            Some(p) => p as int,
            None => 0,
        }
    }

    /// Bringing the selected row into a window of `size` rows would add the
    /// scroll offset and `size` past `usize::MAX`.
    pub open spec fn scroll_overflows(self, size: usize) -> bool {
        &&& self.rows().len() > 0
        &&& size > 0
        &&& self.selected_row() >= self.scroll_offset
        &&& self.scroll_offset + size > usize::MAX
    }

    /// The scroll offset after bringing the selected row into a window of
    /// `size` rows: scrolled up to it (to its group letter when that is the row
    /// above), or down just enough, and never past the last full window.
    pub open spec fn scrolled(self, size: usize) -> usize {
        let rows = self.rows();
        let count = rows.len() as int;
        if count == 0 || size == 0 {
            0
        } else {
            let pos = self.selected_row();
            let header_above = pos > 0 && rows[pos - 1] is Header;
            let s = if pos < self.scroll_offset {
                if header_above {
                    pos - 1
                } else {
                    pos
                }
            } else if pos >= self.scroll_offset + size {
                pos + 1 - size
            } else {
                self.scroll_offset as int
            };
            min_nat(s, sat_sub(count, size as int)) as usize
        }
    }

    /// The state with a new query and the selection, hover and scroll reset.
    pub open spec fn with_query(self, query: Seq<char>) -> LauncherView {
        LauncherView { query, selected: 0, hovered: None, scroll_offset: 0, ..self }
    }


    /// The state after typing `ch`: control characters change nothing.
    pub open spec fn typed(self, ch: char) -> LauncherView {
        if is_control_spec(ch) {
            self
        } else {
            self.with_query(self.query.push(ch))
        }
    }

    /// The state after deleting the last character of the query.
    pub open spec fn backspaced(self) -> LauncherView {
        if self.query.len() == 0 {
            self
        } else {
            self.with_query(self.query.drop_last())
        }
    }

    /// The state after clearing the query.
    pub open spec fn cleared(self) -> LauncherView {
        if self.query.len() == 0 {
            self
        } else {
            self.with_query(Seq::empty())
        }
    }

    /// The state after selecting the next result (wrapping around).
    pub open spec fn next_selected(self) -> LauncherView {
        if self.result_count() == 0 {
            self
        } else {
            LauncherView { selected: ((self.selected + 1) % (self.result_count() as int)) as usize, ..self }
        }
    }

    /// The state after selecting the previous result (wrapping around).
    pub open spec fn prev_selected(self) -> LauncherView {
        if self.result_count() == 0 {
            self
        } else {
            LauncherView {
                selected: if self.selected == 0 {
                    (self.result_count() - 1) as usize
                } else {
                    (self.selected - 1) as usize
                },
                ..self
            }
        }
    }

    /// The state after selecting result `index` (nothing changes past the results).
    pub open spec fn index_selected(self, index: usize) -> LauncherView {
        if index >= self.result_count() {
            self
        } else {
            LauncherView { selected: index, ..self }
        }
    }

    /// The state after marking result `index` as hovered (cleared past the results).
    pub open spec fn hovered_at(self, index: Option<usize>) -> LauncherView {
        LauncherView {
            hovered: match index {
                Some(i) => if i < self.result_count() {
                    Some(i)
                } else {
                    None
                },
                None => None,
            },
            ..self
        }
    }

    /// The state after bringing the selected row into a window of `size` rows.
    pub open spec fn scrolled_into_view(self, size: usize) -> LauncherView {
        LauncherView { scroll_offset: self.scrolled(size), ..self }
    }

    /// The result shown at row `row` of a window of `size` rows, if that row shows one.
    pub open spec fn entry_at_row(self, row: usize, size: usize) -> Option<usize> {
        if row < self.window(size).len() {
            match self.window(size)[row as int] {
                Row::Entry(k) => Some(k),
                Row::Header(_) => None,
            }
        } else {
            None
        }
    }

    /// The selected result's entry, if there are results.
    pub open spec fn selected_entry(self) -> Option<DesktopEntry> {
        if self.selected_index() < self.result_count() {
            Some(self.entries[self.ranked()[self.selected_index() as int] as int])
        } else {
            None
        }
    }

    /// Pinned application `index`'s entry, if there is one.
    pub open spec fn pinned_entry(self, index: usize, limit: usize) -> Option<DesktopEntry> {
        if index < self.pinned(limit).len() {
            Some(self.entries[self.pinned(limit)[index as int] as int])
        } else {
            None
        }
    }

    /// The applications among the first `k` launched at least once, in order.
    pub open spec fn used(self, k: nat) -> Seq<usize>
        decreases k,
    {
        if k == 0 {
            seq![]
        } else if usage_count(self.usage, self.entries[k - 1].id@) > 0 {
            self.used((k - 1) as nat).push((k - 1) as usize)
        } else {
            self.used((k - 1) as nat)
        }
    }

    /// The key a used application is ordered by among the pinned ones: more
    /// launches first, then its lowercase name.
    pub open spec fn pin_key(self, i: int) -> (int, Seq<char>) {
        (-(usage_count(self.usage, self.entries[i].id@) as int), lowercase(self.entries[i].name@))
    }

    /// The keys of the used applications, in order.
    pub open spec fn used_keys(self) -> Seq<(int, Seq<char>)> {
        self.used(self.entries.len()).map_values(|i: usize| self.pin_key(i as int))
    }

    /// The pinned applications: the `limit` most launched ones (launched at
    /// least once), most launched first, ties by name, then by order.
    pub open spec fn pinned(self, limit: usize) -> Seq<usize> {
        let u = self.used(self.entries.len());
        let sorted = sort_order(self.used_keys()).map_values(|p: usize| u[p as int]);
        sorted.take(min_nat(limit as int, sorted.len() as int))
    }
}


pub proof fn lemma_first_pos_at(rows: Seq<Row>, r: Row, i: int)
    requires
        0 <= i <= rows.len(),
        forall|j: int| 0 <= j < i ==> rows[j] != r,
        i < rows.len() ==> rows[i] == r,
    ensures
        i < rows.len() ==> first_pos(rows, r) == Some(i as nat),
        i == rows.len() ==> first_pos(rows, r) is None,
    decreases i,
{
    if i > 0 {
        lemma_first_pos_at(rows.drop_first(), r, i - 1);
    }
}

pub proof fn lemma_first_pos(rows: Seq<Row>, r: Row)
    ensures
        first_pos(rows, r) matches Some(i) ==> i < rows.len() && rows[i as int] == r,
    decreases rows.len(),
{
    if rows.len() > 0 {
        lemma_first_pos(rows.drop_first(), r);
    }
}

impl LauncherView {
    pub proof fn lemma_matching(self, k: nat)
        requires
            k <= self.entries.len(),
            self.entries.len() <= usize::MAX,
        ensures
            self.matching(k).len() <= k,
            forall|j: int| 0 <= j < self.matching(k).len() ==> #[trigger] self.matching(k)[j] < k,
            forall|j: int|
                0 <= j < self.matching(k).len() ==> rank_spec(
                    self.entries[#[trigger] self.matching(k)[j] as int],
                    self.query,
                ) is Some,
            forall|i: int|
                0 <= i < k && rank_spec(self.entries[i], self.query) is Some ==> #[trigger] self.matching(
                    k,
                ).contains(i as usize),
        decreases k,
    {
        if k > 0 {
            let prev = self.matching((k - 1) as nat);
            self.lemma_matching((k - 1) as nat);
            if rank_spec(self.entries[k - 1], self.query) is Some {
                let cur = prev.push((k - 1) as usize);
                assert forall|j: int| 0 <= j < cur.len() implies rank_spec(
                    self.entries[#[trigger] cur[j] as int],
                    self.query,
                ) is Some by {
                    if j < prev.len() {
                        assert(cur[j] == prev[j]);
                        assert(rank_spec(self.entries[prev[j] as int], self.query) is Some);
                    } else {
                        assert(cur[j] == (k - 1) as usize);
                    }
                }
                assert forall|i: int|
                    0 <= i < k && rank_spec(self.entries[i], self.query) is Some implies #[trigger] cur.contains(
                    i as usize) by {
                    if i < k - 1 {
                        assert(prev.contains(i as usize));
                        let w = choose|w: int| 0 <= w < prev.len() && prev[w] == i as usize;
                        assert(cur[w] == i as usize);
                    } else {
                        assert(cur[prev.len() as int] == i as usize);
                    }
                }
            }
        }
    }

    /// The used applications are listed in the order of the entries.
    pub proof fn lemma_used_increasing(self, k: nat)
        requires
            k <= self.entries.len(),
            self.entries.len() <= usize::MAX,
        ensures
            forall|a: int, b: int|
                0 <= a < b < self.used(k).len() ==> #[trigger] self.used(k)[a] < #[trigger] self.used(
                    k,
                )[b],
        decreases k,
    {
        if k > 0 {
            let prev = self.used((k - 1) as nat);
            self.lemma_used((k - 1) as nat);
            self.lemma_used_increasing((k - 1) as nat);
            if usage_count(self.usage, self.entries[k - 1].id@) > 0 {
                let cur = prev.push((k - 1) as usize);
                assert forall|a: int, b: int| 0 <= a < b < cur.len() implies #[trigger] cur[a] < #[trigger] cur[b] by {
                    assert(cur[a] == prev[a]);
                    if b < prev.len() {
                        assert(cur[b] == prev[b]);
                    }
                }
            }
        }
    }

    pub proof fn lemma_used(self, k: nat)
        requires
            k <= self.entries.len(),
            self.entries.len() <= usize::MAX,
        ensures
            self.used(k).len() <= k,
            forall|j: int| 0 <= j < self.used(k).len() ==> #[trigger] self.used(k)[j] < k,
            forall|j: int|
                0 <= j < self.used(k).len() ==> usage_count(
                    self.usage,
                    self.entries[#[trigger] self.used(k)[j] as int].id@,
                ) > 0,
            forall|i: int|
                0 <= i < k && usage_count(self.usage, self.entries[i].id@) > 0 ==> #[trigger] self.used(
                    k,
                ).contains(i as usize),
        decreases k,
    {
        if k > 0 {
            let prev = self.used((k - 1) as nat);
            self.lemma_used((k - 1) as nat);
            if usage_count(self.usage, self.entries[k - 1].id@) > 0 {
                let cur = prev.push((k - 1) as usize);
                assert forall|j: int| 0 <= j < cur.len() implies usage_count(
                    self.usage,
                    self.entries[#[trigger] cur[j] as int].id@,
                ) > 0 by {
                    if j < prev.len() {
                        assert(cur[j] == prev[j]);
                        assert(usage_count(self.usage, self.entries[prev[j] as int].id@) > 0);
                    } else {
                        assert(cur[j] == (k - 1) as usize);
                    }
                }
                assert forall|i: int|
                    0 <= i < k && usage_count(self.usage, self.entries[i].id@) > 0 implies #[trigger] cur.contains(
                    i as usize) by {
                    if i < k - 1 {
                        assert(prev.contains(i as usize));
                        let w = choose|w: int| 0 <= w < prev.len() && prev[w] == i as usize;
                        assert(cur[w] == i as usize);
                    } else {
                        assert(cur[prev.len() as int] == i as usize);
                    }
                }
            }
        }
    }

    /// The results are applications, at most as many as there are.
    pub proof fn lemma_ranked(self)
        requires
            self.entries.len() <= usize::MAX,
        ensures
            self.ranked().len() <= self.entries.len(),
            forall|k: int| 0 <= k < self.ranked().len() ==> #[trigger] self.ranked()[k] < self.entries.len(),
    {
        let c = self.candidates();
        self.lemma_matching(self.entries.len());
        crate::order::lemma_sort_order(self.candidate_keys());
        let o = sort_order(self.candidate_keys());
        assert forall|k: int| 0 <= k < self.ranked().len() implies #[trigger] self.ranked()[k]
            < self.entries.len() by {
            assert(o[k] < c.len());
        }
    }

    /// The pinned applications are applications, at most `limit` of them.
    pub proof fn lemma_pinned(self, limit: usize)
        requires
            self.entries.len() <= usize::MAX,
        ensures
            self.pinned(limit).len() <= limit,
            self.pinned(limit).len() <= self.entries.len(),
            forall|k: int|
                0 <= k < self.pinned(limit).len() ==> #[trigger] self.pinned(limit)[k] < self.entries.len(),
    {
        let u = self.used(self.entries.len());
        self.lemma_used(self.entries.len());
        crate::order::lemma_sort_order(self.used_keys());
        let o = sort_order(self.used_keys());
        assert forall|k: int| 0 <= k < self.pinned(limit).len() implies #[trigger] self.pinned(limit)[k]
            < self.entries.len() by {
            assert(o[k] < u.len());
        }
    }

    pub proof fn lemma_grouped(self, n: nat)
        ensures
            n <= self.grouped(n).len() <= 2 * n,
        decreases n,
    {
        if n > 0 {
            self.lemma_grouped((n - 1) as nat);
        }
    }

    /// The list has at most two rows per result.
    pub proof fn lemma_rows(self)
        requires
            self.entries.len() <= usize::MAX,
        ensures
            self.rows().len() <= 2 * self.result_count(),
            self.result_count() <= self.rows().len(),
            self.result_count() <= self.entries.len(),
    {
        self.lemma_grouped(self.result_count());
        self.lemma_ranked();
    }
}

pub proof fn lemma_same_matching(a: LauncherView, b: LauncherView, k: nat)
    requires
        a.entries == b.entries,
        a.query == b.query,
    ensures
        a.matching(k) == b.matching(k),
    decreases k,
{
    if k > 0 {
        lemma_same_matching(a, b, (k - 1) as nat);
    }
}

pub proof fn lemma_same_grouped(a: LauncherView, b: LauncherView, n: nat)
    requires
        a.entries == b.entries,
        a.ranked() == b.ranked(),
    ensures
        a.grouped(n) == b.grouped(n),
    decreases n,
{
    if n > 0 {
        lemma_same_grouped(a, b, (n - 1) as nat);
    }
}

/// Two states that agree on the applications, the query, the limit and the
/// launch counts have the same results and the same rows.
pub proof fn lemma_same_results(a: LauncherView, b: LauncherView)
    requires
        a.entries == b.entries,
        a.query == b.query,
        a.max_results == b.max_results,
        a.usage == b.usage,
    ensures
        a.ranked() == b.ranked(),
        a.rows() == b.rows(),
{
    lemma_same_matching(a, b, a.entries.len());
    assert(a.candidate_keys() =~= b.candidate_keys());
    assert(a.ranked() == b.ranked());
    lemma_same_grouped(a, b, a.result_count());
}

pub proof fn lemma_same_used(a: LauncherView, b: LauncherView, k: nat)
    requires
        a.entries == b.entries,
        a.usage == b.usage,
    ensures
        a.used(k) == b.used(k),
    decreases k,
{
    if k > 0 {
        lemma_same_used(a, b, (k - 1) as nat);
    }
}

/// Two states that agree on the applications and the launch counts pin the same applications.
pub proof fn lemma_same_pinned(a: LauncherView, b: LauncherView, limit: usize)
    requires
        a.entries == b.entries,
        a.usage == b.usage,
    ensures
        a.pinned(limit) == b.pinned(limit),
{
    lemma_same_used(a, b, a.entries.len());
    assert(a.used_keys() =~= b.used_keys());
}

/// The number of results: every match while browsing, at most `max_results`
/// of them while searching.
pub proof fn lemma_result_count(v: LauncherView)
    requires
        v.entries.len() <= usize::MAX,
    ensures
        v.result_count() == v.result_limit(v.candidates().len()),
{
    v.lemma_matching(v.entries.len());
    crate::order::lemma_sort_order(v.candidate_keys());
}

/// Two states that agree on the applications, the query and the limit have as many results.
pub proof fn lemma_same_count(a: LauncherView, b: LauncherView)
    requires
        a.entries == b.entries,
        a.query == b.query,
        a.max_results == b.max_results,
        a.entries.len() <= usize::MAX,
    ensures
        a.result_count() == b.result_count(),
{
    lemma_same_matching(a, b, a.entries.len());
    lemma_result_count(a);
    lemma_result_count(b);
}

/// The bounds hold of a state that differs from a well-formed one only in
/// what is hovered, the scroll offset or the launch counts.
pub proof fn lemma_wf_kept(a: LauncherView, b: LauncherView)
    requires
        a.wf(),
        a.entries == b.entries,
        a.query == b.query,
        a.max_results == b.max_results,
        a.selected == b.selected,
    ensures
        b.wf(),
{
    lemma_same_count(a, b);
}

/// `item` shows `row` of the launcher in state `v`.
pub open spec fn item_shows(item: ListItem, row: Row, v: LauncherView) -> bool {
    match row {
        Row::Header(c) => item == ListItem::Header(c),
        Row::Entry(k) => match item {
            ListItem::Entry { index, entry } => index == k && 0 <= k < v.ranked().len()
                && *entry == v.entries[v.ranked()[k as int] as int],
            ListItem::Header(_) => false,
        },
    }
}

/// `items` show `rows` of the launcher in state `v`, one for one.
pub open spec fn items_show(items: Seq<ListItem>, rows: Seq<Row>, v: LauncherView) -> bool {
    items.len() == rows.len() && forall|k: int|
        0 <= k < items.len() ==> item_shows(#[trigger] items[k], rows[k], v)
}

/// The letter `name` is grouped under.
pub fn group_letter(name: &str) -> (r: char)
    ensures
        r == group_letter_spec(name@),
{
    let s = chars_of(name);
    let mut i: usize = 0;
    assert(s@.skip(0) =~= s@);
    while i < s.len()
        invariant
            s@ == name@,
            i <= s.len(),
            first_alphanumeric(s@) == first_alphanumeric(s@.skip(i as int)),
        decreases s.len() - i,
    {
        let c = s[i];
        if is_alphanumeric(c) {
            assert(s@.skip(i as int)[0] == c);
            assert(first_alphanumeric(s@.skip(i as int)) == Some(c));
            if is_alphabetic(c) {
                return upper_char(c);
            } else {
                return '#';
            }
        }
        assert(s@.skip(i as int).drop_first() =~= s@.skip(i + 1));
        i = i + 1;
    }
    assert(s@.skip(i as int).len() == 0);
    '#'
}


/// Each character of `s` lowercased on its own (first character of its lowercase mapping).
pub open spec fn lower_each(s: Seq<char>) -> Seq<char> {
    s.map_values(|c: char| char_lower(c))
}

/// Each character of `s` lowercased on its own.
fn lower_each_chars(s: &Vec<char>) -> (r: Vec<char>)
    ensures
        r@ == lower_each(s@),
{
    let mut r: Vec<char> = Vec::new();
    let mut i: usize = 0;
    while i < s.len()
        invariant
            i <= s.len(),
            r@ == lower_each(s@.take(i as int)),
        decreases s.len() - i,
    {
        r.push(crate::text::lower_char(s[i]));
        assert(lower_each(s@.take(i + 1)) =~= lower_each(s@.take(i as int)).push(char_lower(s@[i as int])));
        i = i + 1;
    }
    assert(s@.take(s.len() as int) =~= s@);
    r
}

/// The characters of `name` to highlight for `query`: the first place where
/// the trimmed query occurs in the name, ignoring case character by character;
/// `None` for a blank query or when it does not occur.
pub fn name_match_range(name: &str, query: &str) -> (r: Option<(usize, usize)>)
    ensures
        r matches Some((s, e)) ==> trim(query@).len() > 0
            && crate::text::occurs_at(lower_each(name@), lower_each(trim(query@)), s as int)
            && e == s + trim(query@).len()
            && forall|j: int| 0 <= j < s ==> !crate::text::occurs_at(lower_each(name@), lower_each(trim(query@)), j),
        r is None ==> trim(query@).len() == 0 || !crate::text::contains_seq(lower_each(name@), lower_each(trim(query@))),
{
    let q = trim_chars(&chars_of(query));
    if q.len() == 0 {
        return None;
    }
    let name_chars = lower_each_chars(&chars_of(name));
    let query_chars = lower_each_chars(&q);
    match crate::text::find_chars(&name_chars, &query_chars) {
        Some(start) => {
            let total = name_chars.len();
            assert(start + query_chars@.len() <= total);
            Some((start, start + query_chars.len()))
        },
        None => None,
    }
}

/// The launcher: applications, query, selection and launch counts.
pub struct Launcher {
    entries: Vec<DesktopEntry>,
    query: String,
    selected: usize,
    hovered: Option<usize>,
    max_results: usize,
    scroll_offset: usize,
    usage: UsageStats,
}

impl View for Launcher {
    type V = LauncherView;

    closed spec fn view(&self) -> LauncherView {
        LauncherView {
            entries: self.entries@,
            query: self.query@,
            selected: self.selected,
            hovered: self.hovered,
            max_results: self.max_results,
            scroll_offset: self.scroll_offset,
            usage: self.usage@,
        }
    }
}

impl Launcher {
    /// A launcher over `entries` whose search shows at most `max_results`
    /// results (at least one); with no search it lists every application.
    pub fn new(entries: Vec<DesktopEntry>, max_results: usize, usage: UsageStats) -> (r: Self)
        requires
            entries.len() <= usize::MAX / 4,
        ensures
            r@ == (LauncherView {
                entries: entries@,
                query: Seq::empty(),
                selected: 0,
                hovered: None,
                max_results: if max_results >= 1 {
                    max_results
                } else {
                    1
                },
                scroll_offset: 0,
                usage: usage@,
            }),
            r@.wf(),
    {
        let r = Launcher {
            entries,
            query: String::new(),
            selected: 0,
            hovered: None,
            max_results: if max_results >= 1 {
                max_results
            } else {
                1
            },
            scroll_offset: 0,
            usage,
        };
        r
    }

    /// Whether the query is empty or only whitespace.
    fn browse_mode(&self) -> (r: bool)
        ensures
            r == self@.browsing(),
    {
        let q = chars_of(self.query.as_str());
        trim_chars(&q).len() == 0
    }

    /// The results, as positions in the application list.
    fn ranked_entries(&self) -> (r: Vec<usize>)
        ensures
            r@ == self@.ranked(),
            r@.len() <= self@.entries.len(),
            forall|k: int| 0 <= k < r@.len() ==> #[trigger] r@[k] < self@.entries.len(),
    {
        let ghost v = self@;
        let browse = self.browse_mode();
        let mut cands: Vec<usize> = Vec::new();
        let mut keys: Vec<SortKey> = Vec::new();
        let mut i: usize = 0;
        while i < self.entries.len()
            invariant
                v == self@,
                i <= self.entries.len(),
                browse == v.browsing(),
                cands@ == v.matching(i as nat),
                cands@.len() <= i,
                key_views(keys@) == cands@.map_values(|c: usize| v.result_key(c as int)),
                forall|k: int| 0 <= k < cands@.len() ==> #[trigger] cands@[k] < i,
            decreases self.entries.len() - i,
        {
            let entry = &self.entries[i];
            if let Some(rank) = entry.rank(self.query.as_str()) {
                let boost: i32 = if browse {
                    0
                } else {
                    let n = self.usage.count(entry.id.as_str());
                    if n < USAGE_BOOST_CAP {
                        n as i32
                    } else {
                        USAGE_BOOST_CAP as i32
                    }
                };
                let ghost old_cands = cands@;
                let ghost old_keys = keys@;
                keys.push(
                    SortKey { primary: (rank as i64) - (boost as i64), text: to_lowercase(entry.name.as_str()) },
                );
                cands.push(i);
                proof {
                    assert(key_views(keys@) =~= key_views(old_keys).push(v.result_key(i as int)));
                    assert(cands@.map_values(|c: usize| v.result_key(c as int)) =~= old_cands.map_values(
                        |c: usize| v.result_key(c as int),
                    ).push(v.result_key(i as int)));
                }
            }
            i = i + 1;
        }
        let order = sort_positions(&keys);
        let ghost kv = v.candidate_keys();
        assert(key_views(keys@) =~= kv);
        let n = if browse || order.len() <= self.max_results {
            order.len()
        } else {
            self.max_results
        };
        let mut out: Vec<usize> = Vec::new();
        let mut k: usize = 0;
        while k < n
            invariant
                v == self@,
                n <= order.len(),
                order@ == sort_order(kv),
                is_sort_order(kv, order@),
                kv.len() == cands@.len(),
                cands@ == v.candidates(),
                k <= n,
                out@ == sort_order(kv).map_values(|p: usize| cands@[p as int]).take(k as int),
                cands@.len() <= self.entries@.len(),
                forall|j: int| 0 <= j < cands@.len() ==> #[trigger] cands@[j] < self.entries@.len(),
            decreases n - k,
        {
            assert(order@[k as int] < kv.len());
            let ghost old_out = out@;
            out.push(cands[order[k]]);
            assert(out@ =~= sort_order(kv).map_values(|p: usize| cands@[p as int]).take(k + 1));
            k = k + 1;
        }
        out
    }

    /// The query typed so far.
    pub fn query(&self) -> (r: &str)
        ensures
            r@ == self@.query,
    {
        self.query.as_str()
    }

    /// The result under the pointer, if any.
    pub fn hovered(&self) -> (r: Option<usize>)
        ensures
            r == self@.hovered,
    {
        self.hovered
    }

    /// The number of results.
    pub fn result_count(&self) -> (r: usize)
        ensures
            r == self@.result_count(),
    {
        self.ranked_entries().len()
    }

    /// The selected result, kept within the results (0 when there are none).
    pub fn selected(&self) -> (r: usize)
        ensures
            r == self@.selected_index(),
    {
        let count = self.result_count();
        let last = if count >= 1 {
            count - 1
        } else {
            0
        };
        if self.selected < last {
            self.selected
        } else {
            last
        }
    }


    /// The rows of the list: with no active search, the complete list grouped
    /// under letter separators; while searching, the plain ranking.
    pub fn list_items(&self) -> (r: Vec<ListItem<'_>>)
        ensures
            items_show(r@, self@.rows(), self@),
    {
        let ghost v = self@;
        let ranked = self.ranked_entries();
        let mut items: Vec<ListItem<'_>> = Vec::new();
        if !self.browse_mode() {
            let mut k: usize = 0;
            while k < ranked.len()
                invariant
                    v == self@,
                    !v.browsing(),
                    ranked@ == v.ranked(),
                    forall|j: int| 0 <= j < ranked@.len() ==> #[trigger] ranked@[j] < self.entries@.len(),
                    k <= ranked.len(),
                    items_show(items@, Seq::new(k as nat, |j: int| Row::Entry(j as usize)), v),
                decreases ranked.len() - k,
            {
                let ghost old_items = items@;
                items.push(ListItem::Entry { index: k, entry: &self.entries[ranked[k]] });
                assert forall|j: int| 0 <= j < items@.len() implies item_shows(
                    #[trigger] items@[j],
                    Seq::new((k + 1) as nat, |j: int| Row::Entry(j as usize))[j],
                    v,
                ) by {
                    if j < k {
                        assert(items@[j] == old_items[j]);
                    }
                }
                k = k + 1;
            }
            assert(Seq::new(ranked@.len() as nat, |j: int| Row::Entry(j as usize)) =~= v.rows());
        } else {
            let mut current: Option<char> = None;
            let mut k: usize = 0;
            while k < ranked.len()
                invariant
                    v == self@,
                    v.browsing(),
                    ranked@ == v.ranked(),
                    forall|j: int| 0 <= j < ranked@.len() ==> #[trigger] ranked@[j] < self.entries@.len(),
                    k <= ranked.len(),
                    items_show(items@, v.grouped(k as nat), v),
                    k == 0 ==> current is None,
                    k > 0 ==> current == Some(v.letter(k - 1)),
                decreases ranked.len() - k,
            {
                let letter = group_letter(self.entries[ranked[k]].name.as_str());
                let ghost old_items = items@;
                let new_group = match current {
                    Some(c) => c != letter,
                    None => true,
                };
                if new_group {
                    items.push(ListItem::Header(letter));
                    current = Some(letter);
                }
                let ghost mid = items@;
                items.push(ListItem::Entry { index: k, entry: &self.entries[ranked[k]] });
                proof {
                    let head = if k == 0 || v.letter(k as int) != v.letter(k - 1) {
                        seq![Row::Header(v.letter(k as int))]
                    } else {
                        seq![]
                    };
                    let rows = v.grouped(k as nat) + head + seq![Row::Entry(k as usize)];
                    assert(v.grouped((k + 1) as nat) == rows);
                    assert forall|j: int| 0 <= j < items@.len() implies item_shows(
                        #[trigger] items@[j],
                        rows[j],
                        v,
                    ) by {
                        if j < old_items.len() {
                            assert(items@[j] == old_items[j]);
                        }
                    }
                }
                k = k + 1;
            }
        }
        items
    }

    /// The rows shown in a window of `window_size` rows at the current scroll offset.
    pub fn window_items(&self, window_size: usize) -> (r: Vec<ListItem<'_>>)
        ensures
            items_show(r@, self@.window(window_size), self@),
    {
        let items = self.list_items();
        let count = items.len();
        let mut out: Vec<ListItem<'_>> = Vec::new();
        if count == 0 || window_size == 0 {
            return out;
        }
        let last = count - 1;
        let start = if self.scroll_offset < last {
            self.scroll_offset
        } else {
            last
        };
        let fit = if count >= window_size {
            count - window_size
        } else {
            0
        };
        let start = if start < fit {
            start
        } else {
            fit
        };
        let end = if window_size <= count - start {
            start + window_size
        } else {
            count
        };
        let ghost w = self@.window(window_size);
        assert(w =~= self@.rows().subrange(start as int, end as int));
        let mut k = start;
        while k < end
            invariant
                start <= k <= end <= count,
                count == items@.len(),
                items_show(items@, self@.rows(), self@),
                w == self@.rows().subrange(start as int, end as int),
                items_show(out@, w.subrange(0, k - start), self@),
            decreases end - k,
        {
            let ghost old_out = out@;
            out.push(items[k]);
            assert forall|j: int| 0 <= j < out@.len() implies item_shows(
                #[trigger] out@[j],
                w.subrange(0, k + 1 - start)[j],
                self@,
            ) by {
                if j < old_out.len() {
                    assert(out@[j] == old_out[j]);
                } else {
                    assert(item_shows(items@[k as int], self@.rows()[k as int], self@));
                }
            }
            k = k + 1;
        }
        assert(w.subrange(0, end - start) =~= w);
        out
    }

    /// How many results come after those shown in a window of `window_size`
    /// rows (what the "n more" hint counts).
    pub fn results_below_window(&self, window_size: usize) -> (r: usize)
        ensures
            r == ({
                let total = self@.result_count();
                let shown = shown_through(self@.window(window_size));
                if shown >= total {
                    0
                } else {
                    total - shown
                }
            }),
    {
        let total = self.result_count();
        let items = self.window_items(window_size);
        let ghost w = self@.window(window_size);
        let mut shown: usize = 0;
        let mut k: usize = 0;
        while k < items.len()
            invariant
                k <= items@.len(),
                items_show(items@, w, self@),
                shown == shown_through(w.take(k as int)),
                shown <= total,
                total == self@.result_count(),
            decreases items.len() - k,
        {
            assert(item_shows(items@[k as int], w[k as int], self@));
            assert(w.take(k + 1).drop_last() =~= w.take(k as int));
            match items[k] {
                ListItem::Entry { index, .. } => {
                    if index + 1 > shown {
                        shown = index + 1;
                    }
                },
                ListItem::Header(_) => {},
            }
            k = k + 1;
        }
        assert(w.take(items.len() as int) =~= w);
        if shown >= total {
            0
        } else {
            total - shown
        }
    }

    /// The number of rows shown in a window of `window_size` rows.
    pub fn window_len(&self, window_size: usize) -> (r: usize)
        ensures
            r == self@.window(window_size).len(),
    {
        self.window_items(window_size).len()
    }

    /// The result shown at row `row` of a window of `window_size` rows; `None`
    /// for a letter separator or a row past the end.
    pub fn entry_index_at_row(&self, row: usize, window_size: usize) -> (r: Option<usize>)
        ensures
            r == (if row < self@.window(window_size).len() {
                match self@.window(window_size)[row as int] {
                    Row::Entry(k) => Some(k),
                    Row::Header(_) => None,
                }
            } else {
                None
            }),
    {
        let items = self.window_items(window_size);
        if row < items.len() {
            assert(item_shows(items@[row as int], self@.window(window_size)[row as int], self@));
            match items[row] {
                ListItem::Entry { index, .. } => Some(index),
                ListItem::Header(_) => None,
            }
        } else {
            None
        }
    }


    /// Scrolls so that the selected row is shown in a window of `window_size`
    /// rows; returns whether the scroll offset changed.
    pub fn ensure_selected_visible(&mut self, window_size: usize) -> (r: bool)
        requires
            !old(self)@.scroll_overflows(window_size),
        ensures
            final(self)@ == (LauncherView { scroll_offset: old(self)@.scrolled(window_size), ..old(self)@ }),
            r == (old(self)@.scroll_offset != final(self)@.scroll_offset),
    {
        let ghost v = self@;
        let selected = self.selected();
        let (count, item_pos, header_above) = {
            let items = self.list_items();
            let count = items.len();
            let mut p: usize = 0;
            while p < count
                invariant
                    v == self@,
                    count == items@.len(),
                    items_show(items@, v.rows(), v),
                    selected == v.selected_index(),
                    p <= count,
                    forall|j: int| 0 <= j < p ==> v.rows()[j] != Row::Entry(selected),
                ensures
                    p <= count,
                    forall|j: int| 0 <= j < p ==> v.rows()[j] != Row::Entry(selected),
                    p < count ==> v.rows()[p as int] == Row::Entry(selected),
                decreases count - p,
            {
                let hit = match items[p] {
                    ListItem::Entry { index, .. } => index == selected,
                    ListItem::Header(_) => false,
                };
                assert(item_shows(items@[p as int], v.rows()[p as int], v));
                if hit {
                    break;
                }
                p = p + 1;
            }
            proof {
                lemma_first_pos_at(v.rows(), Row::Entry(selected), p as int);
            }
            let item_pos = if p < count {
                p
            } else {
                0
            };
            let header_above = if item_pos > 0 {
                assert(item_shows(items@[item_pos - 1], v.rows()[item_pos - 1], v));
                match items[item_pos - 1] {
                    ListItem::Header(_) => true,
                    ListItem::Entry { .. } => false,
                }
            } else {
                false
            };
            (count, item_pos, header_above)
        };
        assert(item_pos == v.selected_row());
        if count == 0 || window_size == 0 {
            let changed = self.scroll_offset != 0;
            self.scroll_offset = 0;
            return changed;
        }
        let max_offset = if count >= window_size {
            count - window_size
        } else {
            0
        };
        let before = self.scroll_offset;
        let mut offset = self.scroll_offset;
        if item_pos < offset {
            offset = if header_above {
                item_pos - 1
            } else {
                item_pos
            };
        } else if item_pos >= offset + window_size {
            offset = item_pos + 1 - window_size;
        }
        if offset > max_offset {
            offset = max_offset;
        }
        self.scroll_offset = offset;
        before != offset
    }

    fn reset_selection(&mut self)
        ensures
            final(self)@ == old(self)@.with_query(old(self)@.query),
    {
        self.selected = 0;
        self.hovered = None;
        self.scroll_offset = 0;
    }

    /// Types `ch` into the query (control characters are ignored); returns
    /// whether the query changed.
    pub fn push_char(&mut self, ch: char) -> (r: bool)
        ensures
            is_control_spec(ch) ==> !r && final(self)@ == old(self)@,
            !is_control_spec(ch) ==> r && final(self)@ == old(self)@.with_query(
                old(self)@.query.push(ch),
            ),
    {
        if crate::text::is_control(ch) {
            return false;
        }
        crate::text::push_char(&mut self.query, ch);
        self.reset_selection();
        true
    }

    /// Empties the query; returns whether it was not empty.
    pub fn clear_query(&mut self) -> (r: bool)
        ensures
            old(self)@.query.len() == 0 ==> !r && final(self)@ == old(self)@,
            old(self)@.query.len() > 0 ==> r && final(self)@ == old(self)@.with_query(Seq::empty()),
    {
        if self.query.as_str().unicode_len() == 0 {
            return false;
        }
        self.query = String::new();
        self.reset_selection();
        true
    }

    /// Deletes the last character of the query; returns whether there was one.
    pub fn backspace(&mut self) -> (r: bool)
        ensures
            old(self)@.query.len() == 0 ==> !r && final(self)@ == old(self)@,
            old(self)@.query.len() > 0 ==> r && final(self)@ == old(self)@.with_query(
                old(self)@.query.drop_last(),
            ),
    {
        let changed = crate::text::pop_char(&mut self.query).is_some();
        if changed {
            self.reset_selection();
        }
        changed
    }

    /// Selects the next result, wrapping to the first; returns whether the
    /// selection changed.
    pub fn select_next(&mut self) -> (r: bool)
        requires
            old(self)@.wf(),
        ensures
            final(self)@ == (if old(self)@.result_count() == 0 {
                old(self)@
            } else {
                LauncherView {
                    selected: ((old(self)@.selected + 1) % (old(self)@.result_count() as int)) as usize,
                    ..old(self)@
                }
            }),
            r == (old(self)@.selected != final(self)@.selected),
            final(self)@.wf(),
    {
        let ghost v0 = self@;
        let count = self.result_count();
        if count == 0 {
            return false;
        }
        proof {
            self@.lemma_ranked();
        }
        let before = self.selected;
        self.selected = (self.selected + 1) % count;
        proof {
            lemma_same_count(v0, self@);
        }
        before != self.selected
    }

    /// Selects the previous result, wrapping to the last; returns whether the
    /// selection changed.
    pub fn select_prev(&mut self) -> (r: bool)
        requires
            old(self)@.wf(),
        ensures
            final(self)@ == (if old(self)@.result_count() == 0 {
                old(self)@
            } else {
                LauncherView {
                    selected: if old(self)@.selected == 0 {
                        (old(self)@.result_count() - 1) as usize
                    } else {
                        (old(self)@.selected - 1) as usize
                    },
                    ..old(self)@
                }
            }),
            r == (old(self)@.selected != final(self)@.selected),
            final(self)@.wf(),
    {
        let ghost v0 = self@;
        let count = self.result_count();
        if count == 0 {
            return false;
        }
        proof {
            self@.lemma_ranked();
        }
        let before = self.selected;
        self.selected = if self.selected == 0 {
            count - 1
        } else {
            self.selected - 1
        };
        proof {
            lemma_same_count(v0, self@);
        }
        before != self.selected
    }

    /// Selects result `index` if there is one; returns whether the selection changed.
    pub fn select_index(&mut self, index: usize) -> (r: bool)
        requires
            old(self)@.wf(),
        ensures
            final(self)@ == (if index >= old(self)@.result_count() {
                old(self)@
            } else {
                LauncherView { selected: index, ..old(self)@ }
            }),
            r == (old(self)@.selected != final(self)@.selected),
            final(self)@.wf(),
    {
        let ghost v0 = self@;
        if index >= self.result_count() {
            return false;
        }
        proof {
            self@.lemma_ranked();
        }
        let before = self.selected;
        self.selected = index;
        proof {
            lemma_same_count(v0, self@);
        }
        before != self.selected
    }

    /// Marks result `index` as under the pointer (`None`, or an index past the
    /// results, clears it); returns whether that changed.
    pub fn hover_index(&mut self, index: Option<usize>) -> (r: bool)
        ensures
            final(self)@ == (LauncherView {
                hovered: match index {
                    Some(i) => if i < old(self)@.result_count() {
                        Some(i)
                    } else {
                        None
                    },
                    None => None,
                },
                ..old(self)@
            }),
            r == (old(self)@.hovered != final(self)@.hovered),
    {
        let count = self.result_count();
        let normalized = match index {
            Some(i) => if i < count {
                Some(i)
            } else {
                None
            },
            None => None,
        };
        let changed = match (self.hovered, normalized) {
            (Some(a), Some(b)) => a != b,
            (None, None) => false,
            _ => true,
        };
        self.hovered = normalized;
        changed
    }

    /// A copy of the selected result's entry, if there are results.
    pub fn selected_entry(&self) -> (r: Option<DesktopEntry>)
        ensures
            r == (if self@.selected_index() < self@.result_count() {
                Some(self@.entries[self@.ranked()[self@.selected_index() as int] as int])
            } else {
                None::<DesktopEntry>
            }),
    {
        let ranked = self.ranked_entries();
        let sel = self.selected();
        if sel < ranked.len() {
            Some(self.entries[ranked[sel]].duplicate())
        } else {
            None
        }
    }

    /// The positions of the pinned applications; see `LauncherView::pinned`.
    fn pinned_positions(&self, limit: usize) -> (r: Vec<usize>)
        ensures
            r@ == self@.pinned(limit),
            forall|k: int| 0 <= k < r@.len() ==> #[trigger] r@[k] < self@.entries.len(),
    {
        let ghost v = self@;
        let mut used: Vec<usize> = Vec::new();
        let mut keys: Vec<SortKey> = Vec::new();
        let mut i: usize = 0;
        while i < self.entries.len()
            invariant
                v == self@,
                i <= self.entries.len(),
                used@ == v.used(i as nat),
                used@.len() <= i,
                key_views(keys@) == used@.map_values(|c: usize| v.pin_key(c as int)),
                forall|k: int| 0 <= k < used@.len() ==> #[trigger] used@[k] < i,
            decreases self.entries.len() - i,
        {
            let entry = &self.entries[i];
            let count = self.usage.count(entry.id.as_str());
            if count > 0 {
                let ghost old_used = used@;
                let ghost old_keys = keys@;
                keys.push(SortKey { primary: -(count as i64), text: to_lowercase(entry.name.as_str()) });
                used.push(i);
                proof {
                    assert(key_views(keys@) =~= key_views(old_keys).push(v.pin_key(i as int)));
                    assert(used@.map_values(|c: usize| v.pin_key(c as int)) =~= old_used.map_values(
                        |c: usize| v.pin_key(c as int),
                    ).push(v.pin_key(i as int)));
                }
            }
            i = i + 1;
        }
        let order = sort_positions(&keys);
        let ghost kv = v.used_keys();
        assert(key_views(keys@) =~= kv);
        let n = if limit < order.len() {
            limit
        } else {
            order.len()
        };
        let mut out: Vec<usize> = Vec::new();
        let mut k: usize = 0;
        while k < n
            invariant
                v == self@,
                n <= order.len(),
                order@ == sort_order(kv),
                is_sort_order(kv, order@),
                kv.len() == used@.len(),
                used@ == v.used(v.entries.len()),
                k <= n,
                out@ == sort_order(kv).map_values(|p: usize| used@[p as int]).take(k as int),
                forall|j: int| 0 <= j < used@.len() ==> #[trigger] used@[j] < self.entries@.len(),
                forall|j: int| 0 <= j < out@.len() ==> #[trigger] out@[j] < self.entries@.len(),
            decreases n - k,
        {
            assert(order@[k as int] < kv.len());
            out.push(used[order[k]]);
            assert(out@ =~= sort_order(kv).map_values(|p: usize| used@[p as int]).take(k + 1));
            k = k + 1;
        }
        out
    }

    /// The `limit` most launched applications (launched at least once).
    pub fn pinned_entries(&self, limit: usize) -> (r: Vec<&DesktopEntry>)
        ensures
            r@.len() == self@.pinned(limit).len(),
            forall|k: int|
                0 <= k < r@.len() ==> *(#[trigger] r@[k]) == self@.entries[self@.pinned(limit)[k] as int],
    {
        let pinned = self.pinned_positions(limit);
        let mut out: Vec<&DesktopEntry> = Vec::new();
        let mut k: usize = 0;
        while k < pinned.len()
            invariant
                pinned@ == self@.pinned(limit),
                forall|j: int| 0 <= j < pinned@.len() ==> #[trigger] pinned@[j] < self.entries@.len(),
                k <= pinned.len(),
                out@.len() == k,
                forall|j: int| 0 <= j < k ==> *(#[trigger] out@[j]) == self@.entries[pinned@[j] as int],
            decreases pinned.len() - k,
        {
            out.push(&self.entries[pinned[k]]);
            k = k + 1;
        }
        out
    }

    /// The number of pinned applications.
    pub fn pinned_count(&self, limit: usize) -> (r: usize)
        ensures
            r == self@.pinned(limit).len(),
    {
        self.pinned_positions(limit).len()
    }

    /// A copy of pinned application `index`, if there is one.
    pub fn pinned_entry(&self, index: usize, limit: usize) -> (r: Option<DesktopEntry>)
        ensures
            r == (if index < self@.pinned(limit).len() {
                Some(self@.entries[self@.pinned(limit)[index as int] as int])
            } else {
                None::<DesktopEntry>
            }),
    {
        let pinned = self.pinned_positions(limit);
        if index < pinned.len() {
            Some(self.entries[pinned[index]].duplicate())
        } else {
            None
        }
    }

    /// Counts one more launch of `id`.
    pub fn record_launch(&mut self, id: &str)
        requires
            usage_count(old(self)@.usage, id@) < u32::MAX,
        ensures
            final(self)@ == (LauncherView {
                usage: old(self)@.usage.insert(id@, (usage_count(old(self)@.usage, id@) + 1) as u32),
                ..old(self)@
            }),
    {
        self.usage.bump(id);
    }

    /// The launch counters.
    pub fn usage(&self) -> (r: &UsageStats)
        ensures
            r@ == self@.usage,
    {
        &self.usage
    }

    /// The results, in order.
    pub fn visible_entries(&self) -> (r: Vec<&DesktopEntry>)
        ensures
            r@.len() == self@.result_count(),
            forall|k: int|
                0 <= k < r@.len() ==> *(#[trigger] r@[k]) == self@.entries[self@.ranked()[k] as int],
    {
        let ranked = self.ranked_entries();
        let mut out: Vec<&DesktopEntry> = Vec::new();
        let mut k: usize = 0;
        while k < ranked.len()
            invariant
                ranked@ == self@.ranked(),
                k <= ranked.len(),
                out@.len() == k,
                forall|j: int| 0 <= j < k ==> *(#[trigger] out@[j]) == self@.entries[ranked@[j] as int],
                forall|j: int| 0 <= j < ranked@.len() ==> #[trigger] ranked@[j] < self.entries@.len(),
            decreases ranked.len() - k,
        {
            out.push(&self.entries[ranked[k]]);
            k = k + 1;
        }
        out
    }
}

} // verus!
