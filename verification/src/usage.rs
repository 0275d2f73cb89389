//! Launch counters, so that frequently used applications rank first.
//!
//! The counters are kept as plain text, one `count\tid` line per application.
use vstd::prelude::*;
use crate::num::{decimal, decimal_chars, lemma_decimal_parses, lemma_decimal_spells, parse_unsigned, parse_unsigned_chars};
use crate::order::{is_sort_order, key_views, before, sort_order, sort_positions, SortKey};
use crate::text::{lemma_seq_lt_irreflexive, lemma_seq_lt_transitive, seq_lt, 
    chars_eq, chars_of, find_char_from, lemma_find_char, lemma_find_char_at, split_lines, split_once, lines,
    string_of, strip_cr, trim, trim_chars, leading_ws, trailing_ws, views,
};

verus! {

/// Launch counts by application id.
#[derive(Debug)]
pub struct UsageStats {
    counts: Vec<(String, u32)>,
}

/// The map that a list of `(id, count)` pairs describes; a later pair for the
/// same id replaces an earlier one.
pub open spec fn pairs_map(s: Seq<(String, u32)>) -> Map<Seq<char>, u32>
    decreases s.len(),
{
    if s.len() == 0 {
        Map::empty()
    } else {
        pairs_map(s.drop_last()).insert(s.last().0@, s.last().1)
    }
}

/// No id occurs twice.
pub open spec fn distinct_ids(s: Seq<(String, u32)>) -> bool {
    forall|i: int, j: int| 0 <= i < j < s.len() ==> (#[trigger] s[i]).0@ != (#[trigger] s[j]).0@
}

/// The launch count of `id`: 0 for an application never launched.
pub open spec fn usage_count(m: Map<Seq<char>, u32>, id: Seq<char>) -> u32 {
    if m.contains_key(id) {
        m[id]
    } else {
        0
    }
}

/// The counter line of one application.
pub open spec fn parse_line(l: Seq<char>) -> Option<(Seq<char>, u32)> {
    match split_once(l, '\t') {
        Some((count, id)) => match parse_unsigned(trim(count), 10, u32::MAX as nat) {
            Some(n) => Some((id, n as u32)),
            None => None,
        },
        None => None,
    }
}

/// The counters that a list of lines describes: each line `count\tid` whose
/// count (surrounding whitespace aside) is a `u32` sets that id's count; other
/// lines are ignored; a later line for the same id wins.
pub open spec fn parse_lines(ls: Seq<Seq<char>>) -> Map<Seq<char>, u32>
    decreases ls.len(),
{
    if ls.len() == 0 {
        Map::empty()
    } else {
        let m = parse_lines(ls.drop_last());
        match parse_line(ls.last()) {
            Some((id, n)) => m.insert(id, n),
            None => m,
        }
    }
}

/// The counters stored in the text `content`.
pub open spec fn parse_usage(content: Seq<char>) -> Map<Seq<char>, u32> {
    parse_lines(lines(content))
}


/// The saved line of one application: its count in decimal, a tab, its id.
pub open spec fn usage_line(id: Seq<char>, n: u32) -> Seq<char> {
    decimal(n as nat) + seq!['\t'] + id
}

/// Lines joined with `\n` (no newline after the last).
pub open spec fn join_lines(ls: Seq<Seq<char>>) -> Seq<char>
    decreases ls.len(),
{
    if ls.len() == 0 {
        seq![]
    } else if ls.len() == 1 {
        ls[0]
    } else {
        join_lines(ls.drop_last()) + seq!['\n'] + ls.last()
    }
}

/// The id a saved line is for: what follows its first tab.
pub open spec fn line_id(l: Seq<char>) -> Seq<char> {
    match split_once(l, '\t') {
        Some((_, id)) => id,
        None => l,
    }
}

/// `l` is the saved line of one of the counters `m`.
pub open spec fn is_line_of(m: Map<Seq<char>, u32>, l: Seq<char>) -> bool {
    m.contains_key(line_id(l)) && l == usage_line(line_id(l), m[line_id(l)])
}

/// `ls` holds the saved line of every counter and nothing else, in increasing
/// text order.
pub open spec fn is_saved_lines(m: Map<Seq<char>, u32>, ls: Seq<Seq<char>>) -> bool {
    &&& forall|i: int, j: int| 0 <= i < j < ls.len() ==> seq_lt(#[trigger] ls[i], #[trigger] ls[j])
    &&& forall|k: Seq<char>| #[trigger] m.contains_key(k) ==> ls.contains(usage_line(k, m[k]))
    &&& forall|i: int| 0 <= i < ls.len() ==> is_line_of(m, #[trigger] ls[i])
}

/// The saved lines of the counters `m`, in increasing text order.
pub open spec fn saved_lines(m: Map<Seq<char>, u32>) -> Seq<Seq<char>> {
    choose|ls: Seq<Seq<char>>| is_saved_lines(m, ls)
}

/// The text the counters `m` are saved as: their lines sorted, one per line.
pub open spec fn saved_text(m: Map<Seq<char>, u32>) -> Seq<char> {
    join_lines(saved_lines(m))
}

/// Two strictly increasing lists of the same elements are equal.
pub proof fn lemma_sorted_unique(a: Seq<Seq<char>>, b: Seq<Seq<char>>)
    requires
        forall|i: int, j: int| 0 <= i < j < a.len() ==> seq_lt(#[trigger] a[i], #[trigger] a[j]),
        forall|i: int, j: int| 0 <= i < j < b.len() ==> seq_lt(#[trigger] b[i], #[trigger] b[j]),
        forall|i: int| 0 <= i < a.len() ==> b.contains(#[trigger] a[i]),
        forall|i: int| 0 <= i < b.len() ==> a.contains(#[trigger] b[i]),
    ensures
        a == b,
    decreases a.len(),
{
    if a.len() == 0 {
        if b.len() > 0 {
            assert(a.contains(b[0]));
        }
        assert(a =~= b);
    } else {
        assert(b.contains(a[0]));
        assert(b.len() > 0);
        assert(a.contains(b[0]));
        let m = choose|m: int| 0 <= m < b.len() && b[m] == a[0];
        let n = choose|n: int| 0 <= n < a.len() && a[n] == b[0];
        if a[0] != b[0] {
            assert(m > 0 && n > 0);
            assert(seq_lt(b[0], b[m]));
            assert(seq_lt(a[0], a[n]));
            lemma_seq_lt_transitive(a[0], b[0], a[0]);
            lemma_seq_lt_irreflexive(a[0]);
        }
        let a1 = a.drop_first();
        let b1 = b.drop_first();
        assert forall|i: int| 0 <= i < a1.len() implies b1.contains(#[trigger] a1[i]) by {
            assert(seq_lt(a[0], a[i + 1]));
            assert(b.contains(a[i + 1]));
            let k = choose|k: int| 0 <= k < b.len() && b[k] == a[i + 1];
            if k == 0 {
                lemma_seq_lt_irreflexive(a[0]);
            }
            assert(b1[k - 1] == a1[i]);
        }
        assert forall|i: int| 0 <= i < b1.len() implies a1.contains(#[trigger] b1[i]) by {
            assert(seq_lt(b[0], b[i + 1]));
            assert(a.contains(b[i + 1]));
            let k = choose|k: int| 0 <= k < a.len() && a[k] == b[i + 1];
            if k == 0 {
                lemma_seq_lt_irreflexive(b[0]);
            }
            assert(a1[k - 1] == b1[i]);
        }
        lemma_sorted_unique(a1, b1);
        assert(a =~= seq![a[0]] + a1);
        assert(b =~= seq![b[0]] + b1);
    }
}

/// Decimal digits are not tabs.
pub proof fn lemma_decimal_digits(n: nat)
    ensures
        forall|i: int| 0 <= i < decimal(n).len() ==> #[trigger] decimal(n)[i] != '\t' && decimal(n)[i]
            != '\n',
        decimal(n).len() > 0,
    decreases n,
{
    if n >= 10 {
        lemma_decimal_digits(n / 10);
    }
}

/// A saved line determines its id.
pub proof fn lemma_usage_line_id(k1: Seq<char>, n1: u32, k2: Seq<char>, n2: u32)
    requires
        usage_line(k1, n1) == usage_line(k2, n2),
    ensures
        k1 == k2,
{
    lemma_decimal_digits(n1 as nat);
    lemma_decimal_digits(n2 as nat);
    let l = usage_line(k1, n1);
    let d1 = decimal(n1 as nat).len() as int;
    let d2 = decimal(n2 as nat).len() as int;
    assert(l[d1] == '\t');
    assert(usage_line(k2, n2)[d2] == '\t');
    if d1 < d2 {
        assert(usage_line(k2, n2)[d1] == decimal(n2 as nat)[d1]);
    }
    if d2 < d1 {
        assert(l[d2] == decimal(n1 as nat)[d2]);
    }
    assert(d1 == d2);
    assert(k1 =~= l.skip(d1 + 1));
    assert(k2 =~= usage_line(k2, n2).skip(d2 + 1));
}

/// A saved line reads back as its id and count.
pub proof fn lemma_usage_line_parses(id: Seq<char>, n: u32)
    ensures
        parse_line(usage_line(id, n)) == Some((id, n)),
        line_id(usage_line(id, n)) == id,
{
    let d = decimal(n as nat);
    lemma_decimal_spells(n as nat);
    lemma_decimal_parses(n as nat, u32::MAX as nat);
    let l = usage_line(id, n);
    assert forall|j: int| 0 <= j < d.len() implies l[j] != '\t' by {
        assert(l[j] == d[j]);
    }
    assert(l[d.len() as int] == '\t');
    lemma_find_char_at(l, '\t', d.len() as int);
    assert(l.take(d.len() as int) =~= d);
    assert(l.skip(d.len() as int + 1) =~= id);
    assert(d[0] == d[0]);
    assert(d[d.len() - 1] == d.last());
    assert(leading_ws(d) == 0);
    assert(trailing_ws(d) == 0);
    assert(trim(d) =~= d);
}

/// Lines joined with line breaks, read from the front.
proof fn lemma_join_lines_front(ls: Seq<Seq<char>>)
    requires
        ls.len() >= 2,
    ensures
        join_lines(ls) == ls[0] + seq!['\n'] + join_lines(ls.drop_first()),
    decreases ls.len(),
{
    let rest = ls.drop_first();
    if ls.len() == 2 {
        assert(ls.drop_last().len() == 1);
        assert(join_lines(ls.drop_last()) == ls[0]);
        assert(join_lines(rest) == rest[0]);
    } else {
        lemma_join_lines_front(ls.drop_last());
        assert(ls.drop_last().drop_first() =~= rest.drop_last());
        assert(rest.last() == ls.last());
        assert(join_lines(rest) == join_lines(rest.drop_last()) + seq!['\n'] + rest.last());
        assert(join_lines(ls) =~= ls[0] + seq!['\n'] + join_lines(rest));
    }
}

/// Lines that are not empty, hold no line break and do not end with a carriage
/// return, joined with line breaks, split back into the same lines.
pub proof fn lemma_lines_of_joined(ls: Seq<Seq<char>>)
    requires
        forall|i: int| 0 <= i < ls.len() ==> (#[trigger] ls[i]).len() > 0 && ls[i].last() != '\r',
        forall|i: int, j: int| 0 <= i < ls.len() && 0 <= j < ls[i].len() ==> (#[trigger] ls[i][j]) != '\n',
    ensures
        lines(join_lines(ls)) == ls,
    decreases ls.len(),
{
    if ls.len() == 1 {
        let l = ls[0];
        assert(join_lines(ls) == l);
        assert forall|j: int| 0 <= j < l.len() implies l[j] != '\n' by {
            assert(ls[0][j] != '\n');
        }
        lemma_find_char_at(l, '\n', l.len() as int);
        assert(lines(l) == seq![l]);
        assert(ls =~= seq![l]);
    } else if ls.len() >= 2 {
        let l = ls[0];
        let rest = ls.drop_first();
        lemma_join_lines_front(ls);
        assert forall|i: int, j: int| 0 <= i < rest.len() && 0 <= j < rest[i].len() implies (
        #[trigger] rest[i][j]) != '\n' by {
            assert(rest[i] == ls[i + 1]);
            assert(ls[i + 1][j] != '\n');
        }
        assert forall|i: int| 0 <= i < rest.len() implies (#[trigger] rest[i]).len() > 0 && rest[i].last()
            != '\r' by {
            assert(rest[i] == ls[i + 1]);
        }
        lemma_lines_of_joined(rest);
        let s = join_lines(ls);
        assert forall|j: int| 0 <= j < l.len() implies s[j] != '\n' by {
            assert(s[j] == l[j]);
            assert(ls[0][j] != '\n');
        }
        assert(s[l.len() as int] == '\n');
        lemma_find_char_at(s, '\n', l.len() as int);
        assert(s.take(l.len() as int) =~= l);
        assert(s.skip(l.len() as int + 1) =~= join_lines(rest));
        assert(strip_cr(l) == l);
        assert(lines(s) == seq![l] + lines(join_lines(rest)));
        assert(ls =~= seq![l] + rest);
    } else {
        assert(ls =~= Seq::<Seq<char>>::empty());
    }
}

/// Each line being the saved line of some counter of `m`, the lines read back
/// as counters of `m`, and every counter whose line is there is read.
proof fn lemma_parse_saved(m: Map<Seq<char>, u32>, ls: Seq<Seq<char>>)
    requires
        forall|i: int| 0 <= i < ls.len() ==> is_line_of(m, #[trigger] ls[i]),
    ensures
        forall|k: Seq<char>|
            #[trigger] parse_lines(ls).contains_key(k) ==> m.contains_key(k) && parse_lines(ls)[k] == m[k],
        forall|k: Seq<char>|
            #[trigger] m.contains_key(k) && ls.contains(usage_line(k, m[k])) ==> parse_lines(ls).contains_key(k),
    decreases ls.len(),
{
    if ls.len() > 0 {
        let init = ls.drop_last();
        assert forall|i: int| 0 <= i < init.len() implies is_line_of(m, #[trigger] init[i]) by {
            assert(init[i] == ls[i]);
        }
        lemma_parse_saved(m, init);
        assert(ls[ls.len() - 1] == ls.last());
        assert(is_line_of(m, ls[ls.len() - 1]));
        let k0 = line_id(ls.last());
        lemma_usage_line_parses(k0, m[k0]);
        assert(parse_lines(ls) == parse_lines(init).insert(k0, m[k0]));
        assert forall|k: Seq<char>| #[trigger] m.contains_key(k) && ls.contains(usage_line(k, m[k])) implies parse_lines(
            ls,
        ).contains_key(k) by {
            let w = choose|w: int| 0 <= w < ls.len() && ls[w] == usage_line(k, m[k]);
            if w == ls.len() - 1 {
                lemma_usage_line_id(k, m[k], k0, m[k0]);
            } else {
                assert(init[w] == ls[w]);
                assert(init.contains(usage_line(k, m[k])));
            }
        }
    }
}

/// The saved lines of a finite `m`, each once, in some order.
proof fn lemma_line_list(m: Map<Seq<char>, u32>) -> (l: Seq<Seq<char>>)
    requires
        m.dom().finite(),
    ensures
        l.len() == m.dom().len(),
        forall|i: int, j: int| 0 <= i < j < l.len() ==> #[trigger] l[i] != #[trigger] l[j],
        forall|i: int| 0 <= i < l.len() ==> is_line_of(m, #[trigger] l[i]),
        forall|k: Seq<char>| #[trigger] m.contains_key(k) ==> l.contains(usage_line(k, m[k])),
    decreases m.dom().len(),
{
    if m.dom().len() == 0 {
        m.dom().lemma_len0_is_empty();
        assert forall|k: Seq<char>| #[trigger] m.contains_key(k) implies false by {
            assert(m.dom().contains(k));
        }
        seq![]
    } else {
        vstd::set::axiom_set_choose_len(m.dom());
        let k = m.dom().choose();
        let m2 = m.remove(k);
        assert(m2.dom() =~= m.dom().remove(k));
        vstd::set::axiom_set_remove_len(m.dom(), k);
        let l2 = lemma_line_list(m2);
        let x = usage_line(k, m[k]);
        let l = l2.push(x);
        assert forall|i: int, j: int| 0 <= i < j < l.len() implies #[trigger] l[i] != #[trigger] l[j] by {
            if j == l.len() - 1 {
                assert(l[i] == l2[i]);
                assert(is_line_of(m2, l2[i]));
                let k2 = line_id(l2[i]);
                if l[i] == l[j] {
                    lemma_usage_line_id(k2, m2[k2], k, m[k]);
                }
            } else {
                assert(l[i] == l2[i]);
                assert(l[j] == l2[j]);
            }
        }
        assert forall|i: int| 0 <= i < l.len() implies is_line_of(m, #[trigger] l[i]) by {
            if i < l2.len() {
                assert(l[i] == l2[i]);
                assert(is_line_of(m2, l2[i]));
            } else {
                lemma_usage_line_parses(k, m[k]);
            }
        }
        assert forall|k1: Seq<char>| #[trigger] m.contains_key(k1) implies l.contains(usage_line(k1, m[k1])) by {
            if k1 == k {
                assert(l[l.len() - 1] == x);
            } else {
                assert(m2.contains_key(k1));
                assert(l2.contains(usage_line(k1, m2[k1])));
                let w = choose|w: int| 0 <= w < l2.len() && l2[w] == usage_line(k1, m2[k1]);
                assert(l[w] == l2[w]);
            }
        }
        l
    }
}

/// A finite `m` has saved lines.
pub proof fn lemma_saved_lines(m: Map<Seq<char>, u32>)
    requires
        m.dom().finite(),
        m.dom().len() <= usize::MAX,
    ensures
        is_saved_lines(m, saved_lines(m)),
{
    let l = lemma_line_list(m);
    let keys = l.map_values(|x: Seq<char>| (0int, x));
    crate::order::lemma_sort_order(keys);
    let o = sort_order(keys);
    let sorted = o.map_values(|p: usize| l[p as int]);
    assert forall|i: int, j: int| 0 <= i < j < sorted.len() implies seq_lt(#[trigger] sorted[i], #[trigger] sorted[j]) by {
        assert(before(keys, o[i] as int, o[j] as int));
        if o[i] == o[j] {
            crate::order::lemma_before_irreflexive(keys, o[i] as int);
        }
        if o[i] < o[j] {
            assert(l[o[i] as int] != l[o[j] as int]);
        } else {
            assert(l[o[j] as int] != l[o[i] as int]);
        }
    }
    assert forall|k: Seq<char>| #[trigger] m.contains_key(k) implies sorted.contains(usage_line(k, m[k])) by {
        assert(l.contains(usage_line(k, m[k])));
        let p = choose|p: int| 0 <= p < l.len() && l[p] == usage_line(k, m[k]);
        assert(o.contains(p as usize));
        let t = choose|t: int| 0 <= t < o.len() && o[t] == p as usize;
        assert(sorted[t] == l[p]);
    }
    assert forall|i: int| 0 <= i < sorted.len() implies is_line_of(m, #[trigger] sorted[i]) by {
        let p = o[i] as int;
        assert(0 <= p < l.len());
        assert(sorted[i] == l[p]);
        assert(is_line_of(m, l[p]));
    }
    assert(is_saved_lines(m, sorted));
}


/// Saving launch counters and reading the text back gives the same counters,
/// as long as no id holds a line break or ends with a carriage return (which
/// reading would take for the end of the line).
pub proof fn saved_counters_read_back(m: Map<Seq<char>, u32>)
    requires
        m.dom().finite(),
        m.dom().len() <= usize::MAX,
        ids_keep_lines(m),
    ensures
        parse_usage(saved_text(m)) == m,
{
    lemma_saved_lines(m);
    let ls = saved_lines(m);
    assert forall|i: int| 0 <= i < ls.len() implies (#[trigger] ls[i]).len() > 0 && ls[i].last() != '\r' by {
        assert(is_line_of(m, ls[i]));
        let k = line_id(ls[i]);
        lemma_decimal_spells(m[k] as nat);
        if k.len() == 0 {
            assert(ls[i].last() == '\t');
        } else {
            assert(ls[i].last() == k.last());
        }
    }
    assert forall|i: int, j: int| 0 <= i < ls.len() && 0 <= j < ls[i].len() implies (#[trigger] ls[i][j]) != '\n' by {
        assert(is_line_of(m, ls[i]));
        let k = line_id(ls[i]);
        let d = decimal(m[k] as nat);
        lemma_decimal_spells(m[k] as nat);
        if j < d.len() {
            assert(ls[i][j] == d[j]);
        } else if j > d.len() {
            assert(ls[i][j] == k[j - d.len() - 1]);
        }
    }
    lemma_lines_of_joined(ls);
    lemma_parse_saved(m, ls);
    assert(parse_usage(saved_text(m)) =~= m);
}

/// The counters a list of pairs describes are finitely many, no more than the pairs.
pub proof fn lemma_pairs_map_finite(s: Seq<(String, u32)>)
    ensures
        pairs_map(s).dom().finite(),
        pairs_map(s).dom().len() <= s.len(),
    decreases s.len(),
{
    if s.len() > 0 {
        lemma_pairs_map_finite(s.drop_last());
        let m = pairs_map(s.drop_last());
        vstd::set::axiom_set_insert_finite(m.dom(), s.last().0@);
        vstd::set::axiom_set_insert_len(m.dom(), s.last().0@);
        assert(pairs_map(s).dom() =~= m.dom().insert(s.last().0@));
    }
}

/// The ids of the counters hold no line break and do not end with a carriage return.
pub open spec fn ids_keep_lines(m: Map<Seq<char>, u32>) -> bool {
    &&& forall|k: Seq<char>, j: int| #[trigger] m.contains_key(k) && 0 <= j < k.len() ==> #[trigger] k[j] != '\n'
    &&& forall|k: Seq<char>| #[trigger] m.contains_key(k) && k.len() > 0 ==> k.last() != '\r'
}

pub proof fn lemma_pairs_map(s: Seq<(String, u32)>)
    requires
        distinct_ids(s),
    ensures
        forall|i: int|
            0 <= i < s.len() ==> #[trigger] pairs_map(s).contains_key(s[i].0@) && pairs_map(s)[s[i].0@]
                == s[i].1,
        forall|k: Seq<char>|
            #[trigger] pairs_map(s).contains_key(k) ==> exists|i: int| 0 <= i < s.len() && s[i].0@ == k,
        pairs_map(s).dom().finite(),
        pairs_map(s).dom().len() == s.len(),
    decreases s.len(),
{
    if s.len() > 0 {
        let t = s.drop_last();
        assert(distinct_ids(t)) by {
            assert forall|i: int, j: int| 0 <= i < j < t.len() implies (#[trigger] t[i]).0@ != (
            #[trigger] t[j]).0@ by {
                assert(t[i] == s[i] && t[j] == s[j]);
            }
        }
        lemma_pairs_map(t);
        let last = s.last();
        assert(!pairs_map(t).contains_key(last.0@)) by {
            if pairs_map(t).contains_key(last.0@) {
                let i = choose|i: int| 0 <= i < t.len() && t[i].0@ == last.0@;
                assert(s[i] == t[i]);
                assert(s[s.len() - 1] == last);
            }
        }
        assert forall|i: int| 0 <= i < s.len() implies #[trigger] pairs_map(s).contains_key(s[i].0@)
            && pairs_map(s)[s[i].0@] == s[i].1 by {
            if i < s.len() - 1 {
                assert(s[i] == t[i]);
                assert(s[i].0@ != s[s.len() - 1].0@);
            }
        }
        assert forall|k: Seq<char>| #[trigger] pairs_map(s).contains_key(k) implies exists|i: int|
            0 <= i < s.len() && s[i].0@ == k by {
            if k != last.0@ {
                let i = choose|i: int| 0 <= i < t.len() && t[i].0@ == k;
                assert(s[i] == t[i]);
            } else {
                assert(s[s.len() - 1].0@ == k);
            }
        }
    } else {
        assert(pairs_map(s).dom() =~= Set::empty());
    }
}

/// Setting the count of an id that is already listed.
proof fn lemma_pairs_map_update(s: Seq<(String, u32)>, i: int, p: (String, u32))
    requires
        distinct_ids(s),
        0 <= i < s.len(),
        p.0@ == s[i].0@,
    ensures
        pairs_map(s.update(i, p)) == pairs_map(s).insert(p.0@, p.1),
        distinct_ids(s.update(i, p)),
    decreases s.len(),
{
    let u = s.update(i, p);
    assert(distinct_ids(u)) by {
        assert forall|a: int, b: int| 0 <= a < b < u.len() implies (#[trigger] u[a]).0@ != (
        #[trigger] u[b]).0@ by {
            assert(s[a].0@ != s[b].0@);
        }
    }
    lemma_pairs_map(s);
    lemma_pairs_map(u);
    assert(pairs_map(u) =~= pairs_map(s).insert(p.0@, p.1)) by {
        assert forall|k: Seq<char>| #[trigger] pairs_map(u).contains_key(k) <==> pairs_map(s).insert(
            p.0@,
            p.1,
        ).contains_key(k) by {
            if pairs_map(u).contains_key(k) {
                let j = choose|j: int| 0 <= j < u.len() && u[j].0@ == k;
                if j != i {
                    assert(u[j] == s[j]);
                }
            }
            if pairs_map(s).contains_key(k) {
                let j = choose|j: int| 0 <= j < s.len() && s[j].0@ == k;
                if j != i {
                    assert(u[j] == s[j]);
                } else {
                    assert(u[i] == p);
                }
            }
            if k == p.0@ {
                assert(u[i] == p);
            }
        }
        assert forall|k: Seq<char>| #[trigger] pairs_map(u).contains_key(k) implies pairs_map(u)[k]
            == pairs_map(s).insert(p.0@, p.1)[k] by {
            let j = choose|j: int| 0 <= j < u.len() && u[j].0@ == k;
            if j != i {
                assert(u[j] == s[j]);
            } else {
                assert(u[i] == p);
            }
        }
    }
}

/// Adding an id that is not listed yet.
proof fn lemma_pairs_map_push(s: Seq<(String, u32)>, p: (String, u32))
    requires
        distinct_ids(s),
        !pairs_map(s).contains_key(p.0@),
    ensures
        pairs_map(s.push(p)) == pairs_map(s).insert(p.0@, p.1),
        distinct_ids(s.push(p)),
{
    let u = s.push(p);
    assert(u.drop_last() =~= s);
    lemma_pairs_map(s);
    assert(distinct_ids(u)) by {
        assert forall|a: int, b: int| 0 <= a < b < u.len() implies (#[trigger] u[a]).0@ != (
        #[trigger] u[b]).0@ by {
            if b == s.len() {
                assert(u[a] == s[a]);
                assert(pairs_map(s).contains_key(s[a].0@));
            } else {
                assert(u[a] == s[a] && u[b] == s[b]);
            }
        }
    }
}

impl View for UsageStats {
    type V = Map<Seq<char>, u32>;

    closed spec fn view(&self) -> Map<Seq<char>, u32> {
        pairs_map(self.counts@)
    }
}

impl Default for UsageStats {
    fn default() -> (r: Self)
        ensures
            r@ == Map::<Seq<char>, u32>::empty(),
    {
        UsageStats::new()
    }
}

impl UsageStats {
    #[verifier::type_invariant]
    spec fn inv(self) -> bool {
        distinct_ids(self.counts@)
    }

    /// No counters.
    pub fn new() -> (r: Self)
        ensures
            r@ == Map::<Seq<char>, u32>::empty(),
            r@.dom().finite(),
    {
        let r = UsageStats { counts: Vec::new() };
        proof {
            assert(r.counts@.len() == 0);
            lemma_pairs_map_finite(r.counts@);
        }
        r
    }

    /// The counters of a `UsageStats` are finitely many, and fewer than the
    /// machine's limit.
    pub proof fn counters_are_finite(self)
        ensures
            self@.dom().finite(),
            self@.dom().len() <= usize::MAX,
    {
        lemma_pairs_map_finite(self.counts@);
        assert(self.counts@.len() == self.counts.len());
    }

    /// Saving counters and reading the text back gives the same counters, as
    /// long as no id holds a line break or ends with a carriage return.
    pub proof fn saved_stats_read_back(self)
        requires
            ids_keep_lines(self@),
        ensures
            parse_usage(saved_text(self@)) == self@,
    {
        self.counters_are_finite();
        saved_counters_read_back(self@);
    }

    /// Where `id` is listed.
    fn position(&self, id: &Vec<char>) -> (r: Option<usize>)
        ensures
            r matches Some(i) ==> i < self.counts@.len() && self.counts@[i as int].0@ == id@,
            r is None ==> forall|i: int| 0 <= i < self.counts@.len() ==> self.counts@[i].0@ != id@,
    {
        let mut i: usize = 0;
        while i < self.counts.len()
            invariant
                i <= self.counts@.len(),
                forall|j: int| 0 <= j < i ==> self.counts@[j].0@ != id@,
            decreases self.counts.len() - i,
        {
            let key = chars_of(self.counts[i].0.as_str());
            if chars_eq(&key, id) {
                return Some(i);
            }
            i = i + 1;
        }
        None
    }

    /// How many times `id` was launched.
    pub fn count(&self, id: &str) -> (r: u32)
        ensures
            r == usage_count(self@, id@),
    {
        proof {
            use_type_invariant(self);
            lemma_pairs_map(self.counts@);
        }
        let key = chars_of(id);
        match self.position(&key) {
            Some(i) => self.counts[i].1,
            None => {
                proof {
                    if self@.contains_key(id@) {
                        let j = choose|j: int| 0 <= j < self.counts@.len() && self.counts@[j].0@ == id@;
                    }
                }
                0
            },
        }
    }

    /// The number of applications with a counter.
    pub fn len(&self) -> (r: usize)
        ensures
            r == self@.dom().len(),
    {
        proof {
            use_type_invariant(self);
            lemma_pairs_map(self.counts@);
        }
        self.counts.len()
    }

    /// Sets the count of `id` to `n`.
    fn set_count(&mut self, id: Vec<char>, n: u32)
        ensures
            final(self)@ == old(self)@.insert(id@, n),
    {
        proof {
            use_type_invariant(&*self);
            lemma_pairs_map(self.counts@);
        }
        let ghost before = self.counts@;
        let pos = self.position(&id);
        let mut counts: Vec<(String, u32)> = Vec::new();
        std::mem::swap(&mut counts, &mut self.counts);
        match pos {
            Some(i) => {
                let key = counts[i].0.clone();
                proof {
                    lemma_pairs_map_update(before, i as int, (key, n));
                }
                counts.set(i, (key, n));
            },
            None => {
                let key = string_of(&id);
                proof {
                    if pairs_map(before).contains_key(id@) {
                        let j = choose|j: int| 0 <= j < before.len() && before[j].0@ == id@;
                    }
                    lemma_pairs_map_push(before, (key, n));
                }
                counts.push((key, n));
            },
        }
        self.counts = counts;
    }

    /// Counts one more launch of `id`.
    pub fn bump(&mut self, id: &str)
        requires
            usage_count(old(self)@, id@) < u32::MAX,
        ensures
            final(self)@ == old(self)@.insert(id@, (usage_count(old(self)@, id@) + 1) as u32),
            final(self)@.dom().finite(),
    {
        let n = self.count(id);
        self.set_count(chars_of(id), n + 1);
        proof {
            lemma_pairs_map_finite(self.counts@);
        }
    }


    /// The text the counters are saved as; see `saved_text`.
    pub fn serialize(&self) -> (r: String)
        ensures
            r@ == saved_text(self@),
            ids_keep_lines(self@) ==> parse_usage(r@) == self@,
    {
        proof {
            if ids_keep_lines(self@) {
                self.saved_stats_read_back();
            }
            use_type_invariant(self);
            lemma_pairs_map(self.counts@);
        }
        let ghost m = self@;
        let mut lines: Vec<Vec<char>> = Vec::new();
        let mut keys: Vec<SortKey> = Vec::new();
        let mut i: usize = 0;
        while i < self.counts.len()
            invariant
                m == self@,
                distinct_ids(self.counts@),
                i <= self.counts@.len(),
                lines@.len() == i,
                keys@.len() == i,
                forall|j: int| 0 <= j < i ==> (#[trigger] lines@[j])@ == usage_line(self.counts@[j].0@, self.counts@[j].1),
                forall|j: int| 0 <= j < i ==> (#[trigger] keys@[j]).view() == (0int, lines@[j]@),
            decreases self.counts.len() - i,
        {
            let mut line = decimal_chars(self.counts[i].1);
            line.push('\t');
            let id = chars_of(self.counts[i].0.as_str());
            let mut k: usize = 0;
            let ghost base = line@;
            while k < id.len()
                invariant
                    k <= id.len(),
                    line@ == base + id@.take(k as int),
                decreases id.len() - k,
            {
                line.push(id[k]);
                assert(id@.take(k + 1) =~= id@.take(k as int).push(id@[k as int]));
                k = k + 1;
            }
            assert(id@.take(id.len() as int) =~= id@);
            let text = line.clone();
            keys.push(SortKey { primary: 0, text });
            lines.push(line);
            i = i + 1;
        }
        let order = sort_positions(&keys);
        let ghost kv = key_views(keys@);
        let mut out: Vec<char> = Vec::new();
        let mut k: usize = 0;
        let ghost mut done: Seq<Seq<char>> = seq![];
        while k < order.len()
            invariant
                m == self@,
                distinct_ids(self.counts@),
                lines@.len() == self.counts@.len(),
                kv.len() == lines@.len(),
                kv == key_views(keys@),
                forall|j: int| 0 <= j < lines@.len() ==> (#[trigger] lines@[j])@ == usage_line(self.counts@[j].0@, self.counts@[j].1),
                forall|j: int| 0 <= j < lines@.len() ==> #[trigger] kv[j] == (0int, lines@[j]@),
                is_sort_order(kv, order@),
                k <= order.len(),
                done.len() == k,
                forall|j: int| 0 <= j < k ==> #[trigger] done[j] == lines@[order@[j] as int]@,
                out@ == join_lines(done),
            decreases order.len() - k,
        {
            assert(order@[k as int] < kv.len());
            let line = &lines[order[k]];
            if k > 0 {
                out.push('\n');
            }
            let ghost base = out@;
            let mut j: usize = 0;
            while j < line.len()
                invariant
                    j <= line.len(),
                    out@ == base + line@.take(j as int),
                decreases line.len() - j,
            {
                out.push(line[j]);
                assert(line@.take(j + 1) =~= line@.take(j as int).push(line@[j as int]));
                j = j + 1;
            }
            assert(line@.take(line.len() as int) =~= line@);
            proof {
                let nd = done.push(line@);
                assert(nd.drop_last() =~= done);
                if k == 0 {
                    assert(out@ =~= line@);
                } else {
                    assert(out@ =~= join_lines(done) + seq!['\n'] + line@);
                }
                done = nd;
            }
            k = k + 1;
        }
        proof {
            assert(is_saved_lines(m, done)) by {
                assert forall|i: int, j: int| 0 <= i < j < done.len() implies seq_lt(
                    #[trigger] done[i],
                    #[trigger] done[j],
                ) by {
                    let pi = order@[i] as int;
                    let pj = order@[j] as int;
                    assert(before(kv, pi, pj));
                    if kv[pi] == kv[pj] {
                        lemma_usage_line_id(self.counts@[pi].0@, self.counts@[pi].1, self.counts@[pj].0@, self.counts@[pj].1);
                        assert(pi != pj) by {
                            assert(order@[i] != order@[j]) by {
                                if order@[i] == order@[j] {
                                    crate::order::lemma_before_irreflexive(kv, pi);
                                }
                            }
                        }
                        assert(self.counts@[pi].0@ != self.counts@[pj].0@) by {
                            if pi < pj {
                                assert(self.counts@[pi].0@ != self.counts@[pj].0@);
                            } else {
                                assert(self.counts@[pj].0@ != self.counts@[pi].0@);
                            }
                        }
                    }
                }
                assert forall|key: Seq<char>| #[trigger] m.contains_key(key) implies done.contains(
                    usage_line(key, m[key]),
                ) by {
                    let p = choose|p: int| 0 <= p < self.counts@.len() && self.counts@[p].0@ == key;
                    let pu = p as usize;
                    assert(order@.contains(pu));
                    let q = choose|q: int| 0 <= q < order@.len() && order@[q] == pu;
                    assert(done[q] == usage_line(key, m[key]));
                }
                assert forall|i: int| 0 <= i < done.len() implies is_line_of(m, #[trigger] done[i]) by {
                    let p = order@[i] as int;
                    let key = self.counts@[p].0@;
                    assert(m.contains_key(key));
                    lemma_usage_line_parses(key, m[key]);
                }
            }
            lemma_sorted_unique(done, saved_lines(m));
        }
        string_of(&out)
    }

    /// Reads counters from their text form; see `parse_usage`.
    pub fn parse(content: &str) -> (r: Self)
        ensures
            r@ == parse_usage(content@),
            r@.dom().finite(),
    {
        let text = chars_of(content);
        let all = split_lines(&text);
        let mut stats = UsageStats::new();
        let mut k: usize = 0;
        while k < all.len()
            invariant
                k <= all.len(),
                views(all@) == lines(content@),
                stats@ == parse_lines(views(all@).take(k as int)),
            decreases all.len() - k,
        {
            let ghost ls = views(all@).take(k + 1);
            assert(ls.drop_last() =~= views(all@).take(k as int));
            assert(ls.last() == all@[k as int]@);
            let line = &all[k];
            if let Some(tab) = find_char_from(line, '\t', 0) {
                proof {
                    assert(line@.skip(0) =~= line@);
                    lemma_find_char(line@, '\t');
                }
                let count = trim_chars(&crate::text::slice_chars(line, 0, tab));
                let id = crate::text::slice_chars(line, tab + 1, line.len());
                if let Some(n) = parse_unsigned_chars(&count, 10, 0xffff_ffff) {
                    stats.set_count(id, n as u32);
                }
            } else {
                proof {
                    assert(line@.skip(0) =~= line@);
                }
            }
            k = k + 1;
        }
        assert(views(all@).take(all.len() as int) =~= views(all@));
        proof {
            lemma_pairs_map_finite(stats.counts@);
        }
        stats
    }
}

} // verus!
