//! Turning the `.desktop` files found on disk into the application list.
use vstd::prelude::*;
use crate::entry::DesktopEntry;
use crate::order::{is_sort_order, key_views, sort_order, sort_positions, SortKey};
use crate::parser::{desktop_values, entry_from, entry_id, parse_desktop_entry, shown_application};
use crate::text::{chars_eq, chars_of, lemma_seq_lt_irreflexive, lemma_seq_lt_transitive, lowercase, seq_lt, to_lowercase, trim};

verus! {

/// A `.desktop` file: where it was found and what it holds.
pub struct DesktopFile {
    pub path: String,
    pub content: String,
}

/// The files among the first `k` that give an application whose id no
/// earlier such file gave, in order.
pub open spec fn kept_files(files: Seq<DesktopFile>, k: nat) -> Seq<usize>
    decreases k,
{
    if k == 0 {
        seq![]
    } else {
        let prev = kept_files(files, (k - 1) as nat);
        let f = files[k - 1];
        if shown_application(desktop_values(f.content@)) && !(exists|j: int|
            0 <= j < prev.len() && entry_id(files[prev[j] as int].path@) == entry_id(f.path@)) {
            prev.push((k - 1) as usize)
        } else {
            prev
        }
    }
}

/// The name key a kept file is sorted by: the lowercase name.
pub open spec fn file_key(f: DesktopFile) -> (int, Seq<char>) {
    (0, lowercase(trim(desktop_values(f.content@)["Name"@])))
}

/// The files the application list is made from, in list order: the kept
/// files sorted by lowercase name, equal names in the order found.
pub open spec fn listed_files(files: Seq<DesktopFile>) -> Seq<usize> {
    let kept = kept_files(files, files.len());
    sort_order(kept.map_values(|i: usize| file_key(files[i as int]))).map_values(
        |p: usize| kept[p as int],
    )
}

/// The applications described by `files` (in the order they were found):
/// one per id, the first file found winning, sorted by lowercase name.
pub fn scan_desktop_entries(files: Vec<DesktopFile>) -> (r: Vec<DesktopEntry>)
    ensures
        r@.len() == listed_files(files@).len(),
        forall|k: int|
            0 <= k < r@.len() ==> #[trigger] entry_from(
                r@[k],
                files@[listed_files(files@)[k] as int].path@,
                desktop_values(files@[listed_files(files@)[k] as int].content@),
            ),
        forall|a: int, b: int| 0 <= a < b < r@.len() ==> (#[trigger] r@[a]).id@ != (#[trigger] r@[b]).id@,
        forall|a: int, b: int|
            0 <= a < b < r@.len() ==> !seq_lt(lowercase((#[trigger] r@[b]).name@), lowercase((#[trigger] r@[a]).name@)),
{
    let ghost fs = files@;
    let mut found: Vec<DesktopEntry> = Vec::new();
    let mut kept: Vec<usize> = Vec::new();
    let mut keys: Vec<SortKey> = Vec::new();
    let mut i: usize = 0;
    while i < files.len()
        invariant
            fs == files@,
            i <= files.len(),
            kept@ == kept_files(fs, i as nat),
            found@.len() == kept@.len(),
            forall|k: int| 0 <= k < kept@.len() ==> #[trigger] kept@[k] < i,
            forall|k: int|
                0 <= k < found@.len() ==> #[trigger] entry_from(
                    found@[k],
                    fs[kept@[k] as int].path@,
                    desktop_values(fs[kept@[k] as int].content@),
                ),
            key_views(keys@) == kept@.map_values(|j: usize| file_key(fs[j as int])),
        decreases files.len() - i,
    {
        let file = &files[i];
        if let Some(entry) = parse_desktop_entry(file.path.as_str(), file.content.as_str()) {
            let id = chars_of(entry.id.as_str());
            let mut seen = false;
            let mut j: usize = 0;
            while j < found.len()
                invariant
                    fs == files@,
                    j <= found@.len(),
                    found@.len() == kept@.len(),
                    id@ == entry_id(fs[i as int].path@),
                    forall|k: int| 0 <= k < kept@.len() ==> #[trigger] kept@[k] < i,
                    forall|k: int|
                        0 <= k < found@.len() ==> #[trigger] entry_from(
                            found@[k],
                            fs[kept@[k] as int].path@,
                            desktop_values(fs[kept@[k] as int].content@),
                        ),
                    !seen ==> forall|k: int|
                        0 <= k < j ==> entry_id(fs[kept@[k] as int].path@) != id@,
                    seen ==> exists|k: int|
                        0 <= k < kept@.len() && entry_id(fs[kept@[k] as int].path@) == id@,
                decreases found@.len() - j,
            {
                let other = chars_of(found[j].id.as_str());
                assert(entry_from(found@[j as int], fs[kept@[j as int] as int].path@, desktop_values(fs[kept@[j as int] as int].content@)));
                if chars_eq(&other, &id) {
                    seen = true;
                }
                j = j + 1;
            }
            if !seen {
                let ghost old_kept = kept@;
                let ghost old_keys = keys@;
                let name = to_lowercase(entry.name.as_str());
                keys.push(SortKey { primary: 0, text: name });
                found.push(entry);
                kept.push(i);
                proof {
                    assert(key_views(keys@) =~= key_views(old_keys).push(file_key(fs[i as int])));
                    assert(kept@.map_values(|j: usize| file_key(fs[j as int])) =~= old_kept.map_values(
                        |j: usize| file_key(fs[j as int]),
                    ).push(file_key(fs[i as int])));
                    assert(kept@ == kept_files(fs, (i + 1) as nat));
                }
            } else {
                assert(kept@ == kept_files(fs, (i + 1) as nat));
            }
        } else {
            assert(kept@ == kept_files(fs, (i + 1) as nat));
        }
        i = i + 1;
    }
    let order = sort_positions(&keys);
    let ghost kv = kept@.map_values(|j: usize| file_key(fs[j as int]));
    let mut out: Vec<DesktopEntry> = Vec::new();
    let mut k: usize = 0;
    while k < order.len()
        invariant
            fs == files@,
            kept@ == kept_files(fs, fs.len()),
            key_views(keys@) == kv,
            order@ == sort_order(kv),
            is_sort_order(kv, order@),
            kv.len() == kept@.len(),
            found@.len() == kept@.len(),
            forall|j: int|
                0 <= j < found@.len() ==> #[trigger] entry_from(
                    found@[j],
                    fs[kept@[j] as int].path@,
                    desktop_values(fs[kept@[j] as int].content@),
                ),
            k <= order.len(),
            out@.len() == k,
            forall|j: int|
                0 <= j < k ==> #[trigger] entry_from(
                    out@[j],
                    fs[kept@[order@[j] as int] as int].path@,
                    desktop_values(fs[kept@[order@[j] as int] as int].content@),
                ),
        decreases order.len() - k,
    {
        assert(order@[k as int] < kv.len());
        let e = found[order[k]].duplicate();
        out.push(e);
        k = k + 1;
    }
    proof {
        let listed = listed_files(fs);
        assert(listed =~= order@.map_values(|p: usize| kept@[p as int]));
        assert forall|j: int| 0 <= j < out@.len() implies #[trigger] entry_from(
            out@[j],
            fs[listed[j] as int].path@,
            desktop_values(fs[listed[j] as int].content@),
        ) by {
            assert(listed[j] == kept@[order@[j] as int]);
        }
        assert forall|a: int, b: int| 0 <= a < b < out@.len() implies (#[trigger] out@[a]).id@ != (
        #[trigger] out@[b]).id@ by {
            assert(entry_from(out@[a], fs[listed[a] as int].path@, desktop_values(fs[listed[a] as int].content@)));
            assert(entry_from(out@[b], fs[listed[b] as int].path@, desktop_values(fs[listed[b] as int].content@)));
            scanned_ids_are_distinct(fs, a, b);
        }
        assert forall|a: int, b: int| 0 <= a < b < out@.len() implies !seq_lt(
            lowercase((#[trigger] out@[b]).name@),
            lowercase((#[trigger] out@[a]).name@),
        ) by {
            assert(entry_from(out@[a], fs[listed[a] as int].path@, desktop_values(fs[listed[a] as int].content@)));
            assert(entry_from(out@[b], fs[listed[b] as int].path@, desktop_values(fs[listed[b] as int].content@)));
            scanned_entries_are_sorted_by_name(fs, a, b);
        }
    }
    out
}

/// The file at `j` describes an application to show.
pub open spec fn shows_application(files: Seq<DesktopFile>, j: int) -> bool {
    shown_application(desktop_values(files[j].content@))
}

/// The id file `j` gives.
pub open spec fn file_id(files: Seq<DesktopFile>, j: int) -> Seq<char> {
    entry_id(files[j].path@)
}

proof fn lemma_kept_files(files: Seq<DesktopFile>, k: nat)
    requires
        k <= files.len(),
        files.len() <= usize::MAX,
    ensures
        kept_files(files, k).len() <= k,
        forall|a: int|
            0 <= a < kept_files(files, k).len() ==> #[trigger] kept_files(files, k)[a] < k && shows_application(
                files,
                kept_files(files, k)[a] as int,
            ),
        forall|a: int, b: int|
            0 <= a < b < kept_files(files, k).len() ==> file_id(files, #[trigger] kept_files(files, k)[a] as int)
                != file_id(files, #[trigger] kept_files(files, k)[b] as int),
        forall|j: int|
            0 <= j < k && #[trigger] shows_application(files, j) ==> exists|a: int|
                0 <= a < kept_files(files, k).len() && kept_files(files, k)[a] <= j && file_id(
                    files,
                    kept_files(files, k)[a] as int,
                ) == file_id(files, j),
    decreases k,
{
    if k > 0 {
        let prev = kept_files(files, (k - 1) as nat);
        lemma_kept_files(files, (k - 1) as nat);
        let cur = kept_files(files, k);
        let f = files[k - 1];
        let dup = exists|j: int| 0 <= j < prev.len() && entry_id(files[prev[j] as int].path@) == entry_id(f.path@);
        if shows_application(files, k - 1) && !dup {
            assert(cur == prev.push((k - 1) as usize));
            assert forall|a: int| 0 <= a < cur.len() implies #[trigger] cur[a] < k && shows_application(
                files,
                cur[a] as int,
            ) by {
                if a < prev.len() {
                    assert(cur[a] == prev[a]);
                }
            }
            assert forall|a: int, b: int| 0 <= a < b < cur.len() implies file_id(files, #[trigger] cur[a] as int)
                != file_id(files, #[trigger] cur[b] as int) by {
                assert(cur[a] == prev[a]);
                if b < prev.len() {
                    assert(cur[b] == prev[b]);
                } else {
                    assert(cur[b] == (k - 1) as usize);
                    if file_id(files, cur[a] as int) == file_id(files, cur[b] as int) {
                        assert(entry_id(files[prev[a] as int].path@) == entry_id(f.path@));
                    }
                }
            }
            assert forall|j: int| 0 <= j < k && #[trigger] shows_application(files, j) implies exists|a: int|
                0 <= a < cur.len() && cur[a] <= j && file_id(files, cur[a] as int) == file_id(files, j) by {
                if j < k - 1 {
                    let a = choose|a: int|
                        0 <= a < prev.len() && prev[a] <= j && file_id(files, prev[a] as int) == file_id(files, j);
                    assert(cur[a] == prev[a]);
                } else {
                    assert(cur[prev.len() as int] == (k - 1) as usize);
                }
            }
        } else {
            assert(cur == prev);
            assert forall|j: int| 0 <= j < k && #[trigger] shows_application(files, j) implies exists|a: int|
                0 <= a < cur.len() && cur[a] <= j && file_id(files, cur[a] as int) == file_id(files, j) by {
                if j < k - 1 {
                    let a = choose|a: int|
                        0 <= a < prev.len() && prev[a] <= j && file_id(files, prev[a] as int) == file_id(files, j);
                } else {
                    let a = choose|a: int|
                        0 <= a < prev.len() && entry_id(files[prev[a] as int].path@) == entry_id(f.path@);
                    assert(prev[a] < k - 1);
                }
            }
        }
    }
}

/// Where the listed files sit among the kept ones.
proof fn lemma_listed_files(files: Seq<DesktopFile>)
    requires
        files.len() <= usize::MAX,
    ensures
        ({
            let kept = kept_files(files, files.len());
            let kv = kept.map_values(|i: usize| file_key(files[i as int]));
            let o = sort_order(kv);
            &&& is_sort_order(kv, o)
            &&& listed_files(files).len() == kept.len()
            &&& forall|a: int|
                0 <= a < listed_files(files).len() ==> #[trigger] listed_files(files)[a] == kept[o[a] as int]
        }),
{
    let kept = kept_files(files, files.len());
    lemma_kept_files(files, files.len());
    let kv = kept.map_values(|i: usize| file_key(files[i as int]));
    crate::order::lemma_sort_order(kv);
}

/// The application list holds one application per id: no two listed files give the same id.
pub proof fn scanned_ids_are_distinct(files: Seq<DesktopFile>, a: int, b: int)
    requires
        files.len() <= usize::MAX,
        0 <= a < b < listed_files(files).len(),
    ensures
        file_id(files, listed_files(files)[a] as int) != file_id(files, listed_files(files)[b] as int),
{
    let kept = kept_files(files, files.len());
    let kv = kept.map_values(|i: usize| file_key(files[i as int]));
    let o = sort_order(kv);
    lemma_kept_files(files, files.len());
    lemma_listed_files(files);
    let (pa, pb) = (o[a] as int, o[b] as int);
    assert(crate::order::before(kv, pa, pb));
    if pa == pb {
        crate::order::lemma_before_irreflexive(kv, pa);
    }
    assert(listed_files(files)[a] == kept[pa]);
    assert(listed_files(files)[b] == kept[pb]);
    if pa < pb {
        assert(file_id(files, kept[pa] as int) != file_id(files, kept[pb] as int));
    } else {
        assert(file_id(files, kept[pb] as int) != file_id(files, kept[pa] as int));
    }
}

/// The application list is in order of lowercase names.
pub proof fn scanned_entries_are_sorted_by_name(files: Seq<DesktopFile>, a: int, b: int)
    requires
        files.len() <= usize::MAX,
        0 <= a < b < listed_files(files).len(),
    ensures
        !seq_lt(
            file_key(files[listed_files(files)[b] as int]).1,
            file_key(files[listed_files(files)[a] as int]).1,
        ),
{
    let kept = kept_files(files, files.len());
    let kv = kept.map_values(|i: usize| file_key(files[i as int]));
    let o = sort_order(kv);
    lemma_listed_files(files);
    let (pa, pb) = (o[a] as int, o[b] as int);
    assert(crate::order::before(kv, pa, pb));
    assert(kv[pa] == file_key(files[listed_files(files)[a] as int]));
    assert(kv[pb] == file_key(files[listed_files(files)[b] as int]));
    let na = kv[pa].1;
    let nb = kv[pb].1;
    if seq_lt(nb, na) {
        if seq_lt(na, nb) {
            lemma_seq_lt_transitive(na, nb, na);
        }
        lemma_seq_lt_irreflexive(na);
    }
}

/// Every file that describes an application is represented in the list: by
/// itself, or by a file found earlier with the same id.
pub proof fn every_application_is_listed(files: Seq<DesktopFile>, j: int)
    requires
        files.len() <= usize::MAX,
        0 <= j < files.len(),
        shows_application(files, j),
    ensures
        exists|a: int|
            0 <= a < listed_files(files).len() && listed_files(files)[a] <= j && file_id(
                files,
                listed_files(files)[a] as int,
            ) == file_id(files, j),
{
    let kept = kept_files(files, files.len());
    let p = lemma_kept_witness(files, j);
    let kv = kept.map_values(|i: usize| file_key(files[i as int]));
    let o = sort_order(kv);
    lemma_listed_files(files);
    assert(o.contains(p as usize));
    let t = choose|t: int| 0 <= t < o.len() && o[t] == p as usize;
    assert(listed_files(files)[t] == kept[p]);
}

/// A kept file with the id of file `j`, found no later than it.
proof fn lemma_kept_witness(files: Seq<DesktopFile>, j: int) -> (p: int)
    requires
        files.len() <= usize::MAX,
        0 <= j < files.len(),
        shows_application(files, j),
    ensures
        0 <= p < kept_files(files, files.len()).len(),
        kept_files(files, files.len()).len() <= files.len(),
        kept_files(files, files.len())[p] <= j,
        file_id(files, kept_files(files, files.len())[p] as int) == file_id(files, j),
{
    let kept = kept_files(files, files.len());
    lemma_kept_files(files, files.len());
    choose|p: int| 0 <= p < kept.len() && kept[p] <= j && file_id(files, kept[p] as int) == file_id(files, j)
}

} // verus!
