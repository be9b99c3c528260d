//! Folder statistics: totals over a walked tree, the largest file, a
//! per-category breakdown, empty folders and files over a size threshold.

use vstd::prelude::*;
use crate::classifier::{category_key, spec_category_key, FileCategory};
use crate::compare::saturated;
use crate::fmt::{format_size, spec_format_size};
use crate::organizer::category_order;
use crate::records::{clone_file_info, distinct_within, same_file_info, FileInfo};
use crate::sorting::{pair_above, sort_pairs_desc};

verus! {

/// One category's share of the totals.
#[derive(Debug, Clone)]
pub struct CategoryStats {
    pub count: usize,
    pub total_size: u64,
    pub total_size_formatted: String,
}

/// The statistics of one walked folder.
#[derive(Debug, Clone)]
pub struct FolderStats {
    pub path: String,
    pub total_size: u64,
    pub total_size_formatted: String,
    pub file_count: usize,
    pub folder_count: usize,
    pub largest_file: Option<FileInfo>,
    pub category_breakdown: Vec<(String, CategoryStats)>,
}

/// How many entries of the walk are directories.
pub open spec fn count_dirs(s: Seq<FileInfo>) -> int
    decreases s.len(),
{
    if s.len() == 0 {
        0
    } else {
        count_dirs(s.drop_last()) + if s.last().is_directory {
            1int
        } else {
            0int
        }
    }
}

/// How many entries of the walk are files.
pub open spec fn count_files(s: Seq<FileInfo>) -> int
    decreases s.len(),
{
    if s.len() == 0 {
        0
    } else {
        count_files(s.drop_last()) + if s.last().is_directory {
            0int
        } else {
            1int
        }
    }
}

/// The byte total of the walk's files.
pub open spec fn sum_file_sizes(s: Seq<FileInfo>) -> int
    decreases s.len(),
{
    if s.len() == 0 {
        0
    } else {
        sum_file_sizes(s.drop_last()) + if s.last().is_directory {
            0int
        } else {
            s.last().size as int
        }
    }
}

/// How many files of the walk belong to the category.
pub open spec fn count_category(s: Seq<FileInfo>, c: FileCategory) -> int
    decreases s.len(),
{
    if s.len() == 0 {
        0
    } else {
        count_category(s.drop_last(), c) + if !s.last().is_directory && s.last().category == c {
            1int
        } else {
            0int
        }
    }
}

/// The byte total of the category's files.
pub open spec fn sum_category(s: Seq<FileInfo>, c: FileCategory) -> int
    decreases s.len(),
{
    if s.len() == 0 {
        0
    } else {
        sum_category(s.drop_last(), c) + if !s.last().is_directory && s.last().category == c {
            s.last().size as int
        } else {
            0int
        }
    }
}

/// `i` points at the walk's largest file: no file is larger, and every
/// earlier file is strictly smaller, so the first of the largest size is
/// meant.
pub open spec fn is_first_largest(s: Seq<FileInfo>, i: int) -> bool {
    &&& 0 <= i < s.len()
    &&& !s[i].is_directory
    &&& forall|j: int|
        0 <= j < s.len() && !(#[trigger] s[j]).is_directory ==> s[j].size <= s[i].size
    &&& forall|j: int| 0 <= j < i && !(#[trigger] s[j]).is_directory ==> s[j].size < s[i].size
}

/// The breakdown names the category and carries its exact share.
pub open spec fn breakdown_entry_ok(
    e: (String, CategoryStats),
    c: FileCategory,
    s: Seq<FileInfo>,
) -> bool {
    &&& e.0@ == spec_category_key(c)
    &&& e.1.count == count_category(s, c)
    &&& e.1.total_size == saturated(sum_category(s, c))
    &&& e.1.total_size_formatted@ == spec_format_size(e.1.total_size)
}

/// The breakdown has the share of some populated category.
pub open spec fn some_breakdown_entry(e: (String, CategoryStats), s: Seq<FileInfo>) -> bool {
    exists|c: int|
        #![trigger category_order(c)]
        0 <= c && c < 8 && count_category(s, category_order(c)) > 0 && breakdown_entry_ok(
            e,
            category_order(c),
            s,
        )
}

/// The entry belongs to one of the first `c` categories of the listing
/// order.
pub open spec fn entry_of_earlier(e: (String, CategoryStats), c: int) -> bool {
    exists|c2: int|
        #![trigger category_order(c2)]
        0 <= c2 && c2 < c && e.0@ == spec_category_key(category_order(c2))
}

/// The breakdown carries the share of category `c`.
pub open spec fn has_breakdown(r: Seq<(String, CategoryStats)>, c: FileCategory) -> bool {
    exists|k: int| #![trigger r[k]] 0 <= k && k < r.len() && r[k].0@ == spec_category_key(c)
}

/// A file count is never negative.
proof fn lemma_count_files_nonneg(s: Seq<FileInfo>)
    ensures
        count_files(s) >= 0,
    decreases s.len(),
{
    if s.len() > 0 {
        lemma_count_files_nonneg(s.drop_last());
    }
}

/// A walk without files is all directories.
proof fn lemma_no_files(s: Seq<FileInfo>)
    requires
        count_files(s) == 0,
    ensures
        forall|j: int| 0 <= j < s.len() ==> (#[trigger] s[j]).is_directory,
    decreases s.len(),
{
    if s.len() > 0 {
        lemma_count_files_nonneg(s.drop_last());
        lemma_no_files(s.drop_last());
        assert forall|j: int| 0 <= j < s.len() implies (#[trigger] s[j]).is_directory by {
            if j < s.len() - 1 {
                assert(s.drop_last()[j].is_directory);
            }
        }
    }
}

/// Sums the sizes of one category's files, saturating, and counts them.
fn category_share(entries: &Vec<FileInfo>, c: FileCategory) -> (r: (usize, u64))
    ensures
        r.0 == count_category(entries@, c),
        r.1 == saturated(sum_category(entries@, c)),
{
    let n = entries.len();
    let mut count: usize = 0;
    let mut acc: u64 = 0;
    let mut sat = false;
    let mut i: usize = 0;
    while i < n
        invariant
            i <= n,
            n == entries@.len(),
            count == count_category(entries@.take(i as int), c),
            count <= i,
            !sat ==> acc == sum_category(entries@.take(i as int), c),
            sat ==> acc == u64::MAX && sum_category(entries@.take(i as int), c) > u64::MAX,
            sum_category(entries@.take(i as int), c) >= acc,
        decreases n - i,
    {
        proof {
            assert(entries@.take(i + 1 as int).drop_last() =~= entries@.take(i as int));
            assert(entries@.take(i + 1 as int).last() == entries@[i as int]);
        }
        let f = &entries[i];
        if !f.is_directory && f.category == c {
            count = count + 1;
            let sz = f.size;
            if sat {
            } else if acc > u64::MAX - sz {
                sat = true;
                acc = u64::MAX;
            } else {
                acc = acc + sz;
            }
        }
        i = i + 1;
    }
    proof {
        assert(entries@.take(n as int) =~= entries@);
    }
    (count, acc)
}

/// Computes the statistics of one walked folder: how many files and
/// folders the walk saw, their byte total, the first file of the largest
/// size, and one breakdown entry per populated category, in the fixed
/// category order.
pub fn analyze_folder(path: String, entries: &Vec<FileInfo>) -> (r: FolderStats)
    ensures
        r.path@ == path@,
        r.file_count == count_files(entries@),
        r.folder_count == count_dirs(entries@),
        r.total_size == saturated(sum_file_sizes(entries@)),
        r.total_size_formatted@ == spec_format_size(r.total_size),
        match r.largest_file {
            Some(f) => exists|i: int|
                #![trigger entries@[i]]
                is_first_largest(entries@, i) && same_file_info(f, entries@[i]),
            None => count_files(entries@) == 0,
        },
        forall|k: int|
            0 <= k < r.category_breakdown@.len() ==> some_breakdown_entry(
                #[trigger] r.category_breakdown@[k],
                entries@,
            ),
        forall|c: int|
            0 <= c < 8 && count_category(entries@, #[trigger] category_order(c)) > 0
                ==> has_breakdown(r.category_breakdown@, category_order(c)),
        forall|k1: int, k2: int|
            0 <= k1 < k2 < r.category_breakdown@.len() ==> (
            #[trigger] r.category_breakdown@[k1]).0@ != (#[trigger] r.category_breakdown@[k2]).0@,
{
    let n = entries.len();
    let mut file_count: usize = 0;
    let mut folder_count: usize = 0;
    let mut acc: u64 = 0;
    let mut sat = false;
    let mut largest_idx: Option<usize> = None;
    let mut i: usize = 0;
    while i < n
        invariant
            i <= n,
            n == entries@.len(),
            file_count == count_files(entries@.take(i as int)),
            folder_count == count_dirs(entries@.take(i as int)),
            file_count <= i && folder_count <= i,
            !sat ==> acc == sum_file_sizes(entries@.take(i as int)),
            sat ==> acc == u64::MAX && sum_file_sizes(entries@.take(i as int)) > u64::MAX,
            sum_file_sizes(entries@.take(i as int)) >= acc,
            match largest_idx {
                Some(li) => li < i && is_first_largest(entries@.take(i as int), li as int),
                None => count_files(entries@.take(i as int)) == 0,
            },
        decreases n - i,
    {
        proof {
            assert(entries@.take(i + 1 as int).drop_last() =~= entries@.take(i as int));
            assert(entries@.take(i + 1 as int).last() == entries@[i as int]);
            assert(forall|j: int|
                0 <= j < i ==> #[trigger] entries@.take(i + 1 as int)[j] == entries@.take(
                    i as int,
                )[j]);
        }
        let f = &entries[i];
        if f.is_directory {
            folder_count = folder_count + 1;
        } else {
            file_count = file_count + 1;
            let sz = f.size;
            if sat {
            } else if acc > u64::MAX - sz {
                sat = true;
                acc = u64::MAX;
            } else {
                acc = acc + sz;
            }
            let replace = match largest_idx {
                Some(li) => entries[li].size < sz,
                None => true,
            };
            proof {
                let pre = entries@.take(i as int);
                let nxt = entries@.take(i + 1 as int);
                match largest_idx {
                    Some(li) => {
                        if pre[li as int].size < sz {
                            assert forall|j: int|
                                0 <= j < nxt.len() && !(#[trigger] nxt[j]).is_directory implies
                                nxt[j].size <= nxt[i as int].size by {
                                if j < i {
                                    assert(pre[j].size <= pre[li as int].size);
                                }
                            }
                            assert forall|j: int|
                                0 <= j < i && !(#[trigger] nxt[j]).is_directory implies nxt[j].size
                                < nxt[i as int].size by {
                                assert(pre[j].size <= pre[li as int].size);
                            }
                            assert(is_first_largest(nxt, i as int));
                        } else {
                            assert forall|j: int|
                                0 <= j < nxt.len() && !(#[trigger] nxt[j]).is_directory implies
                                nxt[j].size <= nxt[li as int].size by {
                                if j < i {
                                    assert(pre[j].size <= pre[li as int].size);
                                }
                            }
                            assert(is_first_largest(nxt, li as int));
                        }
                    },
                    None => {
                        lemma_no_files(pre);
                        assert forall|j: int|
                            0 <= j < i && !(#[trigger] nxt[j]).is_directory implies nxt[j].size
                            < nxt[i as int].size by {
                            assert(pre[j].is_directory);
                        }
                        assert(is_first_largest(nxt, i as int));
                    },
                }
            }
            if replace {
                largest_idx = Some(i);
            }
        }
        i = i + 1;
    }
    proof {
        assert(entries@.take(n as int) =~= entries@);
    }
    let largest_file: Option<FileInfo> = match largest_idx {
        Some(li) => Some(clone_file_info(&entries[li])),
        None => None,
    };
    let mut category_breakdown: Vec<(String, CategoryStats)> = Vec::new();
    let mut c: usize = 0;
    while c < 8
        invariant
            c <= 8,
            n == entries@.len(),
            forall|k: int|
                0 <= k < category_breakdown@.len() ==> some_breakdown_entry(
                    #[trigger] category_breakdown@[k],
                    entries@,
                ),
            forall|c2: int|
                0 <= c2 < c && count_category(entries@, #[trigger] category_order(c2)) > 0
                    ==> has_breakdown(category_breakdown@, category_order(c2)),
            forall|k: int|
                0 <= k < category_breakdown@.len() ==> entry_of_earlier(
                    #[trigger] category_breakdown@[k],
                    c as int,
                ),
            forall|k1: int, k2: int|
                0 <= k1 < k2 < category_breakdown@.len() ==> (
                #[trigger] category_breakdown@[k1]).0@ != (
                #[trigger] category_breakdown@[k2]).0@,
        decreases 8 - c,
    {
        let cat = match c {
            0 => FileCategory::Images,
            1 => FileCategory::Documents,
            2 => FileCategory::Videos,
            3 => FileCategory::Music,
            4 => FileCategory::Archives,
            5 => FileCategory::Installers,
            6 => FileCategory::Code,
            _ => FileCategory::Others,
        };
        let (count, size) = category_share(entries, cat);
        let ghost old_breakdown = category_breakdown@;
        if count > 0 {
            let stats = CategoryStats {
                count,
                total_size: size,
                total_size_formatted: format_size(size),
            };
            let entry = (String::from_str(category_key(&cat)), stats);
            proof {
                assert(cat == category_order(c as int));
                assert(breakdown_entry_ok(entry, category_order(c as int), entries@));
                assert(some_breakdown_entry(entry, entries@));
            }
            category_breakdown.push(entry);
        }
        proof {
            assert forall|k: int| 0 <= k < category_breakdown@.len() implies entry_of_earlier(
                #[trigger] category_breakdown@[k],
                c + 1 as int,
            ) by {
                if k < old_breakdown.len() {
                    assert(entry_of_earlier(old_breakdown[k], c as int));
                    let c2 = choose|c2: int|
                        #![trigger category_order(c2)]
                        0 <= c2 && c2 < c && old_breakdown[k].0@ == spec_category_key(
                            category_order(c2),
                        );
                    assert(0 <= c2 && c2 < c + 1 && category_breakdown@[k].0@
                        == spec_category_key(category_order(c2)));
                } else {
                    assert(category_breakdown@[k].0@ == spec_category_key(
                        category_order(c as int),
                    ));
                }
            }
            assert forall|k1: int, k2: int|
                0 <= k1 < k2 < category_breakdown@.len() implies (
            #[trigger] category_breakdown@[k1]).0@ != (
            #[trigger] category_breakdown@[k2]).0@ by {
                if k2 >= old_breakdown.len() {
                    assert(entry_of_earlier(old_breakdown[k1], c as int));
                    let c2 = choose|c2: int|
                        #![trigger category_order(c2)]
                        0 <= c2 && c2 < c && old_breakdown[k1].0@ == spec_category_key(
                            category_order(c2),
                        );
                    crate::classifier::lemma_category_keys_distinct(
                        category_order(c2),
                        category_order(c as int),
                    );
                }
            }
            assert forall|c2: int|
                0 <= c2 < c + 1 && count_category(entries@, #[trigger] category_order(c2))
                    > 0 implies has_breakdown(category_breakdown@, category_order(c2)) by {
                if c2 == c as int {
                    assert(category_breakdown@[category_breakdown@.len() - 1].0@
                        == spec_category_key(category_order(c2)));
                } else {
                    let w = choose|w: int|
                        #![trigger old_breakdown[w]]
                        0 <= w && w < old_breakdown.len() && old_breakdown[w].0@
                            == spec_category_key(category_order(c2));
                    assert(category_breakdown@[w].0@ == spec_category_key(category_order(c2)));
                }
            }
        }
        c = c + 1;
    }
    let total_size_formatted = format_size(acc);
    FolderStats {
        path,
        total_size: acc,
        total_size_formatted,
        file_count,
        folder_count,
        largest_file,
        category_breakdown,
    }
}

/// The paths of the probes that saw no entries, in input order.
pub open spec fn empty_probe_paths(s: Seq<(String, u64)>) -> Seq<Seq<char>>
    decreases s.len(),
{
    if s.len() == 0 {
        Seq::empty()
    } else {
        let rest = empty_probe_paths(s.drop_last());
        if s.last().1 == 0 {
            rest.push(s.last().0@)
        } else {
            rest
        }
    }
}

/// Selects the empty folders from probe results: each probe pairs a
/// folder's path with how many entries one read of it yielded, and a
/// folder is empty exactly when that count is zero.
pub fn find_empty_folders(probes: &Vec<(String, u64)>) -> (r: Vec<String>)
    ensures
        r@.len() == empty_probe_paths(probes@).len(),
        forall|k: int| 0 <= k < r@.len() ==> (#[trigger] r@[k])@ == empty_probe_paths(probes@)[k],
{
    let n = probes.len();
    let mut out: Vec<String> = Vec::new();
    let mut i: usize = 0;
    while i < n
        invariant
            i <= n,
            n == probes@.len(),
            out@.len() == empty_probe_paths(probes@.take(i as int)).len(),
            forall|k: int|
                0 <= k < out@.len() ==> (#[trigger] out@[k])@ == empty_probe_paths(
                    probes@.take(i as int),
                )[k],
        decreases n - i,
    {
        proof {
            assert(probes@.take(i + 1 as int).drop_last() =~= probes@.take(i as int));
            assert(probes@.take(i + 1 as int).last() == probes@[i as int]);
        }
        if probes[i].1 == 0 {
            out.push(probes[i].0.clone());
        }
        i = i + 1;
    }
    proof {
        assert(probes@.take(n as int) =~= probes@);
    }
    out
}

/// The files at or over the byte threshold, in input order.
pub open spec fn files_over(s: Seq<FileInfo>, threshold: u64) -> Seq<FileInfo>
    decreases s.len(),
{
    if s.len() == 0 {
        Seq::empty()
    } else {
        let rest = files_over(s.drop_last(), threshold);
        if !s.last().is_directory && s.last().size >= threshold {
            rest.push(s.last())
        } else {
            rest
        }
    }
}

/// The list arranges the filtered files without repeating or dropping
/// any: some distinct selection of all their positions produces it.
pub open spec fn large_files_arrangement(r: Seq<FileInfo>, filtered: Seq<FileInfo>) -> bool {
    exists|idxs: Seq<int>|
        #![trigger distinct_within(idxs, filtered.len() as int)]
        distinct_within(idxs, filtered.len() as int) && idxs.len() == r.len() && forall|k: int|
            0 <= k < r.len() ==> same_file_info(#[trigger] r[k], filtered[idxs[k]])
}

/// The entry copies one of the files over the threshold.
pub open spec fn copied_large(s: Seq<FileInfo>, threshold: u64, e: FileInfo) -> bool {
    exists|k: int|
        #![trigger files_over(s, threshold)[k]]
        0 <= k && k < files_over(s, threshold).len() && same_file_info(
            e,
            files_over(s, threshold)[k],
        )
}

/// Selects the files of at least `threshold_mb` megabytes and ranks them
/// by size, largest first; equal sizes keep their input order.
pub fn find_large_files(files: &Vec<FileInfo>, threshold_mb: u64) -> (r: Vec<FileInfo>)
    requires
        threshold_mb <= u64::MAX / 0x100000,
    ensures
        r@.len() == files_over(files@, (threshold_mb * 0x100000) as u64).len(),
        forall|k: int|
            0 <= k < r@.len() ==> copied_large(
                files@,
                (threshold_mb * 0x100000) as u64,
                #[trigger] r@[k],
            ),
        forall|k1: int, k2: int|
            0 <= k1 < k2 < r@.len() ==> (#[trigger] r@[k1]).size >= (#[trigger] r@[k2]).size,
        large_files_arrangement(r@, files_over(files@, (threshold_mb * 0x100000) as u64)),
{
    proof {
        let t = threshold_mb as int;
        let m = u64::MAX as int;
        assert(m == 0x100000 * (m / 0x100000) + m % 0x100000 && 0 <= m % 0x100000 < 0x100000)
            by (nonlinear_arith);
        assert(t * 0x100000 <= m) by (nonlinear_arith)
            requires
                t <= m / 0x100000,
                m == 0x100000 * (m / 0x100000) + m % 0x100000,
                0 <= m % 0x100000,
                t >= 0,
        ;
    }
    let threshold: u64 = threshold_mb * 0x100000;
    let n = files.len();
    let mut kept: Vec<FileInfo> = Vec::new();
    let mut i: usize = 0;
    while i < n
        invariant
            i <= n,
            n == files@.len(),
            kept@.len() == files_over(files@.take(i as int), threshold).len(),
            forall|k: int|
                0 <= k < kept@.len() ==> same_file_info(
                    #[trigger] kept@[k],
                    files_over(files@.take(i as int), threshold)[k],
                ),
        decreases n - i,
    {
        proof {
            assert(files@.take(i + 1 as int).drop_last() =~= files@.take(i as int));
            assert(files@.take(i + 1 as int).last() == files@[i as int]);
        }
        if !files[i].is_directory && files[i].size >= threshold {
            kept.push(clone_file_info(&files[i]));
        }
        i = i + 1;
    }
    proof {
        assert(files@.take(n as int) =~= files@);
    }
    let kn = kept.len();
    let mut pairs: Vec<(u64, usize)> = Vec::new();
    let mut k: usize = 0;
    while k < kn
        invariant
            k <= kn,
            kn == kept@.len(),
            pairs@.len() == k,
            forall|a: int| 0 <= a < k ==> (#[trigger] pairs@[a]) == (kept@[a].size, a as usize),
        decreases kn - k,
    {
        pairs.push((kept[k].size, k));
        k = k + 1;
    }
    proof {
        assert forall|a: int, b: int| 0 <= a < b < pairs@.len() implies pairs@[a] != pairs@[b] by {
            assert(pairs@[a].1 == a as usize && pairs@[b].1 == b as usize);
        }
        assert(pairs@.no_duplicates());
    }
    let sorted = sort_pairs_desc(&pairs);
    proof {
        assert forall|a: int| 0 <= a < sorted@.len() implies (#[trigger] sorted@[a]).1 < kn
            && sorted@[a].0 == kept@[sorted@[a].1 as int].size by {
            assert(pairs@.contains(sorted@[a]));
            let b = choose|b: int| 0 <= b < pairs@.len() && pairs@[b] == sorted@[a];
            assert(pairs@[b] == (kept@[b].size, b as usize));
        }
    }
    let mut out: Vec<FileInfo> = Vec::new();
    let mut a: usize = 0;
    while a < kn
        invariant
            a <= kn,
            kn == kept@.len(),
            kn == sorted@.len(),
            n == files@.len(),
            out@.len() == a,
            forall|k2: int| 0 <= k2 < sorted@.len() ==> (#[trigger] sorted@[k2]).1 < kn,
            forall|k2: int|
                0 <= k2 < sorted@.len() ==> (#[trigger] sorted@[k2]).0 == kept@[sorted@[
                    k2
                ].1 as int].size,
            forall|k2: int|
                0 <= k2 < kept@.len() ==> same_file_info(
                    #[trigger] kept@[k2],
                    files_over(files@, threshold)[k2],
                ),
            forall|k2: int|
                0 <= k2 < a ==> same_file_info(#[trigger] out@[k2], kept@[sorted@[k2].1 as int])
                    && out@[k2].size == sorted@[k2].0,
        decreases kn - a,
    {
        let idx = sorted[a].1;
        out.push(clone_file_info(&kept[idx]));
        a = a + 1;
    }
    proof {
        assert forall|k2: int| 0 <= k2 < out@.len() implies copied_large(
            files@,
            threshold,
            #[trigger] out@[k2],
        ) by {
            let b = sorted@[k2].1 as int;
            assert(same_file_info(kept@[b], files_over(files@, threshold)[b]));
            assert(same_file_info(out@[k2], files_over(files@, threshold)[b]));
        }
        assert forall|k1: int, k2: int| 0 <= k1 < k2 < out@.len() implies (
        #[trigger] out@[k1]).size >= (#[trigger] out@[k2]).size by {
            assert(pair_above(sorted@[k1], sorted@[k2]));
        }
        // The arrangement repeats no filtered file: positions are distinct.
        let idxs = Seq::new(sorted@.len(), |k: int| sorted@[k].1 as int);
        assert forall|k1: int, k2: int| 0 <= k1 < k2 < idxs.len() implies idxs[k1] != idxs[k2] by {
            assert(sorted@[k1] != sorted@[k2]);
            if sorted@[k1].1 == sorted@[k2].1 {
                assert(sorted@[k1] == sorted@[k2]);
            }
        }
        assert(distinct_within(idxs, kept@.len() as int));
        assert forall|k: int| 0 <= k < out@.len() implies same_file_info(
            #[trigger] out@[k],
            files_over(files@, threshold)[idxs[k]],
        ) by {
            assert(same_file_info(out@[k], kept@[idxs[k]]));
            assert(same_file_info(kept@[idxs[k]], files_over(files@, threshold)[idxs[k]]));
        }
        assert(large_files_arrangement(out@, files_over(files@, threshold)));
    }
    out
}

} // verus!
