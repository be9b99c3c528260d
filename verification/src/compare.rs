//! Folder comparison and merging. Two trees' listings, keyed by path
//! relative to each root and fingerprinted in full, are joined into one
//! report per relative path; merging then decides per entry whether to copy,
//! overwrite, rename or skip.

use vstd::prelude::*;
use crate::records::{clone_file_info, same_file_info, FileInfo};
use crate::sorting::{sort_str_pairs, str_pair_above, str_pair_view};
use crate::text::str_eq;

verus! {

/// How one relative path stands between the two trees.
#[derive(Debug, Clone, Copy, PartialEq, Eq, Structural)]
pub enum FileStatus {
    OnlyInSource,
    OnlyInTarget,
    Identical,
    Different,
}

/// One file of a tree, keyed by its path relative to the root, with its
/// fingerprint.
#[derive(Debug, Clone)]
pub struct CompareFile {
    pub relative_path: String,
    pub info: FileInfo,
    pub hash: String,
}

/// The report for one relative path.
#[derive(Debug, Clone)]
pub struct CompareResult {
    pub relative_path: String,
    pub status: FileStatus,
    pub source_file: Option<FileInfo>,
    pub target_file: Option<FileInfo>,
    pub size_diff: i64,
}

/// The whole comparison: the two roots, per-status totals, per-side byte
/// totals and the per-path reports.
#[derive(Debug, Clone)]
pub struct CompareSummary {
    pub source_path: String,
    pub target_path: String,
    pub total_files: usize,
    pub only_in_source: usize,
    pub only_in_target: usize,
    pub identical: usize,
    pub different: usize,
    pub source_total_size: u64,
    pub target_total_size: u64,
    pub results: Vec<CompareResult>,
}

/// No two entries of a listing share a relative path.
pub open spec fn rels_unique(s: Seq<CompareFile>) -> bool {
    forall|k1: int, k2: int|
        0 <= k1 < k2 < s.len() ==> (#[trigger] s[k1]).relative_path@ != (
        #[trigger] s[k2]).relative_path@
}

/// Every size of the listing fits a signed 64-bit delta.
pub open spec fn sizes_fit(s: Seq<CompareFile>) -> bool {
    forall|k: int| 0 <= k < s.len() ==> (#[trigger] s[k]).info.size <= i64::MAX as u64
}

/// Some entry of the listing carries this relative path.
pub open spec fn has_rel(s: Seq<CompareFile>, rel: Seq<char>) -> bool {
    exists|k: int| #![trigger s[k]] 0 <= k && k < s.len() && s[k].relative_path@ == rel
}

/// The position of the entry carrying this relative path.
pub open spec fn rel_idx(s: Seq<CompareFile>, rel: Seq<char>) -> int {
    choose|k: int| #![trigger s[k]] 0 <= k && k < s.len() && s[k].relative_path@ == rel
}

/// The entry carrying this relative path.
pub open spec fn entry_at(s: Seq<CompareFile>, rel: Seq<char>) -> CompareFile {
    s[rel_idx(s, rel)]
}

/// What the comparison says about one relative path: identical or different
/// when both trees hold it (by fingerprint equality), one-sided otherwise,
/// nothing when neither tree holds it.
pub open spec fn spec_status(src: Seq<CompareFile>, tgt: Seq<CompareFile>, rel: Seq<char>) -> Option<
    FileStatus,
> {
    if has_rel(src, rel) && has_rel(tgt, rel) {
        if entry_at(src, rel).hash@ == entry_at(tgt, rel).hash@ {
            Some(FileStatus::Identical)
        } else {
            Some(FileStatus::Different)
        }
    } else if has_rel(src, rel) {
        Some(FileStatus::OnlyInSource)
    } else if has_rel(tgt, rel) {
        Some(FileStatus::OnlyInTarget)
    } else {
        None
    }
}

/// The mirror of a status, as swapping the two trees shows it.
pub open spec fn swapped_status(st: Option<FileStatus>) -> Option<FileStatus> {
    match st {
        Some(FileStatus::OnlyInSource) => Some(FileStatus::OnlyInTarget),
        Some(FileStatus::OnlyInTarget) => Some(FileStatus::OnlyInSource),
        Some(FileStatus::Identical) => Some(FileStatus::Identical),
        Some(FileStatus::Different) => Some(FileStatus::Different),
        None => None,
    }
}

/// Comparing the trees in the other order mirrors every path's status:
/// one-sided entries swap sides, and the identical-or-different verdict is
/// unchanged.
pub proof fn lemma_compare_symmetric(src: Seq<CompareFile>, tgt: Seq<CompareFile>, rel: Seq<char>)
    ensures
        spec_status(src, tgt, rel) == swapped_status(spec_status(tgt, src, rel)),
{
}

/// One report entry is right for the two listings: its status is the
/// specified one for its path, the per-side records are present exactly as
/// the status says and copy the listed entries, and the delta subtracts the
/// sizes.
pub open spec fn entry_ok(src: Seq<CompareFile>, tgt: Seq<CompareFile>, e: CompareResult) -> bool {
    let rel = e.relative_path@;
    &&& Some(e.status) == spec_status(src, tgt, rel)
    &&& match e.status {
        FileStatus::Identical | FileStatus::Different => {
            &&& e.source_file is Some
            &&& same_file_info(e.source_file->0, entry_at(src, rel).info)
            &&& e.target_file is Some
            &&& same_file_info(e.target_file->0, entry_at(tgt, rel).info)
            &&& e.size_diff as int == entry_at(src, rel).info.size - entry_at(tgt, rel).info.size
        },
        FileStatus::OnlyInSource => {
            &&& e.source_file is Some
            &&& same_file_info(e.source_file->0, entry_at(src, rel).info)
            &&& e.target_file is None
            &&& e.size_diff as int == entry_at(src, rel).info.size
        },
        FileStatus::OnlyInTarget => {
            &&& e.source_file is None
            &&& e.target_file is Some
            &&& same_file_info(e.target_file->0, entry_at(tgt, rel).info)
            &&& e.size_diff as int == -(entry_at(tgt, rel).info.size as int)
        },
    }
}

/// How many reports carry this status.
pub open spec fn count_status(s: Seq<CompareResult>, st: FileStatus) -> int
    decreases s.len(),
{
    if s.len() == 0 {
        0
    } else {
        count_status(s.drop_last(), st) + if s.last().status == st {
            1int
        } else {
            0int
        }
    }
}

/// The byte total of a listing.
pub open spec fn sum_sizes(s: Seq<CompareFile>) -> int
    decreases s.len(),
{
    if s.len() == 0 {
        0
    } else {
        sum_sizes(s.drop_last()) + s.last().info.size
    }
}

/// A byte total, saturating at the largest representable value.
pub open spec fn saturated(n: int) -> u64 {
    if n > u64::MAX {
        u64::MAX
    } else {
        n as u64
    }
}

/// The report holds an entry for this relative path.
pub open spec fn reported(rs: Seq<CompareResult>, rel: Seq<char>) -> bool {
    exists|k: int| #![trigger rs[k]] 0 <= k && k < rs.len() && rs[k].relative_path@ == rel
}

/// Finds the entry of a listing carrying the given relative path.
fn find_rel(s: &Vec<CompareFile>, rel: &str) -> (r: Option<usize>)
    requires
        rels_unique(s@),
    ensures
        match r {
            Some(j) => j < s@.len() && s@[j as int].relative_path@ == rel@ && has_rel(s@, rel@)
                && rel_idx(s@, rel@) == j,
            None => !has_rel(s@, rel@),
        },
{
    let n = s.len();
    let mut j: usize = 0;
    while j < n
        invariant
            j <= n,
            n == s@.len(),
            rels_unique(s@),
            forall|k: int| 0 <= k < j ==> (#[trigger] s@[k]).relative_path@ != rel@,
        decreases n - j,
    {
        if str_eq(s[j].relative_path.as_str(), rel) {
            proof {
                assert(s@[j as int].relative_path@ == rel@);
                let k0 = rel_idx(s@, rel@);
                assert(0 <= k0 && k0 < s@.len() && s@[k0].relative_path@ == rel@);
                if k0 != j {
                    if k0 < j {
                        assert(s@[k0].relative_path@ != s@[j as int].relative_path@);
                    } else {
                        assert(s@[j as int].relative_path@ != s@[k0].relative_path@);
                    }
                }
            }
            return Some(j);
        }
        j = j + 1;
    }
    proof {
        if has_rel(s@, rel@) {
            let k0 = choose|k: int|
                #![trigger s@[k]]
                0 <= k && k < s@.len() && s@[k].relative_path@ == rel@;
            assert(s@[k0].relative_path@ != rel@);
        }
    }
    None
}

/// An equal copy of a report entry.
fn clone_result(e: &CompareResult) -> (r: CompareResult)
    ensures
        r.relative_path@ == e.relative_path@,
        r.status == e.status,
        r.size_diff == e.size_diff,
        e.source_file is Some ==> r.source_file is Some && same_file_info(
            r.source_file->0,
            e.source_file->0,
        ),
        e.source_file is None ==> r.source_file is None,
        e.target_file is Some ==> r.target_file is Some && same_file_info(
            r.target_file->0,
            e.target_file->0,
        ),
        e.target_file is None ==> r.target_file is None,
{
    let source_file = match &e.source_file {
        Some(f) => Some(clone_file_info(f)),
        None => None,
    };
    let target_file = match &e.target_file {
        Some(f) => Some(clone_file_info(f)),
        None => None,
    };
    CompareResult {
        relative_path: e.relative_path.clone(),
        status: e.status,
        source_file,
        target_file,
        size_diff: e.size_diff,
    }
}

/// Correctness of an entry only depends on its views, so it survives
/// copying.
proof fn lemma_entry_ok_clone(
    src: Seq<CompareFile>,
    tgt: Seq<CompareFile>,
    a: CompareResult,
    b: CompareResult,
)
    requires
        entry_ok(src, tgt, b),
        same_result(a, b),
    ensures
        entry_ok(src, tgt, a),
{
}

/// Joins the two listings into one report. Every relative path of either
/// tree gets exactly one entry, its status and delta are as specified,
/// entries come sorted by relative path, and the totals count the report and
/// the listings.
pub fn compare_folders(
    source_path: String,
    target_path: String,
    source_files: &Vec<CompareFile>,
    target_files: &Vec<CompareFile>,
) -> (r: CompareSummary)
    requires
        rels_unique(source_files@),
        rels_unique(target_files@),
        sizes_fit(source_files@),
        sizes_fit(target_files@),
    ensures
        r.source_path@ == source_path@,
        r.target_path@ == target_path@,
        forall|k: int|
            0 <= k < r.results@.len() ==> entry_ok(
                source_files@,
                target_files@,
                #[trigger] r.results@[k],
            ),
        forall|k: int|
            0 <= k < source_files@.len() ==> reported(
                r.results@,
                (#[trigger] source_files@[k]).relative_path@,
            ),
        forall|k: int|
            0 <= k < target_files@.len() ==> reported(
                r.results@,
                (#[trigger] target_files@[k]).relative_path@,
            ),
        forall|k1: int, k2: int|
            0 <= k1 < k2 < r.results@.len() ==> (#[trigger] r.results@[k1]).relative_path@ != (
            #[trigger] r.results@[k2]).relative_path@,
        forall|k1: int, k2: int|
            0 <= k1 < k2 < r.results@.len() ==> crate::text::lex_cmp(
                (#[trigger] r.results@[k1]).relative_path@,
                (#[trigger] r.results@[k2]).relative_path@,
            ) <= 0,
        r.total_files == r.results@.len(),
        r.only_in_source == count_status(r.results@, FileStatus::OnlyInSource),
        r.only_in_target == count_status(r.results@, FileStatus::OnlyInTarget),
        r.identical == count_status(r.results@, FileStatus::Identical),
        r.different == count_status(r.results@, FileStatus::Different),
        r.source_total_size == saturated(sum_sizes(source_files@)),
        r.target_total_size == saturated(sum_sizes(target_files@)),
{
    let mut results: Vec<CompareResult> = Vec::new();
    let sn = source_files.len();
    let mut i: usize = 0;
    while i < sn
        invariant
            i <= sn,
            sn == source_files@.len(),
            rels_unique(source_files@),
            rels_unique(target_files@),
            sizes_fit(source_files@),
            sizes_fit(target_files@),
            results@.len() == i,
            forall|k: int|
                0 <= k < i ==> entry_ok(source_files@, target_files@, #[trigger] results@[k]),
            forall|k: int|
                0 <= k < i ==> (#[trigger] results@[k]).relative_path@ == source_files@[k].relative_path@,
        decreases sn - i,
    {
        let e = &source_files[i];
        let rel = e.relative_path.clone();
        let found = find_rel(target_files, rel.as_str());
        let entry = match found {
            Some(j) => {
                let t = &target_files[j];
                let status = if str_eq(e.hash.as_str(), t.hash.as_str()) {
                    FileStatus::Identical
                } else {
                    FileStatus::Different
                };
                CompareResult {
                    relative_path: rel,
                    status,
                    source_file: Some(clone_file_info(&e.info)),
                    target_file: Some(clone_file_info(&t.info)),
                    size_diff: e.info.size as i64 - t.info.size as i64,
                }
            },
            None => CompareResult {
                relative_path: rel,
                status: FileStatus::OnlyInSource,
                source_file: Some(clone_file_info(&e.info)),
                target_file: None,
                size_diff: e.info.size as i64,
            },
        };
        proof {
            let relv = source_files@[i as int].relative_path@;
            assert(source_files@[rel_idx(source_files@, relv)] == source_files@[i as int]) by {
                let k0 = rel_idx(source_files@, relv);
                assert(source_files@[i as int].relative_path@ == relv);
                assert(0 <= k0 && k0 < source_files@.len() && source_files@[k0].relative_path@
                    == relv);
                if k0 < i {
                    assert(source_files@[k0].relative_path@ != source_files@[i as int].relative_path@);
                } else if k0 > i {
                    assert(source_files@[i as int].relative_path@ != source_files@[k0].relative_path@);
                }
            }
        }
        results.push(entry);
        i = i + 1;
    }
    let tn = target_files.len();
    let mut j2: usize = 0;
    let ghost first_part = results@;
    let ghost mut tail_js: Seq<int> = Seq::empty();
    while j2 < tn
        invariant
            tail_js.len() == results@.len() - sn,
            forall|t: int|
                0 <= t < tail_js.len() ==> 0 <= #[trigger] tail_js[t] < j2 && results@[sn
                    + t].relative_path@ == target_files@[tail_js[t]].relative_path@,
            forall|t1: int, t2: int| 0 <= t1 < t2 < tail_js.len() ==> tail_js[t1] < tail_js[t2],
            j2 <= tn,
            tn == target_files@.len(),
            sn == source_files@.len(),
            rels_unique(source_files@),
            rels_unique(target_files@),
            sizes_fit(source_files@),
            sizes_fit(target_files@),
            results@.len() >= sn,
            first_part.len() == sn,
            results@.take(sn as int) == first_part,
            forall|k: int|
                0 <= k < results@.len() ==> entry_ok(
                    source_files@,
                    target_files@,
                    #[trigger] results@[k],
                ),
            forall|k: int|
                0 <= k < sn ==> (#[trigger] results@[k]).relative_path@ == source_files@[k].relative_path@,
            forall|k: int|
                sn <= k < results@.len() ==> (#[trigger] results@[k]).status
                    == FileStatus::OnlyInTarget,
            forall|k: int|
                0 <= k < j2 ==> (has_rel(source_files@, (#[trigger] target_files@[k]).relative_path@)
                    || reported(results@, target_files@[k].relative_path@)),
        decreases tn - j2,
    {
        let t = &target_files[j2];
        let rel = t.relative_path.clone();
        let in_src = find_rel(source_files, rel.as_str());
        match in_src {
            Some(_) => {
                proof {
                    assert forall|k: int|
                        0 <= k < j2 + 1 implies (has_rel(
                        source_files@,
                        (#[trigger] target_files@[k]).relative_path@,
                    ) || reported(results@, target_files@[k].relative_path@)) by {}
                }
            },
            None => {
                let ghost old_results = results@;
                let entry = CompareResult {
                    relative_path: rel,
                    status: FileStatus::OnlyInTarget,
                    source_file: None,
                    target_file: Some(clone_file_info(&t.info)),
                    size_diff: 0i64.wrapping_sub(t.info.size as i64),
                };
                proof {
                    let relv = target_files@[j2 as int].relative_path@;
                    assert(target_files@[rel_idx(target_files@, relv)] == target_files@[j2 as int]) by {
                        let k0 = rel_idx(target_files@, relv);
                        assert(target_files@[j2 as int].relative_path@ == relv);
                        if k0 < j2 {
                            assert(target_files@[k0].relative_path@ != target_files@[j2 as int].relative_path@);
                        } else if k0 > j2 {
                            assert(target_files@[j2 as int].relative_path@ != target_files@[k0].relative_path@);
                        }
                    }
                    assert(entry.size_diff as int == -(target_files@[j2 as int].info.size as int));
                }
                results.push(entry);
                proof {
                    tail_js = tail_js.push(j2 as int);
                    assert(results@.take(sn as int) =~= old_results.take(sn as int));
                    assert(reported(results@, target_files@[j2 as int].relative_path@)) by {
                        assert(results@[results@.len() - 1].relative_path@ == target_files@[j2 as int].relative_path@);
                    }
                    assert forall|k: int|
                        0 <= k < j2 + 1 implies (has_rel(
                        source_files@,
                        (#[trigger] target_files@[k]).relative_path@,
                    ) || reported(results@, target_files@[k].relative_path@)) by {
                        if k < j2 && reported(old_results, target_files@[k].relative_path@) {
                            let w = choose|w: int|
                                #![trigger old_results[w]]
                                0 <= w && w < old_results.len() && old_results[w].relative_path@
                                    == target_files@[k].relative_path@;
                            assert(results@[w].relative_path@ == target_files@[k].relative_path@);
                        }
                    }
                }
            },
        }
        j2 = j2 + 1;
    }
    // Totals over the listings.
    let source_total_size = sum_listing(source_files);
    let target_total_size = sum_listing(target_files);
    proof {
        // The unsorted report holds pairwise distinct relative paths.
        assert forall|k1: int, k2: int| 0 <= k1 < k2 < results@.len() implies (
        #[trigger] results@[k1]).relative_path@ != (#[trigger] results@[k2]).relative_path@ by {
            if k2 < sn {
                assert(source_files@[k1].relative_path@ != source_files@[k2].relative_path@);
            } else if k1 < sn {
                assert(results@[k2].status == FileStatus::OnlyInTarget);
                assert(entry_ok(source_files@, target_files@, results@[k2]));
                if results@[k1].relative_path@ == results@[k2].relative_path@ {
                    assert(source_files@[k1].relative_path@ == results@[k2].relative_path@);
                    assert(has_rel(source_files@, results@[k2].relative_path@));
                }
            } else {
                let t1 = tail_js[k1 - sn];
                let t2 = tail_js[k2 - sn];
                assert(t1 < t2);
                assert(target_files@[t1].relative_path@ != target_files@[t2].relative_path@);
            }
        }
    }
    // Sort the report by relative path.
    let ghost unsorted = results@;
    let sorted_results = sort_results(results);
    proof {
        // Correctness of each entry survives the sort.
        assert forall|k: int| 0 <= k < sorted_results@.len() implies entry_ok(
            source_files@,
            target_files@,
            #[trigger] sorted_results@[k],
        ) by {
            assert(copied_from(unsorted, sorted_results@[k]));
            let k2 = choose|k2: int|
                #![trigger unsorted[k2]]
                0 <= k2 && k2 < unsorted.len() && same_result(sorted_results@[k], unsorted[k2]);
            lemma_entry_ok_clone(
                source_files@,
                target_files@,
                sorted_results@[k],
                unsorted[k2],
            );
        }
        assert forall|k: int|
            0 <= k < source_files@.len() implies reported(
            sorted_results@,
            (#[trigger] source_files@[k]).relative_path@,
        ) by {
            assert(first_part[k].relative_path@ == source_files@[k].relative_path@);
            assert(reported(sorted_results@, first_part[k].relative_path@));
        }
        assert forall|k: int|
            0 <= k < target_files@.len() implies reported(
            sorted_results@,
            (#[trigger] target_files@[k]).relative_path@,
        ) by {
            if has_rel(source_files@, target_files@[k].relative_path@) {
                let w = rel_idx(source_files@, target_files@[k].relative_path@);
                assert(first_part[w].relative_path@ == target_files@[k].relative_path@);
                assert(reported(sorted_results@, first_part[w].relative_path@));
            }
        }
    }
    // Count statuses over the sorted report.
    let mut only_in_source: usize = 0;
    let mut only_in_target: usize = 0;
    let mut identical: usize = 0;
    let mut different: usize = 0;
    let rn = sorted_results.len();
    let mut c: usize = 0;
    while c < rn
        invariant
            c <= rn,
            rn == sorted_results@.len(),
            only_in_source == count_status(sorted_results@.take(c as int), FileStatus::OnlyInSource),
            only_in_target == count_status(sorted_results@.take(c as int), FileStatus::OnlyInTarget),
            identical == count_status(sorted_results@.take(c as int), FileStatus::Identical),
            different == count_status(sorted_results@.take(c as int), FileStatus::Different),
            only_in_source + only_in_target + identical + different <= c,
        decreases rn - c,
    {
        let st = sorted_results[c].status;
        proof {
            assert(sorted_results@.take(c + 1 as int).drop_last() =~= sorted_results@.take(c as int));
            assert(sorted_results@.take(c + 1 as int).last() == sorted_results@[c as int]);
        }
        match st {
            FileStatus::OnlyInSource => {
                only_in_source = only_in_source + 1;
            },
            FileStatus::OnlyInTarget => {
                only_in_target = only_in_target + 1;
            },
            FileStatus::Identical => {
                identical = identical + 1;
            },
            FileStatus::Different => {
                different = different + 1;
            },
        }
        c = c + 1;
    }
    proof {
        assert(sorted_results@.take(rn as int) =~= sorted_results@);
    }
    CompareSummary {
        source_path,
        target_path,
        total_files: rn,
        only_in_source,
        only_in_target,
        identical,
        different,
        source_total_size,
        target_total_size,
        results: sorted_results,
    }
}

/// Byte total of a listing, saturating at the largest representable value.
fn sum_listing(s: &Vec<CompareFile>) -> (r: u64)
    ensures
        r == saturated(sum_sizes(s@)),
{
    let n = s.len();
    let mut acc: u64 = 0;
    let mut sat = false;
    let mut i: usize = 0;
    while i < n
        invariant
            i <= n,
            n == s@.len(),
            !sat ==> acc == sum_sizes(s@.take(i as int)),
            sat ==> acc == u64::MAX && sum_sizes(s@.take(i as int)) > u64::MAX,
            sum_sizes(s@.take(i as int)) >= acc,
        decreases n - i,
    {
        let sz = s[i].info.size;
        proof {
            assert(s@.take(i + 1 as int).drop_last() =~= s@.take(i as int));
            assert(s@.take(i + 1 as int).last() == s@[i as int]);
        }
        if sat {
        } else if acc > u64::MAX - sz {
            sat = true;
            acc = u64::MAX;
        } else {
            acc = acc + sz;
        }
        i = i + 1;
    }
    proof {
        assert(s@.take(n as int) =~= s@);
    }
    acc
}

/// The entry copies one of the listed reports.
pub open spec fn copied_from(results: Seq<CompareResult>, e: CompareResult) -> bool {
    exists|k2: int|
        #![trigger results[k2]]
        0 <= k2 && k2 < results.len() && same_result(e, results[k2])
}

/// Sorts the report entries by relative path; entries survive unchanged.
fn sort_results(results: Vec<CompareResult>) -> (r: Vec<CompareResult>)
    ensures
        r@.len() == results@.len(),
        forall|k: int| 0 <= k < r@.len() ==> copied_from(results@, #[trigger] r@[k]),
        forall|rel: Seq<char>| reported(results@, rel) ==> reported(r@, rel),
        forall|k1: int, k2: int|
            0 <= k1 < k2 < r@.len() ==> crate::text::lex_cmp(
                (#[trigger] r@[k1]).relative_path@,
                (#[trigger] r@[k2]).relative_path@,
            ) <= 0,
        results@.len() == r@.len() && (forall|k1: int, k2: int|
            0 <= k1 < k2 < results@.len() ==> (#[trigger] results@[k1]).relative_path@ != (
            #[trigger] results@[k2]).relative_path@) ==> (forall|k1: int, k2: int|
            0 <= k1 < k2 < r@.len() ==> (#[trigger] r@[k1]).relative_path@ != (
            #[trigger] r@[k2]).relative_path@),
{
    let n = results.len();
    let mut pairs: Vec<(String, usize)> = Vec::new();
    let mut i: usize = 0;
    while i < n
        invariant
            i <= n,
            n == results@.len(),
            pairs@.len() == i,
            forall|k: int|
                0 <= k < i ==> (#[trigger] pairs@[k]).0@ == results@[k].relative_path@ && pairs@[k].1 == k,
        decreases n - i,
    {
        pairs.push((results[i].relative_path.clone(), i));
        i = i + 1;
    }
    let ghost pairs_snap = pairs@;
    let sorted = sort_str_pairs(pairs, false);
    let ghost vw = pairs_snap.map_values(|p: (String, usize)| str_pair_view(p));
    proof {
        broadcast use vstd::seq_lib::group_to_multiset_ensures;

        assert forall|a: int, b: int| 0 <= a < b < vw.len() implies vw[a] != vw[b] by {
            assert(vw[a].1 == a as usize && vw[b].1 == b as usize);
        }
        assert(vw.no_duplicates());
        assert forall|a: int| 0 <= a < sorted@.len() implies (#[trigger] sorted@[a]).1 < n
            && sorted@[a].0@ == results@[sorted@[a].1 as int].relative_path@ by {
            assert(vw.contains(str_pair_view(sorted@[a])));
            let b = choose|b: int| 0 <= b < vw.len() && vw[b] == str_pair_view(sorted@[a]);
            assert(vw[b] == (pairs_snap[b].0@, pairs_snap[b].1));
        }
    }
    let mut out: Vec<CompareResult> = Vec::new();
    let mut a: usize = 0;
    while a < n
        invariant
            a <= n,
            n == results@.len(),
            n == sorted@.len(),
            out@.len() == a,
            forall|k: int| 0 <= k < sorted@.len() ==> (#[trigger] sorted@[k]).1 < n,
            forall|k: int|
                0 <= k < sorted@.len() ==> (#[trigger] sorted@[k]).0@ == results@[sorted@[k].1 as int].relative_path@,
            forall|k: int|
                0 <= k < a ==> same_result(#[trigger] out@[k], results@[sorted@[k].1 as int]),
        decreases n - a,
    {
        let idx = sorted[a].1;
        let e = clone_result(&results[idx]);
        out.push(e);
        a = a + 1;
    }
    proof {
        broadcast use vstd::seq_lib::group_to_multiset_ensures;

        let sm = sorted@.map_values(|p: (String, usize)| str_pair_view(p));
        // Each output entry copies one input entry.
        assert forall|k: int| 0 <= k < out@.len() implies copied_from(
            results@,
            #[trigger] out@[k],
        ) by {
            let k2 = sorted@[k].1 as int;
            assert(0 <= k2 && k2 < results@.len() && same_result(out@[k], results@[k2]));
        }
        // Every reported path stays reported.
        assert forall|rel: Seq<char>| reported(results@, rel) implies reported(out@, rel) by {
            let w = choose|w: int|
                #![trigger results@[w]]
                0 <= w && w < results@.len() && results@[w].relative_path@ == rel;
            assert(vw[w] == (results@[w].relative_path@, w as usize));
            assert(vw.contains(vw[w]));
            assert(sm.to_multiset() == vw.to_multiset());
            assert(sm.to_multiset().contains(vw[w]));
            assert(sm.contains(vw[w]));
            let c = choose|c: int| 0 <= c < sm.len() && sm[c] == vw[w];
            assert(sm[c] == str_pair_view(sorted@[c]));
            assert(out@[c].relative_path@ == rel);
        }
        // The output is sorted by relative path.
        assert forall|k1: int, k2: int| 0 <= k1 < k2 < out@.len() implies crate::text::lex_cmp(
            (#[trigger] out@[k1]).relative_path@,
            (#[trigger] out@[k2]).relative_path@,
        ) <= 0 by {
            assert(str_pair_above(
                false,
                str_pair_view(sorted@[k1]),
                str_pair_view(sorted@[k2]),
            ));
        }
        // Distinct paths stay distinct.
        if forall|k1: int, k2: int|
            0 <= k1 < k2 < results@.len() ==> (#[trigger] results@[k1]).relative_path@ != (
            #[trigger] results@[k2]).relative_path@ {
            assert(sm.no_duplicates());
            assert forall|k1: int, k2: int| 0 <= k1 < k2 < out@.len() implies (
            #[trigger] out@[k1]).relative_path@ != (#[trigger] out@[k2]).relative_path@ by {
                assert(sm[k1] == str_pair_view(sorted@[k1]));
                assert(sm[k2] == str_pair_view(sorted@[k2]));
                assert(sm[k1] != sm[k2]);
                let i1 = sorted@[k1].1 as int;
                let i2 = sorted@[k2].1 as int;
                if i1 != i2 {
                    if i1 < i2 {
                        assert(results@[i1].relative_path@ != results@[i2].relative_path@);
                    } else {
                        assert(results@[i2].relative_path@ != results@[i1].relative_path@);
                    }
                }
            }
        }
    }
    out
}

/// Two report entries agree field for field.
pub open spec fn same_result(a: CompareResult, b: CompareResult) -> bool {
    &&& a.relative_path@ == b.relative_path@
    &&& a.status == b.status
    &&& a.size_diff == b.size_diff
    &&& match (a.source_file, b.source_file) {
        (Some(x), Some(y)) => same_file_info(x, y),
        (None, None) => true,
        _ => false,
    }
    &&& match (a.target_file, b.target_file) {
        (Some(x), Some(y)) => same_file_info(x, y),
        (None, None) => true,
        _ => false,
    }
}

/// How destination conflicts are resolved during a merge.
#[derive(Debug, Clone, Copy, PartialEq, Eq, Structural)]
pub enum MergeStrategy {
    SkipExisting,
    OverwriteAll,
    OverwriteNewer,
    OverwriteOlder,
    Rename,
}

/// What a merge run acts on and how.
#[derive(Debug, Clone)]
pub struct MergeOptions {
    pub strategy: MergeStrategy,
    pub delete_source_after: bool,
    pub include_only_in_source: bool,
    pub include_different: bool,
}

/// The outcome of a merge run.
#[derive(Debug, Clone)]
pub struct MergeResult {
    pub success: bool,
    pub files_copied: usize,
    pub files_skipped: usize,
    pub files_overwritten: usize,
    pub bytes_transferred: u64,
    pub errors: Vec<String>,
}

/// What the merge does with one report entry.
#[derive(Debug, Clone, Copy, PartialEq, Eq, Structural)]
pub enum MergeAction {
    Skip,
    CopyNew,
    Overwrite,
    CopyRenamed,
}

/// The decision table of a merge: entries present only in the source are
/// copied when asked for, differing entries when asked for, everything else
/// is left alone; a conflicting destination falls to the chosen strategy,
/// and the time-based strategies keep the target unless both modification
/// times are known and ordered as asked.
pub open spec fn spec_merge_decision(
    status: FileStatus,
    strategy: MergeStrategy,
    include_only_in_source: bool,
    include_different: bool,
    target_exists: bool,
    source_mtime: Option<i64>,
    target_mtime: Option<i64>,
) -> MergeAction {
    let wanted = match status {
        FileStatus::OnlyInSource => include_only_in_source,
        FileStatus::Different => include_different,
        _ => false,
    };
    if !wanted {
        MergeAction::Skip
    } else if !target_exists {
        MergeAction::CopyNew
    } else {
        match strategy {
            MergeStrategy::SkipExisting => MergeAction::Skip,
            MergeStrategy::OverwriteAll => MergeAction::Overwrite,
            MergeStrategy::OverwriteNewer => {
                if source_mtime is Some && target_mtime is Some && source_mtime->0
                    > target_mtime->0 {
                    MergeAction::Overwrite
                } else {
                    MergeAction::Skip
                }
            },
            MergeStrategy::OverwriteOlder => {
                if source_mtime is Some && target_mtime is Some && (source_mtime->0
                    < target_mtime->0) {
                    MergeAction::Overwrite
                } else {
                    MergeAction::Skip
                }
            },
            MergeStrategy::Rename => MergeAction::CopyRenamed,
        }
    }
}

/// Decides what a merge does with one report entry, given whether its
/// destination already exists and the two modification times when known.
pub fn merge_decision(
    status: FileStatus,
    options: &MergeOptions,
    target_exists: bool,
    source_mtime: Option<i64>,
    target_mtime: Option<i64>,
) -> (r: MergeAction)
    ensures
        r == spec_merge_decision(
            status,
            options.strategy,
            options.include_only_in_source,
            options.include_different,
            target_exists,
            source_mtime,
            target_mtime,
        ),
{
    let wanted = match status {
        FileStatus::OnlyInSource => options.include_only_in_source,
        FileStatus::Different => options.include_different,
        _ => false,
    };
    if !wanted {
        return MergeAction::Skip;
    }
    if !target_exists {
        return MergeAction::CopyNew;
    }
    match options.strategy {
        MergeStrategy::SkipExisting => MergeAction::Skip,
        MergeStrategy::OverwriteAll => MergeAction::Overwrite,
        MergeStrategy::OverwriteNewer => {
            match (source_mtime, target_mtime) {
                (Some(s), Some(t)) => {
                    if s > t {
                        MergeAction::Overwrite
                    } else {
                        MergeAction::Skip
                    }
                },
                _ => MergeAction::Skip,
            }
        },
        MergeStrategy::OverwriteOlder => {
            match (source_mtime, target_mtime) {
                (Some(s), Some(t)) => {
                    if s < t {
                        MergeAction::Overwrite
                    } else {
                        MergeAction::Skip
                    }
                },
                _ => MergeAction::Skip,
            }
        },
        MergeStrategy::Rename => MergeAction::CopyRenamed,
    }
}

/// Assembles a merge outcome; the run succeeded exactly when no per-file
/// error was collected.
pub fn merge_result(
    files_copied: usize,
    files_skipped: usize,
    files_overwritten: usize,
    bytes_transferred: u64,
    errors: Vec<String>,
) -> (r: MergeResult)
    ensures
        r.success == (r.errors@.len() == 0),
        r.files_copied == files_copied,
        r.files_skipped == files_skipped,
        r.files_overwritten == files_overwritten,
        r.bytes_transferred == bytes_transferred,
        r.errors@ == errors@,
{
    let success = errors.len() == 0;
    MergeResult { success, files_copied, files_skipped, files_overwritten, bytes_transferred, errors }
}

/// The all-or-nothing gate on the destructive cleanup: the source tree may
/// be removed after a merge only when it was asked for and every single
/// copy succeeded.
pub fn should_delete_source(options: &MergeOptions, errors: &Vec<String>) -> (r: bool)
    ensures
        r == (options.delete_source_after && errors@.len() == 0),
{
    options.delete_source_after && errors.len() == 0
}

} // verus!
