//! Organizing a folder by category: every eligible file is grouped under
//! its category's folder beneath the scanned root, optionally under a date
//! subfolder derived from its modified time, with a chosen way out of
//! destination conflicts.

use vstd::prelude::*;
use crate::classifier::{
    get_category_folder, get_category_korean_name, category_key, spec_category_folder,
    spec_category_key, spec_category_korean_name, FileCategory,
};
use crate::paths::{path_join, spec_path_join};
use crate::records::{clone_file_info, name_is_hidden, same_file_info, FileInfo};
use crate::rules::{spec_eligible, PlannedMove};
use crate::sorting::{pair_above, sort_pairs_desc};
use crate::text::str_eq;

verus! {

/// One category's share of the organization preview.
#[derive(Debug, Clone)]
pub struct OrganizePreview {
    pub category: String,
    pub category_label: String,
    pub files: Vec<FileInfo>,
    pub destination_folder: String,
    pub file_count: usize,
}

/// How an organization run behaves.
#[derive(Debug, Clone)]
pub struct OrganizeOptions {
    pub create_date_subfolders: bool,
    pub date_format: String,
    pub handle_duplicates: String,
}

/// The outcome of an organization run.
#[derive(Debug, Clone)]
pub struct OrganizeResult {
    pub success: bool,
    pub files_moved: usize,
    pub files_skipped: usize,
    pub errors: Vec<String>,
    pub history_id: i64,
}

/// The eligible files of one category, in input order.
pub open spec fn files_of_category(files: Seq<FileInfo>, c: FileCategory) -> Seq<FileInfo>
    decreases files.len(),
{
    if files.len() == 0 {
        Seq::empty()
    } else {
        let rest = files_of_category(files.drop_last(), c);
        if spec_eligible(files.last()) && files.last().category == c {
            rest.push(files.last())
        } else {
            rest
        }
    }
}

/// The category at one position of the fixed listing order.
pub open spec fn category_order(k: int) -> FileCategory {
    if k == 0 {
        FileCategory::Images
    } else if k == 1 {
        FileCategory::Documents
    } else if k == 2 {
        FileCategory::Videos
    } else if k == 3 {
        FileCategory::Music
    } else if k == 4 {
        FileCategory::Archives
    } else if k == 5 {
        FileCategory::Installers
    } else if k == 6 {
        FileCategory::Code
    } else {
        FileCategory::Others
    }
}

/// One preview is the complete share of one category: it lists exactly the
/// eligible files of that category, counts them, and points at the
/// category's folder under the root.
pub open spec fn org_preview_ok(
    p: OrganizePreview,
    c: FileCategory,
    source: Seq<char>,
    files: Seq<FileInfo>,
) -> bool {
    &&& p.category@ == spec_category_key(c)
    &&& p.category_label@ == spec_category_korean_name(c)
    &&& p.files@.len() == files_of_category(files, c).len()
    &&& forall|i: int|
        0 <= i < p.files@.len() ==> same_file_info(
            #[trigger] p.files@[i],
            files_of_category(files, c)[i],
        )
    &&& p.destination_folder@ == spec_path_join(source, spec_category_folder(c))
    &&& p.file_count == p.files@.len()
    &&& p.file_count > 0
}

/// The share belongs to one of the eight categories and is complete for
/// it.
pub open spec fn some_category_share(
    p: OrganizePreview,
    source: Seq<char>,
    files: Seq<FileInfo>,
) -> bool {
    exists|c: int|
        #![trigger category_order(c)]
        0 <= c && c < 8 && org_preview_ok(p, category_order(c), source, files)
}

/// The share belongs to one of the first `c` categories of the listing
/// order.
pub open spec fn share_of_earlier(p: OrganizePreview, c: int) -> bool {
    exists|c2: int|
        #![trigger category_order(c2)]
        0 <= c2 && c2 < c && p.category@ == spec_category_key(category_order(c2))
}

/// The preview carries the share of category `c`.
pub open spec fn has_category_preview(r: Seq<OrganizePreview>, c: FileCategory) -> bool {
    exists|k: int| #![trigger r[k]] 0 <= k && k < r.len() && r[k].category@ == spec_category_key(c)
}

/// Collects the eligible files of one category, copied in input order.
fn collect_category(files: &Vec<FileInfo>, c: FileCategory) -> (r: Vec<FileInfo>)
    ensures
        r@.len() == files_of_category(files@, c).len(),
        forall|i: int|
            0 <= i < r@.len() ==> same_file_info(#[trigger] r@[i], files_of_category(files@, c)[i]),
{
    let n = files.len();
    let mut out: Vec<FileInfo> = Vec::new();
    let mut i: usize = 0;
    while i < n
        invariant
            i <= n,
            n == files@.len(),
            out@.len() == files_of_category(files@.take(i as int), c).len(),
            forall|j: int|
                0 <= j < out@.len() ==> same_file_info(
                    #[trigger] out@[j],
                    files_of_category(files@.take(i as int), c)[j],
                ),
        decreases n - i,
    {
        proof {
            assert(files@.take(i + 1 as int).drop_last() =~= files@.take(i as int));
            assert(files@.take(i + 1 as int).last() == files@[i as int]);
        }
        let f = &files[i];
        let eligible = !f.is_directory && !name_is_hidden(f.name.as_str());
        if eligible && f.category == c {
            out.push(clone_file_info(f));
        }
        i = i + 1;
    }
    proof {
        assert(files@.take(n as int) =~= files@);
    }
    out
}

/// Builds the organization preview: one share per category that has
/// eligible files, with each share complete, every such category present
/// exactly once, ranked by file count largest first.
pub fn preview_organization(source_path: &str, files: &Vec<FileInfo>) -> (r: Vec<OrganizePreview>)
    ensures
        forall|k: int|
            0 <= k < r@.len() ==> some_category_share(#[trigger] r@[k], source_path@, files@),
        forall|c: int|
            0 <= c < 8 && files_of_category(files@, #[trigger] category_order(c)).len() > 0
                ==> has_category_preview(r@, category_order(c)),
        forall|k1: int, k2: int|
            0 <= k1 < k2 < r@.len() ==> (#[trigger] r@[k1]).file_count >= (
            #[trigger] r@[k2]).file_count,
        forall|k1: int, k2: int|
            0 <= k1 < k2 < r@.len() ==> (#[trigger] r@[k1]).category@ != (
            #[trigger] r@[k2]).category@,
{
    let mut base: Vec<OrganizePreview> = Vec::new();
    let mut c: usize = 0;
    while c < 8
        invariant
            c <= 8,
            forall|k: int|
                0 <= k < base@.len() ==> some_category_share(
                    #[trigger] base@[k],
                    source_path@,
                    files@,
                ),
            forall|c2: int|
                0 <= c2 < c && files_of_category(files@, #[trigger] category_order(c2)).len() > 0
                    ==> has_category_preview(base@, category_order(c2)),
            forall|k: int| 0 <= k < base@.len() ==> share_of_earlier(#[trigger] base@[k], c as int),
            forall|k1: int, k2: int|
                0 <= k1 < k2 < base@.len() ==> (#[trigger] base@[k1]).category@ != (
                #[trigger] base@[k2]).category@,
        decreases 8 - c,
    {
        let cat = match c {
            0 => FileCategory::Images,
            1 => FileCategory::Documents,
            2 => FileCategory::Videos,
            3 => FileCategory::Music,
            4 => FileCategory::Archives,
            5 => FileCategory::Installers,
            6 => FileCategory::Code,
            _ => FileCategory::Others,
        };
        let members = collect_category(files, cat);
        let count = members.len();
        if count > 0 {
            let p = OrganizePreview {
                category: String::from_str(category_key(&cat)),
                category_label: String::from_str(get_category_korean_name(&cat)),
                files: members,
                destination_folder: path_join(source_path, get_category_folder(&cat)),
                file_count: count,
            };
            proof {
                assert(cat == category_order(c as int));
                assert(org_preview_ok(p, category_order(c as int), source_path@, files@));
                assert(some_category_share(p, source_path@, files@));
            }
            let ghost old_base2 = base@;
            base.push(p);
            proof {
                assert(base@[base@.len() - 1].category@ == spec_category_key(
                    category_order(c as int),
                ));
                assert forall|k: int| 0 <= k < base@.len() implies share_of_earlier(
                    #[trigger] base@[k],
                    c + 1 as int,
                ) by {
                    if k < old_base2.len() {
                        assert(share_of_earlier(old_base2[k], c as int));
                        let c2 = choose|c2: int|
                            #![trigger category_order(c2)]
                            0 <= c2 && c2 < c && old_base2[k].category@ == spec_category_key(
                                category_order(c2),
                            );
                        assert(0 <= c2 && c2 < c + 1 && base@[k].category@ == spec_category_key(
                            category_order(c2),
                        ));
                    }
                }
                assert forall|k1: int, k2: int| 0 <= k1 < k2 < base@.len() implies (
                #[trigger] base@[k1]).category@ != (#[trigger] base@[k2]).category@ by {
                    if k2 == base@.len() - 1 {
                        assert(share_of_earlier(old_base2[k1], c as int));
                        let c2 = choose|c2: int|
                            #![trigger category_order(c2)]
                            0 <= c2 && c2 < c && old_base2[k1].category@ == spec_category_key(
                                category_order(c2),
                            );
                        crate::classifier::lemma_category_keys_distinct(
                            category_order(c2),
                            category_order(c as int),
                        );
                    }
                }
                assert forall|c2: int|
                    0 <= c2 < c + 1 && files_of_category(
                        files@,
                        #[trigger] category_order(c2),
                    ).len() > 0 implies has_category_preview(base@, category_order(c2)) by {
                    if c2 == c as int {
                        assert(base@[base@.len() - 1].category@ == spec_category_key(
                            category_order(c2),
                        ));
                    } else {
                        let w = choose|w: int|
                            #![trigger old_base2[w]]
                            0 <= w && w < old_base2.len() && old_base2[w].category@
                                == spec_category_key(category_order(c2));
                        assert(base@[w].category@ == spec_category_key(category_order(c2)));
                    }
                }
            }
        }
        c = c + 1;
    }
    // Rank the shares by file count, largest first.
    let bn = base.len();
    let mut pairs: Vec<(u64, usize)> = Vec::new();
    let mut k: usize = 0;
    while k < bn
        invariant
            k <= bn,
            bn == base@.len(),
            pairs@.len() == k,
            forall|a: int|
                0 <= a < k ==> (#[trigger] pairs@[a]) == (base@[a].file_count as u64, a as usize),
        decreases bn - k,
    {
        pairs.push((base[k].file_count as u64, k));
        k = k + 1;
    }
    proof {
        assert forall|a: int, b: int| 0 <= a < b < pairs@.len() implies pairs@[a] != pairs@[b] by {
            assert(pairs@[a].1 == a as usize && pairs@[b].1 == b as usize);
        }
        assert(pairs@.no_duplicates());
    }
    let sorted = sort_pairs_desc(&pairs);
    proof {
        assert forall|a: int| 0 <= a < sorted@.len() implies (#[trigger] sorted@[a]).1 < bn
            && sorted@[a].0 == base@[sorted@[a].1 as int].file_count as u64 by {
            assert(pairs@.contains(sorted@[a]));
            let b = choose|b: int| 0 <= b < pairs@.len() && pairs@[b] == sorted@[a];
            assert(pairs@[b] == (base@[b].file_count as u64, b as usize));
        }
    }
    let mut out: Vec<OrganizePreview> = Vec::new();
    let mut k2: usize = 0;
    while k2 < bn
        invariant
            k2 <= bn,
            bn == base@.len(),
            bn == sorted@.len(),
            out@.len() == k2,
            forall|a: int| 0 <= a < sorted@.len() ==> (#[trigger] sorted@[a]).1 < bn,
            forall|a: int|
                0 <= a < sorted@.len() ==> (#[trigger] sorted@[a]).0 == base@[sorted@[a].1 as int].file_count as u64,
            forall|a: int|
                0 <= a < k2 ==> same_org_preview(#[trigger] out@[a], base@[sorted@[a].1 as int]),
        decreases bn - k2,
    {
        let idx = sorted[k2].1;
        out.push(clone_org_preview(&base[idx]));
        k2 = k2 + 1;
    }
    proof {
        broadcast use vstd::seq_lib::group_to_multiset_ensures;

        assert forall|k3: int| 0 <= k3 < out@.len() implies some_category_share(
            #[trigger] out@[k3],
            source_path@,
            files@,
        ) by {
            assert(some_category_share(base@[sorted@[k3].1 as int], source_path@, files@));
            let b = sorted@[k3].1 as int;
            let c2 = choose|c2: int|
                #![trigger category_order(c2)]
                0 <= c2 && c2 < 8 && org_preview_ok(
                    base@[b],
                    category_order(c2),
                    source_path@,
                    files@,
                );
            lemma_same_org_preview_ok(
                out@[k3],
                base@[b],
                category_order(c2),
                source_path@,
                files@,
            );
            assert(some_category_share(out@[k3], source_path@, files@));
        }
        assert forall|a: int, b: int| 0 <= a < b < out@.len() implies (
        #[trigger] out@[a]).file_count >= (#[trigger] out@[b]).file_count by {
            assert(pair_above(sorted@[a], sorted@[b]));
        }
        pairs@.lemma_multiset_has_no_duplicates();
        sorted@.lemma_multiset_has_no_duplicates_conv();
        assert forall|a: int, b: int| 0 <= a < b < out@.len() implies (
        #[trigger] out@[a]).category@ != (#[trigger] out@[b]).category@ by {
            assert(sorted@[a] != sorted@[b]);
            if sorted@[a].1 == sorted@[b].1 {
                assert(sorted@[a] == sorted@[b]);
            }
            let i1 = sorted@[a].1 as int;
            let i2 = sorted@[b].1 as int;
            if i1 < i2 {
                assert(base@[i1].category@ != base@[i2].category@);
            } else {
                assert(base@[i2].category@ != base@[i1].category@);
            }
        }
        assert forall|c2: int|
            0 <= c2 < 8 && files_of_category(files@, #[trigger] category_order(c2)).len()
                > 0 implies has_category_preview(out@, category_order(c2)) by {
            let w = choose|w: int|
                #![trigger base@[w]]
                0 <= w && w < base@.len() && base@[w].category@ == spec_category_key(
                    category_order(c2),
                );
            assert(pairs@[w] == (base@[w].file_count as u64, w as usize));
            assert(pairs@.contains(pairs@[w]));
            assert(sorted@.to_multiset() == pairs@.to_multiset());
            assert(sorted@.to_multiset().contains(pairs@[w]));
            assert(sorted@.contains(pairs@[w]));
            let c3 = choose|c3: int| 0 <= c3 < sorted@.len() && sorted@[c3] == pairs@[w];
            assert(same_org_preview(out@[c3], base@[w]));
            assert(out@[c3].category@ == spec_category_key(category_order(c2)));
        }
    }
    out
}

/// Two preview shares agree field for field.
pub open spec fn same_org_preview(a: OrganizePreview, b: OrganizePreview) -> bool {
    &&& a.category@ == b.category@
    &&& a.category_label@ == b.category_label@
    &&& crate::records::same_file_seq(a.files@, b.files@)
    &&& a.destination_folder@ == b.destination_folder@
    &&& a.file_count == b.file_count
}

/// An equal copy of one preview share.
fn clone_org_preview(p: &OrganizePreview) -> (r: OrganizePreview)
    ensures
        same_org_preview(r, *p),
{
    OrganizePreview {
        category: p.category.clone(),
        category_label: p.category_label.clone(),
        files: crate::records::clone_file_infos(&p.files),
        destination_folder: p.destination_folder.clone(),
        file_count: p.file_count,
    }
}

/// A share's completeness only depends on its views, so it survives
/// copying.
proof fn lemma_same_org_preview_ok(
    a: OrganizePreview,
    b: OrganizePreview,
    c: FileCategory,
    source: Seq<char>,
    files: Seq<FileInfo>,
)
    requires
        org_preview_ok(b, c, source, files),
        same_org_preview(a, b),
    ensures
        org_preview_ok(a, c, source, files),
{
    assert forall|i: int| 0 <= i < a.files@.len() implies same_file_info(
        #[trigger] a.files@[i],
        files_of_category(files, c)[i],
    ) by {
        assert(same_file_info(a.files@[i], b.files@[i]));
        assert(same_file_info(b.files@[i], files_of_category(files, c)[i]));
    }
}

/// The date-subfolder name a format key derives from a rendered modified
/// time ("YYYY-MM-DD HH:MM:SS"): year and month, year over month, year
/// alone, or the full date; a time too short to carry the parts yields
/// "Unknown".
pub open spec fn spec_date_folder(modified: Seq<char>, format: Seq<char>) -> Seq<char> {
    if format == "YYYY-MM"@ {
        if modified.len() >= 7 {
            modified.take(7)
        } else {
            "Unknown"@
        }
    } else if format == "YYYY/MM"@ {
        if modified.len() >= 7 {
            modified.take(4) + seq!['/'] + modified.subrange(5, 7)
        } else {
            "Unknown"@
        }
    } else if format == "YYYY"@ {
        if modified.len() >= 4 {
            modified.take(4)
        } else {
            "Unknown"@
        }
    } else {
        if modified.len() >= 10 {
            modified.take(10)
        } else {
            "Unknown"@
        }
    }
}

/// Derives the date-subfolder name from a record's rendered modified time.
pub fn get_date_folder(modified_at: &str, format: &str) -> (r: String)
    ensures
        r@ == spec_date_folder(modified_at@, format@),
{
    let n = modified_at.unicode_len();
    if str_eq(format, "YYYY-MM") {
        if n >= 7 {
            let p = modified_at.substring_char(0, 7);
            proof {
                assert(modified_at@.subrange(0, 7) =~= modified_at@.take(7));
            }
            p.to_owned()
        } else {
            String::from_str("Unknown")
        }
    } else if str_eq(format, "YYYY/MM") {
        if n >= 7 {
            let y = modified_at.substring_char(0, 4);
            let m = modified_at.substring_char(5, 7);
            let mut out = String::new();
            out.append(y);
            crate::text::push_char(&mut out, '/');
            out.append(m);
            proof {
                assert(modified_at@.subrange(0, 4) =~= modified_at@.take(4));
                assert(out@ =~= modified_at@.take(4) + seq!['/'] + modified_at@.subrange(5, 7));
            }
            out
        } else {
            String::from_str("Unknown")
        }
    } else if str_eq(format, "YYYY") {
        if n >= 4 {
            let p = modified_at.substring_char(0, 4);
            proof {
                assert(modified_at@.subrange(0, 4) =~= modified_at@.take(4));
            }
            p.to_owned()
        } else {
            String::from_str("Unknown")
        }
    } else {
        if n >= 10 {
            let p = modified_at.substring_char(0, 10);
            proof {
                assert(modified_at@.subrange(0, 10) =~= modified_at@.take(10));
            }
            p.to_owned()
        } else {
            String::from_str("Unknown")
        }
    }
}

/// The way out of a destination conflict during organization.
#[derive(Debug, Clone, Copy, PartialEq, Eq, Structural)]
pub enum OrganizeConflict {
    Proceed,
    SkipFile,
    RenameDestination,
    Overwrite,
}

/// The conflict table of the organizer: a free destination is used as is;
/// a taken one is skipped, renamed around or overwritten as asked, and an
/// unknown word skips.
pub open spec fn spec_organize_decision(handle: Seq<char>, dest_exists: bool) -> OrganizeConflict {
    if !dest_exists {
        OrganizeConflict::Proceed
    } else if handle == "skip"@ {
        OrganizeConflict::SkipFile
    } else if handle == "rename"@ {
        OrganizeConflict::RenameDestination
    } else if handle == "overwrite"@ {
        OrganizeConflict::Overwrite
    } else {
        OrganizeConflict::SkipFile
    }
}

/// Decides what happens when an organization destination is already taken.
pub fn organize_decision(handle_duplicates: &str, dest_exists: bool) -> (r: OrganizeConflict)
    ensures
        r == spec_organize_decision(handle_duplicates@, dest_exists),
{
    if !dest_exists {
        OrganizeConflict::Proceed
    } else if str_eq(handle_duplicates, "skip") {
        OrganizeConflict::SkipFile
    } else if str_eq(handle_duplicates, "rename") {
        OrganizeConflict::RenameDestination
    } else if str_eq(handle_duplicates, "overwrite") {
        OrganizeConflict::Overwrite
    } else {
        OrganizeConflict::SkipFile
    }
}

/// Where organization sends one file: its category's folder under the
/// root, then the date subfolder when asked for.
pub open spec fn spec_organize_folder(
    f: FileInfo,
    source: Seq<char>,
    with_dates: bool,
    date_format: Seq<char>,
) -> Seq<char> {
    let base = spec_path_join(source, spec_category_folder(f.category));
    if with_dates {
        spec_path_join(base, spec_date_folder(f.modified_at@, date_format))
    } else {
        base
    }
}

/// One planned organization move is right for its file.
pub open spec fn organize_move_ok(
    m: PlannedMove,
    f: FileInfo,
    source: Seq<char>,
    with_dates: bool,
    date_format: Seq<char>,
) -> bool {
    &&& m.from@ == f.path@
    &&& m.dest_folder@ == spec_organize_folder(f, source, with_dates, date_format)
    &&& m.dest_file@ == spec_path_join(m.dest_folder@, f.name@)
}

/// The positions of the files organization acts on: the eligible ones.
pub open spec fn organize_indices(files: Seq<FileInfo>) -> Seq<int>
    decreases files.len(),
{
    if files.len() == 0 {
        Seq::empty()
    } else {
        let rest = organize_indices(files.drop_last());
        if spec_eligible(files.last()) {
            rest.push(files.len() - 1)
        } else {
            rest
        }
    }
}

/// Plans the moves of one organization run: every eligible file goes to
/// its category's folder under the root, under a date subfolder when the
/// options ask for one. Conflicts are left to the caller, who consults
/// `organize_decision` per destination.
pub fn plan_organize(
    source_path: &str,
    files: &Vec<FileInfo>,
    create_date_subfolders: bool,
    date_format: &str,
) -> (r: Vec<PlannedMove>)
    ensures
        r@.len() == organize_indices(files@).len(),
        forall|k: int|
            0 <= k < r@.len() ==> 0 <= #[trigger] organize_indices(files@)[k] < files@.len(),
        forall|k: int|
            0 <= k < r@.len() ==> organize_move_ok(
                #[trigger] r@[k],
                files@[organize_indices(files@)[k]],
                source_path@,
                create_date_subfolders,
                date_format@,
            ),
{
    let n = files.len();
    let mut out: Vec<PlannedMove> = Vec::new();
    let mut i: usize = 0;
    while i < n
        invariant
            i <= n,
            n == files@.len(),
            out@.len() == organize_indices(files@.take(i as int)).len(),
            forall|k: int|
                0 <= k < out@.len() ==> 0 <= #[trigger] organize_indices(
                    files@.take(i as int),
                )[k] < i,
            forall|k: int|
                0 <= k < out@.len() ==> organize_move_ok(
                    #[trigger] out@[k],
                    files@[organize_indices(files@.take(i as int))[k]],
                    source_path@,
                    create_date_subfolders,
                    date_format@,
                ),
        decreases n - i,
    {
        proof {
            assert(files@.take(i + 1 as int).drop_last() =~= files@.take(i as int));
            assert(files@.take(i + 1 as int).last() == files@[i as int]);
        }
        let f = &files[i];
        let eligible = !f.is_directory && !name_is_hidden(f.name.as_str());
        if eligible {
            let base = path_join(source_path, get_category_folder(&f.category));
            let folder = if create_date_subfolders {
                let d = get_date_folder(f.modified_at.as_str(), date_format);
                path_join(base.as_str(), d.as_str())
            } else {
                base
            };
            let dest_file = path_join(folder.as_str(), f.name.as_str());
            let m = PlannedMove { from: f.path.clone(), dest_folder: folder, dest_file };
            proof {
                assert(organize_move_ok(
                    m,
                    files@[i as int],
                    source_path@,
                    create_date_subfolders,
                    date_format@,
                ));
            }
            out.push(m);
        }
        i = i + 1;
    }
    proof {
        assert(files@.take(n as int) =~= files@);
    }
    out
}

/// Assembles the outcome of an organization run; it succeeded exactly when
/// no per-file error was collected.
pub fn organize_result(
    files_moved: usize,
    files_skipped: usize,
    errors: Vec<String>,
    history_id: i64,
) -> (r: OrganizeResult)
    ensures
        r.success == (r.errors@.len() == 0),
        r.files_moved == files_moved,
        r.files_skipped == files_skipped,
        r.errors@ == errors@,
        r.history_id == history_id,
{
    let success = errors.len() == 0;
    OrganizeResult { success, files_moved, files_skipped, errors, history_id }
}

} // verus!
