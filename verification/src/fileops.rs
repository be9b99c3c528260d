//! Planning of the direct file operations: resolving a directory
//! destination, deciding what an existing destination means under the
//! chosen strategy, the texts and payloads the history gets, and the
//! selection of backup folders.

use vstd::prelude::*;
use crate::history::UndoPayload;
use crate::paths::spec_path_join;
use crate::sorting::{sort_str_pairs, str_pair_above, str_pair_view};
use crate::text::{is_prefix_of, str_starts_with};

verus! {

/// What an existing destination means for a move or copy.
#[derive(Debug, Clone, Copy, PartialEq, Eq, Structural)]
pub enum OverwriteStrategy {
    Overwrite,
    Rename,
    Skip,
}

/// The step the caller takes before a move or copy.
#[derive(Debug, Clone, Copy, PartialEq, Eq, Structural)]
pub enum TransferStep {
    Proceed,
    RemoveExistingFirst,
    UseUniqueName,
    SkipExisting,
}

/// The conflict table of the direct operations: a free destination is used
/// as is; a taken one is removed first, renamed around, or skipped as the
/// strategy says.
pub open spec fn spec_transfer_decision(strategy: OverwriteStrategy, dest_exists: bool) -> TransferStep {
    if !dest_exists {
        TransferStep::Proceed
    } else {
        match strategy {
            OverwriteStrategy::Overwrite => TransferStep::RemoveExistingFirst,
            OverwriteStrategy::Rename => TransferStep::UseUniqueName,
            OverwriteStrategy::Skip => TransferStep::SkipExisting,
        }
    }
}

/// Decides what happens when a move or copy destination is already taken.
pub fn transfer_decision(strategy: OverwriteStrategy, dest_exists: bool) -> (r: TransferStep)
    ensures
        r == spec_transfer_decision(strategy, dest_exists),
{
    if !dest_exists {
        TransferStep::Proceed
    } else {
        match strategy {
            OverwriteStrategy::Overwrite => TransferStep::RemoveExistingFirst,
            OverwriteStrategy::Rename => TransferStep::UseUniqueName,
            OverwriteStrategy::Skip => TransferStep::SkipExisting,
        }
    }
}

/// The resolved destination of a transfer: a directory destination means
/// the file keeps its name inside it.
pub fn resolve_destination(source_name: &str, dest: &str, dest_is_dir: bool) -> (r: String)
    ensures
        dest_is_dir ==> r@ == spec_path_join(dest@, source_name@),
        !dest_is_dir ==> r@ == dest@,
{
    if dest_is_dir {
        crate::paths::path_join(dest, source_name)
    } else {
        dest.to_owned()
    }
}

/// Whether a rename must be refused: the resolved new path already exists
/// and is not the file's own name.
pub fn rename_collides(new_path_exists: bool, name_unchanged: bool) -> (r: bool)
    ensures
        r == (new_path_exists && !name_unchanged),
{
    new_path_exists && !name_unchanged
}

/// The replay payload of a completed move.
pub fn move_payload(original_path: String, new_path: String) -> (r: UndoPayload)
    ensures
        r matches UndoPayload::MoveOp { original_path: o, new_path: n } && o@ == original_path@
            && n@ == new_path@,
{
    UndoPayload::MoveOp { original_path, new_path }
}

/// The replay payload of a completed copy.
pub fn copy_payload(copied_path: String) -> (r: UndoPayload)
    ensures
        r matches UndoPayload::CopyOp { copied_path: c } && c@ == copied_path@,
{
    UndoPayload::CopyOp { copied_path }
}

/// The replay payload of a completed deletion.
pub fn delete_payload(to_trash: bool) -> (r: UndoPayload)
    ensures
        r matches UndoPayload::DeleteOp { to_trash: t } && t == to_trash,
{
    UndoPayload::DeleteOp { to_trash }
}

/// The replay payload of a completed rename.
pub fn rename_payload(original_path: String, new_path: String) -> (r: UndoPayload)
    ensures
        r matches UndoPayload::RenameOp { original_path: o, new_path: n } && o@ == original_path@
            && n@ == new_path@,
{
    UndoPayload::RenameOp { original_path, new_path }
}

/// What restoring does at one destination: a free path is copied into
/// directly; a taken one first has the existing item moved aside under a
/// fresh name, so nothing is ever overwritten silently.
#[derive(Debug, Clone, Copy, PartialEq, Eq, Structural)]
pub enum RestoreStep {
    CopyInPlace,
    DisplaceExistingThenCopy,
}

/// Decides how one backup entry is restored when its destination does or
/// does not already exist.
pub fn restore_decision(dest_exists: bool) -> (r: RestoreStep)
    ensures
        r == if dest_exists {
            RestoreStep::DisplaceExistingThenCopy
        } else {
            RestoreStep::CopyInPlace
        },
{
    if dest_exists {
        RestoreStep::DisplaceExistingThenCopy
    } else {
        RestoreStep::CopyInPlace
    }
}

/// One entry of a restore plan: where the backed-up item goes.
#[derive(Debug, Clone)]
pub struct RestorePlanEntry {
    pub relative: String,
    pub dest: String,
    pub is_directory: bool,
}

/// Plans a restore: every entry of the backup, in walk order, goes to the
/// same relative path under the restore root. Collisions are decided per
/// entry by `restore_decision` when the caller performs the plan.
pub fn plan_restore(entries: &Vec<(String, bool)>, restore_root: &str) -> (r: Vec<
    RestorePlanEntry,
>)
    ensures
        r@.len() == entries@.len(),
        forall|k: int|
            0 <= k < r@.len() ==> (#[trigger] r@[k]).relative@ == entries@[k].0@ && r@[k].dest@
                == spec_path_join(restore_root@, entries@[k].0@) && r@[k].is_directory
                == entries@[k].1,
{
    let n = entries.len();
    let mut out: Vec<RestorePlanEntry> = Vec::new();
    let mut i: usize = 0;
    while i < n
        invariant
            i <= n,
            n == entries@.len(),
            out@.len() == i,
            forall|k: int|
                0 <= k < i ==> (#[trigger] out@[k]).relative@ == entries@[k].0@ && out@[k].dest@
                    == spec_path_join(restore_root@, entries@[k].0@) && out@[k].is_directory
                    == entries@[k].1,
        decreases n - i,
    {
        let e = RestorePlanEntry {
            relative: entries[i].0.clone(),
            dest: crate::paths::path_join(restore_root, entries[i].0.as_str()),
            is_directory: entries[i].1,
        };
        out.push(e);
        i = i + 1;
    }
    out
}

/// One finished backup run.
#[derive(Debug, Clone)]
pub struct BackupResult {
    pub backup_path: String,
    pub files_count: usize,
    pub total_size: u64,
}

/// One stored backup folder.
#[derive(Debug, Clone)]
pub struct BackupInfo {
    pub name: String,
    pub path: String,
    pub size: u64,
    pub file_count: usize,
    pub created_at: String,
}

/// The name a new backup folder gets from its timestamp.
pub fn backup_folder_name(timestamp: &str) -> (r: String)
    ensures
        r@ == "Desktop_backup_"@ + timestamp@,
{
    let mut out = String::new();
    out.append("Desktop_backup_");
    out.append(timestamp);
    proof {
        assert(out@ =~= "Desktop_backup_"@ + timestamp@);
    }
    out
}

/// Whether a folder name marks a backup of ours.
pub fn is_backup_name(name: &str) -> (r: bool)
    ensures
        r == is_prefix_of("Desktop_backup_"@, name@),
{
    str_starts_with(name, "Desktop_backup_")
}

/// Two backup listings agree field for field.
pub open spec fn same_backup_info(a: BackupInfo, b: BackupInfo) -> bool {
    &&& a.name@ == b.name@
    &&& a.path@ == b.path@
    &&& a.size == b.size
    &&& a.file_count == b.file_count
    &&& a.created_at@ == b.created_at@
}

/// The entries of the listing whose names mark backups, in input order.
pub open spec fn backup_entries(s: Seq<BackupInfo>) -> Seq<BackupInfo>
    decreases s.len(),
{
    if s.len() == 0 {
        Seq::empty()
    } else {
        let rest = backup_entries(s.drop_last());
        if is_prefix_of("Desktop_backup_"@, s.last().name@) {
            rest.push(s.last())
        } else {
            rest
        }
    }
}

/// The listing arranges the backup entries without repeating or dropping
/// any: some distinct selection of all their positions produces it.
pub open spec fn backups_arrangement(r: Seq<BackupInfo>, s: Seq<BackupInfo>) -> bool {
    exists|idxs: Seq<int>|
        #![trigger crate::records::distinct_within(idxs, backup_entries(s).len() as int)]
        crate::records::distinct_within(idxs, backup_entries(s).len() as int) && idxs.len()
            == r.len() && forall|k: int|
            0 <= k < r.len() ==> same_backup_info(#[trigger] r[k], backup_entries(s)[idxs[k]])
}

/// The entry copies one of the listing's backup entries.
pub open spec fn copied_backup(s: Seq<BackupInfo>, e: BackupInfo) -> bool {
    exists|k: int|
        #![trigger backup_entries(s)[k]]
        0 <= k && k < backup_entries(s).len() && same_backup_info(e, backup_entries(s)[k])
}

/// An equal copy of one backup listing.
fn clone_backup(b: &BackupInfo) -> (r: BackupInfo)
    ensures
        same_backup_info(r, *b),
{
    BackupInfo {
        name: b.name.clone(),
        path: b.path.clone(),
        size: b.size,
        file_count: b.file_count,
        created_at: b.created_at.clone(),
    }
}

/// Keeps the entries named as backups and arranges them newest first: the
/// names carry the timestamp, so descending name order is descending age.
pub fn select_backups(entries: &Vec<BackupInfo>) -> (r: Vec<BackupInfo>)
    ensures
        r@.len() == backup_entries(entries@).len(),
        forall|k: int| 0 <= k < r@.len() ==> copied_backup(entries@, #[trigger] r@[k]),
        forall|k1: int, k2: int|
            0 <= k1 < k2 < r@.len() ==> crate::text::lex_cmp(
                (#[trigger] r@[k1]).name@,
                (#[trigger] r@[k2]).name@,
            ) >= 0,
        backups_arrangement(r@, entries@),
{
    let n = entries.len();
    let mut kept: Vec<BackupInfo> = Vec::new();
    let mut i: usize = 0;
    while i < n
        invariant
            i <= n,
            n == entries@.len(),
            kept@.len() == backup_entries(entries@.take(i as int)).len(),
            forall|k: int|
                0 <= k < kept@.len() ==> same_backup_info(
                    #[trigger] kept@[k],
                    backup_entries(entries@.take(i as int))[k],
                ),
        decreases n - i,
    {
        proof {
            assert(entries@.take(i + 1 as int).drop_last() =~= entries@.take(i as int));
            assert(entries@.take(i + 1 as int).last() == entries@[i as int]);
        }
        if is_backup_name(entries[i].name.as_str()) {
            kept.push(clone_backup(&entries[i]));
        }
        i = i + 1;
    }
    proof {
        assert(entries@.take(n as int) =~= entries@);
    }
    let kn = kept.len();
    let mut pairs: Vec<(String, usize)> = Vec::new();
    let mut k: usize = 0;
    while k < kn
        invariant
            k <= kn,
            kn == kept@.len(),
            pairs@.len() == k,
            forall|a: int|
                0 <= a < k ==> (#[trigger] pairs@[a]).0@ == kept@[a].name@ && pairs@[a].1 == a,
        decreases kn - k,
    {
        pairs.push((kept[k].name.clone(), k));
        k = k + 1;
    }
    let ghost pairs_snap = pairs@;
    let sorted = sort_str_pairs(pairs, true);
    let ghost vw = pairs_snap.map_values(|p: (String, usize)| str_pair_view(p));
    proof {
        assert forall|a: int| 0 <= a < sorted@.len() implies (#[trigger] sorted@[a]).1 < kn
            && sorted@[a].0@ == kept@[sorted@[a].1 as int].name@ by {
            assert(vw.contains(str_pair_view(sorted@[a])));
            let b = choose|b: int| 0 <= b < vw.len() && vw[b] == str_pair_view(sorted@[a]);
            assert(vw[b] == (pairs_snap[b].0@, pairs_snap[b].1));
        }
        assert forall|a: int, b: int| 0 <= a < b < vw.len() implies vw[a] != vw[b] by {
            assert(vw[a].1 == a as usize && vw[b].1 == b as usize);
        }
        assert(vw.no_duplicates());
    }
    let mut out: Vec<BackupInfo> = Vec::new();
    let mut a: usize = 0;
    while a < kn
        invariant
            a <= kn,
            kn == kept@.len(),
            kn == sorted@.len(),
            n == entries@.len(),
            out@.len() == a,
            forall|k2: int| 0 <= k2 < sorted@.len() ==> (#[trigger] sorted@[k2]).1 < kn,
            forall|k2: int|
                0 <= k2 < sorted@.len() ==> (#[trigger] sorted@[k2]).0@ == kept@[sorted@[k2].1 as int].name@,
            forall|k2: int|
                0 <= k2 < kept@.len() ==> same_backup_info(
                    #[trigger] kept@[k2],
                    backup_entries(entries@)[k2],
                ),
            forall|k2: int|
                0 <= k2 < a ==> same_backup_info(
                    #[trigger] out@[k2],
                    kept@[sorted@[k2].1 as int],
                ) && out@[k2].name@ == sorted@[k2].0@,
        decreases kn - a,
    {
        let idx = sorted[a].1;
        out.push(clone_backup(&kept[idx]));
        a = a + 1;
    }
    proof {
        assert forall|k2: int| 0 <= k2 < out@.len() implies copied_backup(
            entries@,
            #[trigger] out@[k2],
        ) by {
            let b = sorted@[k2].1 as int;
            assert(same_backup_info(kept@[b], backup_entries(entries@)[b]));
            assert(same_backup_info(out@[k2], backup_entries(entries@)[b]));
        }
        assert forall|k1: int, k2: int| 0 <= k1 < k2 < out@.len() implies crate::text::lex_cmp(
            (#[trigger] out@[k1]).name@,
            (#[trigger] out@[k2]).name@,
        ) >= 0 by {
            assert(str_pair_above(true, str_pair_view(sorted@[k1]), str_pair_view(sorted@[k2])));
            crate::text::lemma_lex_cmp_antisym(out@[k1].name@, out@[k2].name@);
        }
        // The arrangement repeats no backup: positions are distinct.
        let sm = sorted@.map_values(|p: (String, usize)| str_pair_view(p));
        let idxs = Seq::new(sorted@.len(), |k: int| sorted@[k].1 as int);
        assert forall|k1: int, k2: int| 0 <= k1 < k2 < idxs.len() implies idxs[k1] != idxs[k2] by {
            assert(sm[k1] == str_pair_view(sorted@[k1]));
            assert(sm[k2] == str_pair_view(sorted@[k2]));
            assert(sm[k1] != sm[k2]);
            if sorted@[k1].1 == sorted@[k2].1 {
                assert(sm[k1].0 == kept@[sorted@[k1].1 as int].name@);
                assert(sm[k2].0 == kept@[sorted@[k2].1 as int].name@);
                assert(sm[k1] == sm[k2]);
            }
        }
        assert(crate::records::distinct_within(idxs, backup_entries(entries@).len() as int));
        assert forall|k: int| 0 <= k < out@.len() implies same_backup_info(
            #[trigger] out@[k],
            backup_entries(entries@)[idxs[k]],
        ) by {
            assert(same_backup_info(out@[k], kept@[idxs[k]]));
            assert(same_backup_info(kept@[idxs[k]], backup_entries(entries@)[idxs[k]]));
        }
        assert(backups_arrangement(out@, entries@));
    }
    out
}

} // verus!
