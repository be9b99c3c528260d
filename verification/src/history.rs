//! The history ledger: an append-only log of executed mutations with the
//! data needed to reverse them. Entries get monotonically increasing
//! identifiers, an entry can be marked undone once, and reversal of an
//! entry is planned from its typed payload without touching anything.

use vstd::prelude::*;
use crate::text::str_eq;

verus! {

/// One logged operation.
#[derive(Debug, Clone)]
pub struct HistoryItem {
    pub id: i64,
    pub operation_type: String,
    pub description: String,
    pub details: Option<String>,
    pub files_affected: i32,
    pub is_undone: bool,
    pub created_at: String,
}

/// Why the ledger or the undo planner refused.
#[derive(Debug, Clone, Copy, PartialEq, Eq, Structural)]
pub enum HistoryError {
    NotFound,
    AlreadyUndone,
    CannotUndo,
    TrashUndoUnavailable,
}

impl HistoryError {
    /// The user-visible message of this error.
    pub fn message(&self) -> (r: &'static str)
        ensures
            r@ == match *self {
                HistoryError::NotFound => "History item not found"@,
                HistoryError::AlreadyUndone => "Operation has already been undone"@,
                HistoryError::CannotUndo => "Cannot undo permanent delete"@,
                HistoryError::TrashUndoUnavailable => "Trash undo not implemented. Please restore from trash manually."@,
            },
    {
        match self {
            HistoryError::NotFound => "History item not found",
            HistoryError::AlreadyUndone => "Operation has already been undone",
            HistoryError::CannotUndo => "Cannot undo permanent delete",
            HistoryError::TrashUndoUnavailable => "Trash undo not implemented. Please restore from trash manually.",
        }
    }
}

/// Two entries agree field for field.
pub open spec fn same_item(a: HistoryItem, b: HistoryItem) -> bool {
    &&& a.id == b.id
    &&& a.operation_type@ == b.operation_type@
    &&& a.description@ == b.description@
    &&& match (a.details, b.details) {
        (Some(x), Some(y)) => x@ == y@,
        (None, None) => true,
        _ => false,
    }
    &&& a.files_affected == b.files_affected
    &&& a.is_undone == b.is_undone
    &&& a.created_at@ == b.created_at@
}

/// An equal copy of one entry.
fn clone_item(e: &HistoryItem) -> (r: HistoryItem)
    ensures
        same_item(r, *e),
{
    HistoryItem {
        id: e.id,
        operation_type: e.operation_type.clone(),
        description: e.description.clone(),
        details: match &e.details {
            Some(d) => Some(d.clone()),
            None => None,
        },
        files_affected: e.files_affected,
        is_undone: e.is_undone,
        created_at: e.created_at.clone(),
    }
}

/// The durable log. Entries only ever get appended; identifiers grow
/// strictly and are never reused, also after a bulk clear.
#[derive(Debug)]
pub struct HistoryLedger {
    entries: Vec<HistoryItem>,
    next_id: i64,
}

impl HistoryLedger {
    /// The logged entries, oldest first.
    pub closed spec fn entries(self) -> Seq<HistoryItem> {
        self.entries@
    }

    /// The identifier the next entry will get.
    pub closed spec fn next_id(self) -> i64 {
        self.next_id as i64
    }

    /// Identifiers grow strictly along the log and stay below the next one.
    pub open spec fn wf(self) -> bool {
        &&& 1 <= self.next_id()
        &&& forall|k1: int, k2: int|
            0 <= k1 < k2 < self.entries().len() ==> (#[trigger] self.entries()[k1]).id < (
            #[trigger] self.entries()[k2]).id
        &&& forall|k: int|
            0 <= k < self.entries().len() ==> 1 <= (#[trigger] self.entries()[k]).id
                < self.next_id()
    }

    /// An empty ledger; the first entry will get identifier 1.
    pub fn new() -> (r: Self)
        ensures
            r.wf(),
            r.entries().len() == 0,
            r.next_id() == 1,
    {
        HistoryLedger { entries: Vec::new(), next_id: 1 }
    }

    /// Appends one record of an executed mutation and returns its fresh
    /// identifier.
    pub fn add_history(
        &mut self,
        operation_type: String,
        description: String,
        details: String,
        created_at: String,
    ) -> (r: i64)
        requires
            old(self).wf(),
            old(self).next_id() < i64::MAX,
        ensures
            final(self).wf(),
            r == old(self).next_id(),
            final(self).next_id() == old(self).next_id() + 1,
            final(self).entries().len() == old(self).entries().len() + 1,
            final(self).entries().take(old(self).entries().len() as int) == old(self).entries(),
            ({
                let e = final(self).entries().last();
                &&& e.id == r
                &&& e.operation_type@ == operation_type@
                &&& e.description@ == description@
                &&& e.details == Some(details)
                &&& e.files_affected == 1
                &&& !e.is_undone
                &&& e.created_at@ == created_at@
            }),
    {
        let id = self.next_id;
        let entry = HistoryItem {
            id,
            operation_type,
            description,
            details: Some(details),
            files_affected: 1,
            is_undone: false,
            created_at,
        };
        self.entries.push(entry);
        self.next_id = self.next_id + 1;
        proof {
            assert(self.entries@.take(old(self).entries@.len() as int) =~= old(self).entries@);
        }
        id
    }

    /// Some entry carries this identifier.
    pub open spec fn has_id(self, id: i64) -> bool {
        exists|k: int|
            #![trigger self.entries()[k]]
            0 <= k && k < self.entries().len() && self.entries()[k].id == id
    }

    /// The position of the entry with this identifier.
    pub open spec fn idx_of(self, id: i64) -> int {
        choose|k: int|
            #![trigger self.entries()[k]]
            0 <= k && k < self.entries().len() && self.entries()[k].id == id
    }

    /// Looks one entry up by identifier; absent identifiers are reported,
    /// never invented.
    pub fn get_history_item(&self, id: i64) -> (r: Result<HistoryItem, HistoryError>)
        requires
            self.wf(),
        ensures
            match r {
                Ok(e) => self.has_id(id) && same_item(e, self.entries()[self.idx_of(id)]),
                Err(he) => he == HistoryError::NotFound && !self.has_id(id),
            },
    {
        let n = self.entries.len();
        let mut k: usize = 0;
        while k < n
            invariant
                k <= n,
                n == self.entries@.len(),
                self.wf(),
                forall|j: int| 0 <= j < k ==> (#[trigger] self.entries@[j]).id != id,
            decreases n - k,
        {
            if self.entries[k].id == id {
                proof {
                    let k0 = self.idx_of(id);
                    assert(0 <= k0 && k0 < self.entries().len() && self.entries()[k0].id == id);
                    if k0 < k {
                        assert(self.entries@[k0].id != id);
                    } else if k0 > k as int {
                        assert(self.entries()[k as int].id < self.entries()[k0].id);
                    }
                }
                return Ok(clone_item(&self.entries[k]));
            }
            k = k + 1;
        }
        proof {
            if self.has_id(id) {
                let w = choose|w: int|
                    #![trigger self.entries()[w]]
                    0 <= w && w < self.entries().len() && self.entries()[w].id == id;
                assert(self.entries@[w].id != id);
            }
        }
        Err(HistoryError::NotFound)
    }

    /// Marks the entry with this identifier undone. Marking is one-way:
    /// nothing else about the log changes, and an absent identifier changes
    /// nothing at all.
    pub fn mark_history_undone(&mut self, id: i64)
        requires
            old(self).wf(),
        ensures
            final(self).wf(),
            final(self).next_id() == old(self).next_id(),
            final(self).entries().len() == old(self).entries().len(),
            old(self).has_id(id) ==> ({
                let k = old(self).idx_of(id);
                &&& final(self).entries()[k].is_undone
                &&& same_item_except_undone(final(self).entries()[k], old(self).entries()[k])
                &&& forall|j: int|
                    0 <= j < final(self).entries().len() && j != k
                        ==> #[trigger] final(self).entries()[j] == old(self).entries()[j]
            }),
            !old(self).has_id(id) ==> final(self).entries() == old(self).entries(),
    {
        let n = self.entries.len();
        let mut k: usize = 0;
        while k < n
            invariant
                k <= n,
                n == self.entries@.len(),
                self.wf(),
                *self == *old(self),
                forall|j: int| 0 <= j < k ==> (#[trigger] self.entries@[j]).id != id,
            decreases n - k,
        {
            if self.entries[k].id == id {
                proof {
                    let k0 = old(self).idx_of(id);
                    assert(0 <= k0 && k0 < self.entries().len() && self.entries()[k0].id == id);
                    if k0 < k {
                        assert(self.entries@[k0].id != id);
                    } else if k0 > k as int {
                        assert(self.entries()[k as int].id < self.entries()[k0].id);
                    }
                }
                let e = &mut self.entries[k];
                e.is_undone = true;
                return ;
            }
            k = k + 1;
        }
        proof {
            if old(self).has_id(id) {
                let w = choose|w: int|
                    #![trigger old(self).entries()[w]]
                    0 <= w && w < old(self).entries().len() && old(self).entries()[w].id == id;
                assert(self.entries@[w].id != id);
            }
            assert(self.entries() =~= old(self).entries());
        }
    }

    /// Returns a page of the log, newest entries first.
    pub fn get_history(&self, limit: i32, offset: i32) -> (r: Vec<HistoryItem>)
        requires
            self.wf(),
        ensures
            r@.len() == spec_page_len(
                self.entries().len() as int,
                limit as int,
                offset as int,
            ),
            forall|k: int|
                0 <= k < r@.len() ==> same_item(
                    #[trigger] r@[k],
                    self.entries()[self.entries().len() - 1 - spec_page_offset(offset as int) - k],
                ),
    {
        let n = self.entries.len();
        let off: usize = if offset <= 0 {
            0
        } else {
            offset as usize
        };
        let avail: usize = if off >= n {
            0
        } else {
            n - off
        };
        let lim: usize = if limit < 0 {
            avail
        } else if (limit as usize) < avail {
            limit as usize
        } else {
            avail
        };
        let mut out: Vec<HistoryItem> = Vec::new();
        let mut k: usize = 0;
        while k < lim
            invariant
                k <= lim,
                n == self.entries@.len(),
                off == spec_page_offset(offset as int),
                lim == spec_page_len(n as int, limit as int, offset as int),
                lim > 0 ==> off < n && lim <= n - off,
                out@.len() == k,
                forall|j: int|
                    0 <= j < k ==> same_item(#[trigger] out@[j], self.entries@[n - 1 - off - j]),
            decreases lim - k,
        {
            out.push(clone_item(&self.entries[n - 1 - off - k]));
            k = k + 1;
        }
        out
    }

    /// Empties the log; identifiers are not reused afterwards.
    pub fn clear_history(&mut self)
        requires
            old(self).wf(),
        ensures
            final(self).wf(),
            final(self).entries().len() == 0,
            final(self).next_id() == old(self).next_id(),
    {
        self.entries.clear();
    }
}

/// The two entries agree except that the first may be marked undone.
pub open spec fn same_item_except_undone(a: HistoryItem, b: HistoryItem) -> bool {
    &&& a.id == b.id
    &&& a.operation_type@ == b.operation_type@
    &&& a.description@ == b.description@
    &&& a.details == b.details
    &&& a.files_affected == b.files_affected
    &&& a.created_at@ == b.created_at@
}

/// How many entries a page shows.
pub open spec fn spec_page_len(n: int, limit: int, offset: int) -> int {
    let off = spec_page_offset(offset);
    let avail = if off >= n {
        0int
    } else {
        n - off
    };
    if limit < 0 {
        avail
    } else if limit < avail {
        limit
    } else {
        avail
    }
}

/// The effective offset of a page: negative offsets count as none.
pub open spec fn spec_page_offset(offset: int) -> int {
    if offset <= 0 {
        0int
    } else {
        offset
    }
}

/// The typed replay payload of one logged operation.
#[derive(Debug, Clone)]
pub enum UndoPayload {
    MoveOp { original_path: String, new_path: String },
    CopyOp { copied_path: String },
    RenameOp { original_path: String, new_path: String },
    DeleteOp { to_trash: bool },
    Batch { moves: Vec<(String, String)> },
}

/// One reversal step the caller performs.
#[derive(Debug, Clone)]
pub enum UndoStep {
    MoveBack { from: String, to: String },
    DeleteCopy { path: String },
}

/// The pairs of a batch whose paths are both present, in order; those are
/// the reversible ones.
pub open spec fn reversible_pairs(ms: Seq<(String, String)>) -> Seq<(String, String)>
    decreases ms.len(),
{
    if ms.len() == 0 {
        Seq::empty()
    } else {
        let rest = reversible_pairs(ms.drop_last());
        if ms.last().0@.len() > 0 && ms.last().1@.len() > 0 {
            rest.push(ms.last())
        } else {
            rest
        }
    }
}

/// The step moves the pair's file back where it came from.
pub open spec fn batch_step_ok(step: UndoStep, pair: (String, String)) -> bool {
    step matches UndoStep::MoveBack { from, to } && from@ == pair.1@ && to@ == pair.0@
}

/// Plans the reversal of one logged operation from its payload. Nothing is
/// touched: the caller walks the returned steps. An entry already marked
/// undone is refused before any step is produced; a deletion is refused as
/// the policy says; a batch yields one move back per recorded pair.
pub fn plan_undo(is_undone: bool, payload: &UndoPayload) -> (r: Result<
    Vec<UndoStep>,
    HistoryError,
>)
    ensures
        is_undone <==> r == Result::<Vec<UndoStep>, HistoryError>::Err(
            HistoryError::AlreadyUndone,
        ),
        match r {
            Ok(steps) => !is_undone && match *payload {
                UndoPayload::MoveOp { original_path, new_path } => {
                    &&& steps@.len() == 1
                    &&& steps@[0] matches UndoStep::MoveBack { from, to } && from@ == new_path@
                        && to@ == original_path@
                },
                UndoPayload::CopyOp { copied_path } => {
                    &&& steps@.len() == 1
                    &&& steps@[0] matches UndoStep::DeleteCopy { path } && path@ == copied_path@
                },
                UndoPayload::RenameOp { original_path, new_path } => {
                    &&& steps@.len() == 1
                    &&& steps@[0] matches UndoStep::MoveBack { from, to } && from@ == new_path@
                        && to@ == original_path@
                },
                UndoPayload::DeleteOp { .. } => false,
                UndoPayload::Batch { moves } => {
                    &&& steps@.len() == reversible_pairs(moves@).len()
                    &&& forall|k: int|
                        0 <= k < steps@.len() ==> batch_step_ok(
                            #[trigger] steps@[k],
                            reversible_pairs(moves@)[k],
                        )
                },
            },
            Err(e) => {
                ||| (e == HistoryError::AlreadyUndone && is_undone)
                ||| (!is_undone && e == HistoryError::CannotUndo && *payload matches
                    UndoPayload::DeleteOp { to_trash: false })
                ||| (!is_undone && e == HistoryError::TrashUndoUnavailable && *payload matches
                    UndoPayload::DeleteOp { to_trash: true })
            },
        },
{
    if is_undone {
        return Err(HistoryError::AlreadyUndone);
    }
    match payload {
        UndoPayload::MoveOp { original_path, new_path } => {
            let mut steps: Vec<UndoStep> = Vec::new();
            steps.push(UndoStep::MoveBack { from: new_path.clone(), to: original_path.clone() });
            Ok(steps)
        },
        UndoPayload::CopyOp { copied_path } => {
            let mut steps: Vec<UndoStep> = Vec::new();
            steps.push(UndoStep::DeleteCopy { path: copied_path.clone() });
            Ok(steps)
        },
        UndoPayload::RenameOp { original_path, new_path } => {
            let mut steps: Vec<UndoStep> = Vec::new();
            steps.push(UndoStep::MoveBack { from: new_path.clone(), to: original_path.clone() });
            Ok(steps)
        },
        UndoPayload::DeleteOp { to_trash } => {
            if *to_trash {
                Err(HistoryError::TrashUndoUnavailable)
            } else {
                Err(HistoryError::CannotUndo)
            }
        },
        UndoPayload::Batch { moves } => {
            let n = moves.len();
            let mut steps: Vec<UndoStep> = Vec::new();
            let mut i: usize = 0;
            while i < n
                invariant
                    i <= n,
                    n == moves@.len(),
                    steps@.len() == reversible_pairs(moves@.take(i as int)).len(),
                    forall|k: int|
                        0 <= k < steps@.len() ==> batch_step_ok(
                            #[trigger] steps@[k],
                            reversible_pairs(moves@.take(i as int))[k],
                        ),
                decreases n - i,
            {
                proof {
                    assert(moves@.take(i + 1 as int).drop_last() =~= moves@.take(i as int));
                    assert(moves@.take(i + 1 as int).last() == moves@[i as int]);
                }
                let pair = &moves[i];
                if pair.0.as_str().unicode_len() > 0 && pair.1.as_str().unicode_len() > 0 {
                    steps.push(UndoStep::MoveBack { from: pair.1.clone(), to: pair.0.clone() });
                }
                i = i + 1;
            }
            proof {
                assert(moves@.take(n as int) =~= moves@);
            }
            Ok(steps)
        },
    }
}

/// `p` is everything before the last separator of `path`.
pub open spec fn parent_rel(p: Seq<char>, path: Seq<char>) -> bool {
    exists|i: int| #![trigger path.take(i)] is_last_slash(path, i) && p == path.take(i)
}

/// `p` is the parent folder of some pair's destination.
pub open spec fn parent_of_some(moves: Seq<(String, String)>, p: Seq<char>) -> bool {
    exists|i: int|
        #![trigger moves[i]]
        0 <= i && i < moves.len() && parent_rel(p, moves[i].1@)
}

/// `p` appears among the listed folders.
pub open spec fn folder_listed(out: Seq<String>, p: Seq<char>) -> bool {
    exists|k: int| #![trigger out[k]] 0 <= k && k < out.len() && out[k]@ == p
}

/// A path has one parent: the last separator is one position.
proof fn lemma_parent_unique(p1: Seq<char>, p2: Seq<char>, path: Seq<char>)
    requires
        parent_rel(p1, path),
        parent_rel(p2, path),
    ensures
        p1 == p2,
{
    let i1 = choose|i: int| #![trigger path.take(i)] is_last_slash(path, i) && p1 == path.take(i);
    let i2 = choose|i: int| #![trigger path.take(i)] is_last_slash(path, i) && p2 == path.take(i);
    if i1 < i2 {
        assert(path[i2] != '/');
    } else if i2 < i1 {
        assert(path[i1] != '/');
    }
}

/// `i` is the position of the last separator of `s`.
pub open spec fn is_last_slash(s: Seq<char>, i: int) -> bool {
    &&& 0 <= i < s.len()
    &&& s[i] == '/'
    &&& forall|j: int| i < j < s.len() ==> s[j] != '/'
}

/// The folder part of a path: everything before the last separator, or
/// nothing when the path has none.
pub fn parent_dir(path: &str) -> (r: Option<String>)
    ensures
        match r {
            Some(p) => parent_rel(p@, path@),
            None => forall|i: int| 0 <= i < path@.len() ==> path@[i] != '/',
        },
{
    let n = path.unicode_len();
    let mut k: usize = n;
    while k > 0
        invariant
            k <= n,
            n == path@.len(),
            forall|j: int| k <= j < n ==> path@[j] != '/',
        decreases k,
    {
        k = k - 1;
        if path.get_char(k) == '/' {
            let p = path.substring_char(0, k);
            let owned = p.to_owned();
            proof {
                assert(path@.subrange(0, k as int) =~= path@.take(k as int));
                assert(is_last_slash(path@, k as int));
                assert(owned@ == path@.take(k as int));
            }
            return Some(owned);
        }
    }
    None
}

/// The distinct destination parent folders of a batch's pairs, each once,
/// in first-appearance order: the folders the undo tries to remove once
/// they fall empty.
pub fn cleanup_folders(moves: &Vec<(String, String)>) -> (r: Vec<String>)
    ensures
        forall|k1: int, k2: int|
            0 <= k1 < k2 < r@.len() ==> (#[trigger] r@[k1])@ != (#[trigger] r@[k2])@,
        forall|k: int| 0 <= k < r@.len() ==> parent_of_some(moves@, (#[trigger] r@[k])@),
        forall|i: int, p: Seq<char>|
            0 <= i < moves@.len() && #[trigger] parent_rel(p, moves@[i].1@) ==> folder_listed(
                r@,
                p,
            ),
{
    let n = moves.len();
    let mut out: Vec<String> = Vec::new();
    let mut i: usize = 0;
    while i < n
        invariant
            i <= n,
            n == moves@.len(),
            forall|k1: int, k2: int|
                0 <= k1 < k2 < out@.len() ==> (#[trigger] out@[k1])@ != (#[trigger] out@[k2])@,
            forall|k: int|
                0 <= k < out@.len() ==> parent_of_some(moves@, (#[trigger] out@[k])@),
            forall|i2: int, p: Seq<char>|
                0 <= i2 < i && #[trigger] parent_rel(p, moves@[i2].1@) ==> folder_listed(out@, p),
        decreases n - i,
    {
        let ghost old_out = out@;
        match parent_dir(moves[i].1.as_str()) {
            Some(p) => {
                let ghost moves_parent = p@;
                let m = out.len();
                let mut seen = false;
                let mut k: usize = 0;
                while k < m && !seen
                    invariant
                        k <= m,
                        m == out@.len(),
                        !seen ==> forall|j: int| 0 <= j < k ==> (#[trigger] out@[j])@ != p@,
                        seen ==> exists|j: int|
                            #![trigger out@[j]]
                            0 <= j && j < out@.len() && out@[j]@ == p@,
                    decreases m - k + (if seen {
                        0int
                    } else {
                        1int
                    }),
                {
                    if str_eq(out[k].as_str(), p.as_str()) {
                        seen = true;
                    } else {
                        k = k + 1;
                    }
                }
                if !seen {
                    proof {
                        assert(0 <= i as int && (i as int) < moves@.len() && parent_rel(
                            p@,
                            moves@[i as int].1@,
                        ));
                        assert(parent_of_some(moves@, p@));
                    }
                    out.push(p);
                }
                proof {
                    assert(folder_listed(out@, moves_parent)) by {
                        if seen {
                            let w = choose|j: int|
                                #![trigger old_out[j]]
                                0 <= j && j < old_out.len() && old_out[j]@ == moves_parent;
                            assert(out@[w]@ == moves_parent);
                        } else {
                            assert(out@[out@.len() - 1]@ == moves_parent);
                        }
                    }
                    assert forall|i2: int, p2: Seq<char>|
                        0 <= i2 < i + 1 && #[trigger] parent_rel(
                            p2,
                            moves@[i2].1@,
                        ) implies folder_listed(out@, p2) by {
                        if i2 == i {
                            lemma_parent_unique(p2, moves_parent, moves@[i2].1@);
                        } else {
                            let w = choose|j: int|
                                #![trigger old_out[j]]
                                0 <= j && j < old_out.len() && old_out[j]@ == p2;
                            assert(out@[w]@ == p2);
                        }
                    }
                }
            },
            None => {
                proof {
                    assert forall|i2: int, p2: Seq<char>|
                        0 <= i2 < i + 1 && #[trigger] parent_rel(
                            p2,
                            moves@[i2].1@,
                        ) implies folder_listed(out@, p2) by {
                        if i2 == i {
                            let s0 = choose|j: int|
                                #![trigger moves@[i2].1@.take(j)]
                                is_last_slash(moves@[i2].1@, j) && p2 == moves@[i2].1@.take(j);
                            assert(moves@[i2].1@[s0] != '/');
                        }
                    }
                }
            },
        }
        i = i + 1;
    }
    out
}

} // verus!
