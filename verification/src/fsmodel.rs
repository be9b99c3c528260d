//! An abstract model of the file operations the executor performs: the file
//! system as a map from paths to file contents. The laws here pin down what
//! the move fallback and the undo of a move leave behind; the surrounding
//! application performs the real operations in exactly these shapes.

use vstd::prelude::*;

verus! {

/// Renaming moves the content from one path to another.
pub open spec fn fs_rename(fs: Map<Seq<char>, Seq<u8>>, from: Seq<char>, to: Seq<char>) -> Map<
    Seq<char>,
    Seq<u8>,
> {
    fs.remove(from).insert(to, fs[from])
}

/// Copying duplicates the content at a second path.
pub open spec fn fs_copy(fs: Map<Seq<char>, Seq<u8>>, from: Seq<char>, to: Seq<char>) -> Map<
    Seq<char>,
    Seq<u8>,
> {
    fs.insert(to, fs[from])
}

/// Removing deletes one path.
pub open spec fn fs_remove(fs: Map<Seq<char>, Seq<u8>>, p: Seq<char>) -> Map<Seq<char>, Seq<u8>> {
    fs.remove(p)
}

/// What a move with the cross-device fallback leaves behind: the plain
/// rename when it works; else a copy followed by removing the source when
/// the copy works; else nothing changes.
pub open spec fn fs_move_with_fallback(
    fs: Map<Seq<char>, Seq<u8>>,
    from: Seq<char>,
    to: Seq<char>,
    rename_ok: bool,
    copy_ok: bool,
) -> Map<Seq<char>, Seq<u8>> {
    if rename_ok {
        fs_rename(fs, from, to)
    } else if copy_ok {
        fs_remove(fs_copy(fs, from, to), from)
    } else {
        fs
    }
}

/// The cross-device fallback is safe: whether the rename worked or the
/// copy-then-delete path ran, exactly one copy of the content sits at the
/// destination and none at the source; and when both ways failed, the file
/// system is untouched and the original still sits where it was.
pub proof fn lemma_move_fallback_safe(
    fs: Map<Seq<char>, Seq<u8>>,
    from: Seq<char>,
    to: Seq<char>,
    rename_ok: bool,
    copy_ok: bool,
)
    requires
        fs.dom().contains(from),
        from != to,
    ensures
        rename_ok || copy_ok ==> {
            let r = fs_move_with_fallback(fs, from, to, rename_ok, copy_ok);
            &&& r.dom().contains(to)
            &&& !r.dom().contains(from)
            &&& r[to] == fs[from]
            &&& forall|p: Seq<char>|
                p != from && p != to ==> (r.dom().contains(p) <==> fs.dom().contains(p))
            &&& forall|p: Seq<char>|
                p != from && p != to && fs.dom().contains(p) ==> r[p] == fs[p]
        },
        !rename_ok && !copy_ok ==> fs_move_with_fallback(fs, from, to, rename_ok, copy_ok) == fs,
{
}

/// Both fallback shapes land in the same place: when the rename would have
/// worked and the copy-then-delete ran instead, the resulting file systems
/// are equal.
pub proof fn lemma_fallback_agrees_with_rename(
    fs: Map<Seq<char>, Seq<u8>>,
    from: Seq<char>,
    to: Seq<char>,
)
    requires
        fs.dom().contains(from),
        from != to,
    ensures
        fs_remove(fs_copy(fs, from, to), from) == fs_rename(fs, from, to),
{
    assert(fs_remove(fs_copy(fs, from, to), from) =~= fs_rename(fs, from, to));
}

/// Undoing a move restores the original file system: moving the file back
/// from the destination returns every path to its prior state, provided
/// the destination was previously free.
pub proof fn lemma_undo_move_restores(fs: Map<Seq<char>, Seq<u8>>, from: Seq<char>, to: Seq<char>)
    requires
        fs.dom().contains(from),
        !fs.dom().contains(to),
        from != to,
    ensures
        fs_rename(fs_rename(fs, from, to), to, from) == fs,
{
    assert(fs_rename(fs_rename(fs, from, to), to, from) =~= fs);
}

/// A batch of moves undone in any order restores each file: undoing one
/// recorded pair neither touches nor depends on the paths of a disjoint
/// pair.
pub proof fn lemma_undo_batch_pair_independent(
    fs: Map<Seq<char>, Seq<u8>>,
    from1: Seq<char>,
    to1: Seq<char>,
    from2: Seq<char>,
    to2: Seq<char>,
)
    requires
        fs.dom().contains(to1),
        fs.dom().contains(to2),
        from1 != from2 && from1 != to2 && to1 != from2 && to1 != to2,
        from1 != to1,
        from2 != to2,
    ensures
        fs_rename(fs_rename(fs, to1, from1), to2, from2) == fs_rename(
            fs_rename(fs, to2, from2),
            to1,
            from1,
        ),
{
    assert(fs_rename(fs_rename(fs, to1, from1), to2, from2) =~= fs_rename(
        fs_rename(fs, to2, from2),
        to1,
        from1,
    ));
}

} // verus!
