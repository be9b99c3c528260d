//! The folder tree view: one node per directory down to a chosen depth,
//! each aggregating the sizes and file counts of what it shows, children
//! ordered largest first.

use vstd::prelude::*;
use crate::fmt::{format_size, spec_format_size};
use crate::sorting::{pair_above, sort_pairs_desc};

verus! {

/// One directory as the walk found it: its own files' sizes and its
/// subdirectories.
#[derive(Debug)]
pub struct RawFolder {
    pub path: String,
    pub name: String,
    pub file_sizes: Vec<u64>,
    pub subfolders: Vec<RawFolder>,
}

/// One node of the rendered tree.
#[derive(Debug)]
pub struct FolderTreeNode {
    pub path: String,
    pub name: String,
    pub size: u64,
    pub size_formatted: String,
    pub file_count: usize,
    pub children: Vec<FolderTreeNode>,
}

/// The byte total of one directory's own files.
pub open spec fn own_size(sizes: Seq<u64>) -> int
    decreases sizes.len(),
{
    if sizes.len() == 0 {
        0
    } else {
        own_size(sizes.drop_last()) + sizes.last()
    }
}

/// The aggregate size of a node showing `depth` further levels: its own
/// files plus the aggregates of the children it shows.
pub open spec fn node_size(r: RawFolder, depth: int) -> int
    decreases depth, 1int, 0int,
{
    own_size(r.file_sizes@) + if depth <= 0 {
        0int
    } else {
        subs_size(r.subfolders@, depth - 1)
    }
}

/// The aggregate sizes of a list of shown subdirectories.
pub open spec fn subs_size(subs: Seq<RawFolder>, depth: int) -> int
    decreases depth, 2int, subs.len(),
{
    if subs.len() == 0 || depth < 0 {
        0
    } else {
        subs_size(subs.drop_last(), depth) + node_size(subs.last(), depth)
    }
}

/// The aggregate file count of a node showing `depth` further levels.
pub open spec fn node_count(r: RawFolder, depth: int) -> int
    decreases depth, 1int, 0int,
{
    r.file_sizes@.len() + if depth <= 0 {
        0int
    } else {
        subs_count(r.subfolders@, depth - 1)
    }
}

/// The aggregate file counts of a list of shown subdirectories.
pub open spec fn subs_count(subs: Seq<RawFolder>, depth: int) -> int
    decreases depth, 2int, subs.len(),
{
    if subs.len() == 0 || depth < 0 {
        0
    } else {
        subs_count(subs.drop_last(), depth) + node_count(subs.last(), depth)
    }
}

/// Sizes and counts never aggregate to less than nothing.
proof fn lemma_node_nonneg(r: RawFolder, depth: int)
    ensures
        node_size(r, depth) >= 0,
        node_count(r, depth) >= 0,
    decreases depth, 1int, 0int,
{
    lemma_own_nonneg(r.file_sizes@);
    if depth > 0 {
        lemma_subs_nonneg(r.subfolders@, depth - 1);
    }
}

/// A list of subdirectories aggregates to no less than nothing.
proof fn lemma_subs_nonneg(subs: Seq<RawFolder>, depth: int)
    ensures
        subs_size(subs, depth) >= 0,
        subs_count(subs, depth) >= 0,
    decreases depth, 2int, subs.len(),
{
    if subs.len() > 0 && depth >= 0 {
        lemma_subs_nonneg(subs.drop_last(), depth);
        lemma_node_nonneg(subs.last(), depth);
    }
}

/// A directory's own files amount to no less than nothing.
proof fn lemma_own_nonneg(sizes: Seq<u64>)
    ensures
        own_size(sizes) >= 0,
    decreases sizes.len(),
{
    if sizes.len() > 0 {
        lemma_own_nonneg(sizes.drop_last());
    }
}

/// A prefix of the shown subdirectories aggregates to no more than all of
/// them.
proof fn lemma_subs_prefix(subs: Seq<RawFolder>, depth: int, i: int)
    requires
        0 <= i <= subs.len(),
        depth >= 0,
    ensures
        subs_size(subs.take(i), depth) + subs_size(subs.skip(i), depth) == subs_size(subs, depth),
        subs_count(subs.take(i), depth) + subs_count(subs.skip(i), depth) == subs_count(
            subs,
            depth,
        ),
    decreases subs.len() - i,
{
    if i == subs.len() {
        assert(subs.take(i) =~= subs);
        assert(subs.skip(i).len() == 0);
    } else {
        lemma_subs_prefix(subs, depth, i + 1);
        assert(subs.take(i + 1).drop_last() =~= subs.take(i));
        assert(subs.take(i + 1).last() == subs[i]);
        lemma_skip_unroll(subs, depth, i);
    }
}

/// Splitting off the first of the remaining subdirectories.
proof fn lemma_skip_unroll(subs: Seq<RawFolder>, depth: int, i: int)
    requires
        0 <= i < subs.len(),
        depth >= 0,
    ensures
        subs_size(subs.skip(i), depth) == node_size(subs[i], depth) + subs_size(
            subs.skip(i + 1),
            depth,
        ),
        subs_count(subs.skip(i), depth) == node_count(subs[i], depth) + subs_count(
            subs.skip(i + 1),
            depth,
        ),
    decreases subs.len(),
{
    let rest = subs.skip(i);
    if rest.len() == 1 {
        assert(rest.drop_last().len() == 0);
        assert(rest.last() == subs[i]);
        assert(subs.skip(i + 1).len() == 0);
        assert(subs_size(rest, depth) == subs_size(rest.drop_last(), depth) + node_size(
            rest.last(),
            depth,
        ));
        assert(subs_size(rest.drop_last(), depth) == 0);
        assert(subs_size(subs.skip(i + 1), depth) == 0);
        assert(subs_count(rest, depth) == subs_count(rest.drop_last(), depth) + node_count(
            rest.last(),
            depth,
        ));
        assert(subs_count(rest.drop_last(), depth) == 0);
        assert(subs_count(subs.skip(i + 1), depth) == 0);
    } else {
        let dl = subs.drop_last();
        lemma_skip_unroll(dl, depth, i);
        lemma_drop_last_skip(subs, i);
        lemma_drop_last_skip(subs, i + 1);
        assert(rest.drop_last() =~= dl.skip(i));
        assert(rest.last() == subs.last());
        assert(subs.skip(i + 1).drop_last() =~= dl.skip(i + 1));
        assert(subs.skip(i + 1).last() == subs.last());
        assert(dl[i] == subs[i]);
        assert(subs_size(rest, depth) == subs_size(dl.skip(i), depth) + node_size(
            subs.last(),
            depth,
        ));
        assert(subs_size(subs.skip(i + 1), depth) == subs_size(dl.skip(i + 1), depth)
            + node_size(subs.last(), depth));
        assert(subs_count(rest, depth) == subs_count(dl.skip(i), depth) + node_count(
            subs.last(),
            depth,
        ));
        assert(subs_count(subs.skip(i + 1), depth) == subs_count(dl.skip(i + 1), depth)
            + node_count(subs.last(), depth));
    }
}

/// Dropping the last of a suffix is the suffix of the shortened sequence.
proof fn lemma_drop_last_skip(subs: Seq<RawFolder>, i: int)
    requires
        0 <= i < subs.len(),
    ensures
        subs.skip(i).drop_last() =~= subs.drop_last().skip(i),
{
}

/// Renders the tree of one walked directory, showing `max_depth` levels of
/// children below it. The node's size and file count aggregate its own
/// files and everything its shown children aggregate, and children come
/// largest first.
pub fn get_folder_tree(raw: &RawFolder, max_depth: u32) -> (r: FolderTreeNode)
    requires
        node_size(*raw, max_depth as int) <= u64::MAX,
        node_count(*raw, max_depth as int) <= usize::MAX,
    ensures
        r.path@ == raw.path@,
        r.name@ == raw.name@,
        r.size == node_size(*raw, max_depth as int),
        r.size_formatted@ == spec_format_size(r.size),
        r.file_count == node_count(*raw, max_depth as int),
        r.children@.len() == if max_depth == 0 {
            0int
        } else {
            raw.subfolders@.len() as int
        },
        forall|k1: int, k2: int|
            0 <= k1 < k2 < r.children@.len() ==> (#[trigger] r.children@[k1]).size >= (
            #[trigger] r.children@[k2]).size,
        max_depth > 0 ==> forall|k: int|
            0 <= k < r.children@.len() ==> exists|j: int|
                #![trigger raw.subfolders@[j]]
                0 <= j && j < raw.subfolders@.len() && child_renders(
                    #[trigger] r.children@[k],
                    raw.subfolders@[j],
                    (max_depth - 1) as u32,
                ),
    decreases max_depth, raw.subfolders@.len(),
{
    proof {
        lemma_node_nonneg(*raw, max_depth as int);
        lemma_own_nonneg(raw.file_sizes@);
        if max_depth > 0 {
            lemma_subs_nonneg(raw.subfolders@, max_depth - 1);
        }
    }
    // Sum this directory's own files.
    let fsn = raw.file_sizes.len();
    let mut own: u64 = 0;
    let mut i: usize = 0;
    while i < fsn
        invariant
            i <= fsn,
            fsn == raw.file_sizes@.len(),
            own == own_size(raw.file_sizes@.take(i as int)),
            own_size(raw.file_sizes@.take(i as int)) <= own_size(raw.file_sizes@),
            own_size(raw.file_sizes@) <= node_size(*raw, max_depth as int),
            node_size(*raw, max_depth as int) <= u64::MAX,
        decreases fsn - i,
    {
        proof {
            assert(raw.file_sizes@.take(i + 1 as int).drop_last() =~= raw.file_sizes@.take(
                i as int,
            ));
            assert(raw.file_sizes@.take(i + 1 as int).last() == raw.file_sizes@[i as int]);
            lemma_own_prefix(raw.file_sizes@, i + 1 as int);
        }
        own = own + raw.file_sizes[i];
        i = i + 1;
    }
    proof {
        assert(raw.file_sizes@.take(fsn as int) =~= raw.file_sizes@);
    }
    let mut size: u64 = own;
    let mut file_count: usize = raw.file_sizes.len();
    let mut children: Vec<FolderTreeNode> = Vec::new();
    if max_depth > 0 {
        let sn = raw.subfolders.len();
        let ghost d = max_depth as int - 1;
        let mut j: usize = 0;
        while j < sn
            invariant
                j <= sn,
                sn == raw.subfolders@.len(),
                max_depth > 0,
                d == max_depth as int - 1,
                node_size(*raw, max_depth as int) <= u64::MAX,
                node_count(*raw, max_depth as int) <= usize::MAX,
                size == own_size(raw.file_sizes@) + subs_size(raw.subfolders@.take(j as int), d),
                file_count == raw.file_sizes@.len() + subs_count(
                    raw.subfolders@.take(j as int),
                    d,
                ),
                children@.len() == j,
                forall|k: int|
                    0 <= k < j ==> child_renders(
                        #[trigger] children@[k],
                        raw.subfolders@[k],
                        (max_depth - 1) as u32,
                    ),
            decreases sn - j,
        {
            proof {
                lemma_subs_prefix(raw.subfolders@, d, j as int);
                lemma_skip_unroll(raw.subfolders@, d, j as int);
                lemma_subs_nonneg(raw.subfolders@.take(j as int), d);
                lemma_subs_nonneg(raw.subfolders@.skip(j + 1), d);
                lemma_node_nonneg(raw.subfolders@[j as int], d);
                lemma_own_nonneg(raw.file_sizes@);
                assert(raw.subfolders@.take(j + 1 as int).drop_last() =~= raw.subfolders@.take(
                    j as int,
                ));
                assert(raw.subfolders@.take(j + 1 as int).last() == raw.subfolders@[j as int]);
            }
            let child = get_folder_tree(&raw.subfolders[j], max_depth - 1);
            size = size + child.size;
            file_count = file_count + child.file_count;
            children.push(child);
            j = j + 1;
        }
        proof {
            assert(raw.subfolders@.take(sn as int) =~= raw.subfolders@);
        }
        // Order the children largest first.
        let cn = children.len();
        let mut pairs: Vec<(u64, usize)> = Vec::new();
        let mut k: usize = 0;
        while k < cn
            invariant
                k <= cn,
                cn == children@.len(),
                pairs@.len() == k,
                forall|a: int|
                    0 <= a < k ==> (#[trigger] pairs@[a]) == (children@[a].size, a as usize),
            decreases cn - k,
        {
            pairs.push((children[k].size, k));
            k = k + 1;
        }
        let sorted = sort_pairs_desc(&pairs);
        proof {
            assert forall|a: int| 0 <= a < sorted@.len() implies (#[trigger] sorted@[a]).1 < cn
                && sorted@[a].0 == children@[sorted@[a].1 as int].size by {
                assert(pairs@.contains(sorted@[a]));
                let b = choose|b: int| 0 <= b < pairs@.len() && pairs@[b] == sorted@[a];
                assert(pairs@[b] == (children@[b].size, b as usize));
            }
        }
        let mut ordered: Vec<FolderTreeNode> = Vec::new();
        let mut a: usize = 0;
        while a < cn
            invariant
                a <= cn,
                cn == children@.len(),
                cn == sorted@.len(),
                sn == raw.subfolders@.len(),
                cn == sn,
                max_depth > 0,
                ordered@.len() == a,
                forall|k2: int| 0 <= k2 < sorted@.len() ==> (#[trigger] sorted@[k2]).1 < cn,
                forall|k2: int|
                    0 <= k2 < sorted@.len() ==> (#[trigger] sorted@[k2]).0 == children@[sorted@[
                        k2
                    ].1 as int].size,
                forall|k2: int|
                    0 <= k2 < cn ==> child_renders(
                        #[trigger] children@[k2],
                        raw.subfolders@[k2],
                        (max_depth - 1) as u32,
                    ),
                forall|k2: int|
                    0 <= k2 < a ==> same_node(#[trigger] ordered@[k2], children@[sorted@[k2].1 as int]),
            decreases cn - a,
        {
            let idx = sorted[a].1;
            ordered.push(clone_node(&children[idx]));
            a = a + 1;
        }
        proof {
            assert forall|k1: int, k2: int| 0 <= k1 < k2 < ordered@.len() implies (
            #[trigger] ordered@[k1]).size >= (#[trigger] ordered@[k2]).size by {
                assert(pair_above(sorted@[k1], sorted@[k2]));
            }
            assert forall|k2: int| 0 <= k2 < ordered@.len() implies exists|j2: int|
                #![trigger raw.subfolders@[j2]]
                0 <= j2 && j2 < raw.subfolders@.len() && child_renders(
                    #[trigger] ordered@[k2],
                    raw.subfolders@[j2],
                    (max_depth - 1) as u32,
                ) by {
                let b = sorted@[k2].1 as int;
                assert(child_renders(children@[b], raw.subfolders@[b], (max_depth - 1) as u32));
            }
        }
        children = ordered;
    }
    let size_formatted = format_size(size);
    FolderTreeNode {
        path: raw.path.clone(),
        name: raw.name.clone(),
        size,
        size_formatted,
        file_count,
        children,
    }
}

/// The node renders this directory at this remaining depth: name, path and
/// exact aggregates.
pub open spec fn child_renders(n: FolderTreeNode, r: RawFolder, depth: u32) -> bool {
    &&& n.path@ == r.path@
    &&& n.name@ == r.name@
    &&& n.size == node_size(r, depth as int)
    &&& n.file_count == node_count(r, depth as int)
    &&& n.size_formatted@ == spec_format_size(n.size)
}

/// A prefix of the files amounts to no more than all of them.
proof fn lemma_own_prefix(sizes: Seq<u64>, i: int)
    requires
        0 <= i <= sizes.len(),
    ensures
        own_size(sizes.take(i)) <= own_size(sizes),
    decreases sizes.len() - i,
{
    if i == sizes.len() {
        assert(sizes.take(i) =~= sizes);
    } else {
        lemma_own_prefix(sizes, i + 1);
        assert(sizes.take(i + 1).drop_last() =~= sizes.take(i));
    }
}

/// Two nodes agree in everything the tree contract speaks of.
pub open spec fn same_node(a: FolderTreeNode, b: FolderTreeNode) -> bool {
    &&& a.path@ == b.path@
    &&& a.name@ == b.name@
    &&& a.size == b.size
    &&& a.size_formatted@ == b.size_formatted@
    &&& a.file_count == b.file_count
}

/// A copy of one rendered node, children and all.
fn clone_node(n: &FolderTreeNode) -> (r: FolderTreeNode)
    ensures
        same_node(r, *n),
    decreases *n,
{
    let cn = n.children.len();
    let mut children: Vec<FolderTreeNode> = Vec::new();
    let mut k: usize = 0;
    while k < cn
        invariant
            k <= cn,
            cn == n.children@.len(),
            children@.len() == k,
            forall|j: int| 0 <= j < k ==> same_node(#[trigger] children@[j], n.children@[j]),
        decreases cn - k,
    {
        children.push(clone_node(&n.children[k]));
        k = k + 1;
    }
    FolderTreeNode {
        path: n.path.clone(),
        name: n.name.clone(),
        size: n.size,
        size_formatted: n.size_formatted.clone(),
        file_count: n.file_count,
        children,
    }
}

} // verus!
