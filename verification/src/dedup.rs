//! Exact-duplicate detection. Files that the caller has already fingerprinted
//! are grouped by equal byte size and equal fingerprint together — two files
//! count as duplicates only when both agree — and empty files are never
//! grouped. Only groups of two or more files count, ranked by the space that
//! could be reclaimed, largest first, with ties kept in the order the keys
//! first appear.

use vstd::prelude::*;
use crate::records::{clone_file_info, clone_file_infos, same_file_info, same_file_seq, FileInfo};
use crate::fmt::{format_size, spec_format_size};
use crate::sorting::{pair_above, sort_pairs_desc};
use crate::text::str_eq;

verus! {

/// A file together with its content fingerprint.
#[derive(Debug, Clone)]
pub struct HashedFile {
    pub info: FileInfo,
    pub hash: String,
}

/// One set of files with the same size and fingerprint.
#[derive(Debug, Clone)]
pub struct DuplicateGroup {
    pub hash: String,
    pub size: u64,
    pub size_formatted: String,
    pub files: Vec<FileInfo>,
}

/// The records of `s` whose byte size is `sz` and whose fingerprint is
/// `h`, in input order.
pub open spec fn with_key(s: Seq<HashedFile>, h: Seq<char>, sz: u64) -> Seq<FileInfo>
    decreases s.len(),
{
    if s.len() == 0 {
        Seq::empty()
    } else {
        let rest = with_key(s.drop_last(), h, sz);
        if s.last().hash@ == h && s.last().info.size == sz {
            rest.push(s.last().info)
        } else {
            rest
        }
    }
}

/// `i` is the first position of `s` holding this size and fingerprint.
pub open spec fn is_first_occurrence(s: Seq<HashedFile>, h: Seq<char>, sz: u64, i: int) -> bool {
    &&& 0 <= i < s.len()
    &&& s[i].hash@ == h
    &&& s[i].info.size == sz
    &&& forall|j: int|
        0 <= j < i ==> !((#[trigger] s[j]).hash@ == h && s[j].info.size == sz)
}

/// The ranking key of a group of the given size and member count: the space
/// its duplicates waste, the shared size times all members but one, capped
/// at the largest representable value.
pub open spec fn spec_waste_key(size: u64, member_count: int) -> u64 {
    if size * (member_count - 1) > u64::MAX {
        u64::MAX
    } else {
        (size * (member_count - 1)) as u64
    }
}

/// Two groups agree field for field, comparing text by characters and the
/// member lists pointwise.
pub open spec fn same_group(a: DuplicateGroup, b: DuplicateGroup) -> bool {
    &&& a.hash@ == b.hash@
    &&& a.size == b.size
    &&& a.size_formatted@ == b.size_formatted@
    &&& same_file_seq(a.files@, b.files@)
}

/// A coherent group over the input `s`: its members are exactly the records
/// carrying its size and fingerprint — so every member's byte length is the
/// group's shared size — and the rendered size renders it.
pub open spec fn group_coherent(s: Seq<HashedFile>, g: DuplicateGroup) -> bool {
    &&& same_file_seq(g.files@, with_key(s, g.hash@, g.size))
    &&& g.files@.len() >= 1
    &&& forall|i: int| 0 <= i < g.files@.len() ==> (#[trigger] g.files@[i]).size == g.size
    &&& g.size_formatted@ == spec_format_size(g.size)
}

/// A well-formed duplicate group over the input `s`: coherent, with at
/// least two members of a size above zero.
pub open spec fn group_wf(s: Seq<HashedFile>, g: DuplicateGroup) -> bool {
    group_coherent(s, g) && g.files@.len() >= 2 && g.size > 0
}

/// Wasted space of a group.
pub open spec fn group_waste(g: DuplicateGroup) -> u64 {
    spec_waste_key(g.size, g.files@.len() as int)
}

/// Agreement of groups carries coherence over.
proof fn lemma_same_group_coherent(s: Seq<HashedFile>, a: DuplicateGroup, b: DuplicateGroup)
    requires
        group_coherent(s, b),
        same_group(a, b),
    ensures
        group_coherent(s, a),
{
    assert forall|i: int| 0 <= i < a.files@.len() implies same_file_info(
        #[trigger] a.files@[i],
        with_key(s, a.hash@, a.size)[i],
    ) by {
        assert(same_file_info(a.files@[i], b.files@[i]));
        assert(same_file_info(b.files@[i], with_key(s, b.hash@, b.size)[i]));
    }
    assert forall|i: int| 0 <= i < a.files@.len() implies (#[trigger] a.files@[i]).size
        == a.size by {
        assert(same_file_info(a.files@[i], b.files@[i]));
        assert(b.files@[i].size == b.size);
    }
}

/// Appending one record extends exactly the matching key's member list.
proof fn lemma_with_key_push(s: Seq<HashedFile>, x: HashedFile, h: Seq<char>, sz: u64)
    ensures
        with_key(s.push(x), h, sz) == if x.hash@ == h && x.info.size == sz {
            with_key(s, h, sz).push(x.info)
        } else {
            with_key(s, h, sz)
        },
{
    assert(s.push(x).drop_last() =~= s);
    assert(s.push(x).last() == x);
}

/// A key nobody carries has no members.
proof fn lemma_with_key_absent(s: Seq<HashedFile>, h: Seq<char>, sz: u64)
    requires
        forall|j: int| 0 <= j < s.len() ==> !((#[trigger] s[j]).hash@ == h && s[j].info.size == sz),
    ensures
        with_key(s, h, sz).len() == 0,
    decreases s.len(),
{
    if s.len() > 0 {
        assert(forall|j: int|
            0 <= j < s.drop_last().len() ==> !((#[trigger] s.drop_last()[j]).hash@ == h
                && s.drop_last()[j].info.size == sz));
        lemma_with_key_absent(s.drop_last(), h, sz);
    }
}

/// Some group carries the size and fingerprint of record `i`.
pub open spec fn has_group_for(files: Seq<HashedFile>, groups: Seq<DuplicateGroup>, i: int) -> bool {
    exists|k: int|
        #![trigger groups[k]]
        0 <= k && k < groups.len() && groups[k].hash@ == files[i].hash@ && groups[k].size
            == files[i].info.size
}

/// Every record of a size above zero has a group for its key.
pub open spec fn every_sized_record_grouped(
    files: Seq<HashedFile>,
    groups: Seq<DuplicateGroup>,
) -> bool {
    forall|i: int|
        0 <= i < files.len() && (#[trigger] files[i]).info.size > 0 ==> has_group_for(
            files,
            groups,
            i,
        )
}

/// Groups the fingerprinted records by size and fingerprint together, in
/// order of each key's first appearance, keeping every group; records of
/// size zero are left out. Every other record lands in exactly one group.
fn group_by_key(files: &Vec<HashedFile>) -> (r: (Vec<DuplicateGroup>, Ghost<Seq<int>>))
    ensures
        r.1@.len() == r.0@.len(),
        forall|k: int| 0 <= k < r.0@.len() ==> group_coherent(files@, #[trigger] r.0@[k]),
        forall|k: int| 0 <= k < r.0@.len() ==> (#[trigger] r.0@[k]).size > 0,
        forall|k1: int, k2: int|
            0 <= k1 < k2 < r.0@.len() ==> !((#[trigger] r.0@[k1]).hash@ == (
            #[trigger] r.0@[k2]).hash@ && r.0@[k1].size == r.0@[k2].size),
        every_sized_record_grouped(files@, r.0@),
        forall|k: int|
            0 <= k < r.0@.len() ==> is_first_occurrence(
                files@,
                (#[trigger] r.0@[k]).hash@,
                r.0@[k].size,
                r.1@[k],
            ),
        forall|k1: int, k2: int| 0 <= k1 < k2 < r.1@.len() ==> r.1@[k1] < r.1@[k2],
{
    let n = files.len();
    let mut groups: Vec<DuplicateGroup> = Vec::new();
    let ghost mut occs: Seq<int> = Seq::empty();
    let ghost mut grp_of: Seq<int> = Seq::empty();
    let mut i: usize = 0;
    while i < n
        invariant
            i <= n,
            n == files@.len(),
            occs.len() == groups@.len(),
            grp_of.len() == i,
            forall|k: int|
                0 <= k < groups@.len() ==> group_coherent(
                    files@.take(i as int),
                    #[trigger] groups@[k],
                ),
            forall|k: int| 0 <= k < groups@.len() ==> (#[trigger] groups@[k]).size > 0,
            forall|k1: int, k2: int|
                0 <= k1 < k2 < groups@.len() ==> !((#[trigger] groups@[k1]).hash@ == (
                #[trigger] groups@[k2]).hash@ && groups@[k1].size == groups@[k2].size),
            forall|i2: int|
                0 <= i2 < i && (#[trigger] files@[i2]).info.size > 0 ==> 0 <= grp_of[i2]
                    < groups@.len() && groups@[grp_of[i2]].hash@ == files@[i2].hash@ && groups@[grp_of[i2]].size == files@[i2].info.size,
            forall|k: int|
                0 <= k < groups@.len() ==> is_first_occurrence(
                    files@,
                    (#[trigger] groups@[k]).hash@,
                    groups@[k].size,
                    occs[k],
                ),
            forall|k1: int, k2: int| 0 <= k1 < k2 < occs.len() ==> occs[k1] < occs[k2],
            forall|k: int| 0 <= k < occs.len() ==> occs[k] < i,
        decreases n - i,
    {
        let ghost pref = files@.take(i as int);
        let ghost x = files@[i as int];
        let ghost old_groups_snapshot = groups@;
        let ghost mut witness_k: int = -1;
        proof {
            assert(files@.take(i + 1 as int) =~= pref.push(x));
        }
        let sz = files[i].info.size;
        if sz == 0 {
            proof {
                grp_of = grp_of.push(-1);
                assert forall|k2: int| 0 <= k2 < groups@.len() implies group_coherent(
                    files@.take(i + 1 as int),
                    #[trigger] groups@[k2],
                ) by {
                    lemma_with_key_push(pref, x, groups@[k2].hash@, groups@[k2].size);
                }
            }
            i = i + 1;
            continue;
        }
        let mut k: usize = 0;
        let m = groups.len();
        let mut found = false;
        while k < m && !found
            invariant
                k <= m,
                m == groups@.len(),
                i < n,
                n == files@.len(),
                sz == files@[i as int].info.size,
                !found ==> forall|k2: int|
                    0 <= k2 < k ==> !((#[trigger] groups@[k2]).hash@ == files@[i as int].hash@
                        && groups@[k2].size == sz),
                found ==> k < m && groups@[k as int].hash@ == files@[i as int].hash@ && groups@[k as int].size == sz,
            decreases m - k + (if found {
                0int
            } else {
                1int
            }),
        {
            if groups[k].size == sz && str_eq(groups[k].hash.as_str(), files[i].hash.as_str()) {
                found = true;
            } else {
                k = k + 1;
            }
        }
        if found {
            let member = clone_file_info(&files[i].info);
            let gm = &mut groups[k];
            gm.files.push(member);
            proof {
                witness_k = k as int;
                assert(forall|k2: int|
                    0 <= k2 < groups@.len() ==> (#[trigger] groups@[k2]).hash@
                        == old_groups_snapshot[k2].hash@ && groups@[k2].size
                        == old_groups_snapshot[k2].size);
                assert(groups@[witness_k].hash@ == x.hash@ && groups@[witness_k].size
                    == x.info.size);
                assert forall|k2: int| 0 <= k2 < groups@.len() implies group_coherent(
                    files@.take(i + 1 as int),
                    #[trigger] groups@[k2],
                ) by {
                    lemma_with_key_push(pref, x, old_groups_snapshot[k2].hash@, old_groups_snapshot[k2].size);
                    if k2 == k {
                        assert(groups@[k2].files@ == old_groups_snapshot[k2].files@.push(member));
                        assert(with_key(pref.push(x), old_groups_snapshot[k2].hash@, old_groups_snapshot[k2].size) == with_key(
                            pref,
                            old_groups_snapshot[k2].hash@,
                            old_groups_snapshot[k2].size,
                        ).push(x.info));
                        assert forall|i3: int| 0 <= i3 < groups@[k2].files@.len() implies
                            same_file_info(
                            #[trigger] groups@[k2].files@[i3],
                            with_key(files@.take(i + 1 as int), groups@[k2].hash@, groups@[k2].size)[i3],
                        ) by {
                            if i3 < old_groups_snapshot[k2].files@.len() {
                                assert(same_file_info(
                                    old_groups_snapshot[k2].files@[i3],
                                    with_key(pref, old_groups_snapshot[k2].hash@, old_groups_snapshot[k2].size)[i3],
                                ));
                            }
                        }
                        assert forall|i3: int| 0 <= i3 < groups@[k2].files@.len() implies (
                        #[trigger] groups@[k2].files@[i3]).size == groups@[k2].size by {
                            if i3 < old_groups_snapshot[k2].files@.len() {
                                assert(old_groups_snapshot[k2].files@[i3].size
                                    == old_groups_snapshot[k2].size);
                            }
                        }
                    } else {
                        assert(groups@[k2] == old_groups_snapshot[k2]);
                    }
                }
            }
        } else {
            let hash = files[i].hash.clone();
            let member = clone_file_info(&files[i].info);
            let size = member.size;
            let size_formatted = format_size(size);
            let mut members: Vec<FileInfo> = Vec::new();
            members.push(member);
            let g = DuplicateGroup { hash, size, size_formatted, files: members };
            let ghost old_groups = groups@;
            groups.push(g);
            proof {
                witness_k = groups@.len() - 1;
                assert(groups@[witness_k].hash@ == x.hash@ && groups@[witness_k].size
                    == x.info.size);
                occs = occs.push(i as int);
                assert forall|j: int| 0 <= j < i implies !((#[trigger] files@[j]).hash@ == x.hash@
                    && files@[j].info.size == x.info.size) by {
                    if files@[j].info.size > 0 {
                        assert(old_groups_snapshot[grp_of[j]].hash@ == files@[j].hash@
                            && old_groups_snapshot[grp_of[j]].size == files@[j].info.size);
                        assert(!(old_groups_snapshot[grp_of[j]].hash@ == x.hash@
                            && old_groups_snapshot[grp_of[j]].size == sz));
                    }
                }
                assert forall|j: int| 0 <= j < pref.len() implies !((#[trigger] pref[j]).hash@
                    == x.hash@ && pref[j].info.size == x.info.size) by {
                    assert(pref[j] == files@[j]);
                }
                lemma_with_key_absent(pref, x.hash@, x.info.size);
                assert(is_first_occurrence(files@, x.hash@, x.info.size, i as int));
                assert forall|k2: int| 0 <= k2 < groups@.len() implies group_coherent(
                    files@.take(i + 1 as int),
                    #[trigger] groups@[k2],
                ) by {
                    lemma_with_key_push(pref, x, groups@[k2].hash@, groups@[k2].size);
                    if k2 < old_groups.len() {
                        assert(groups@[k2] == old_groups[k2]);
                        assert(!(groups@[k2].hash@ == x.hash@ && groups@[k2].size == x.info.size));
                    } else {
                        assert(with_key(pref.push(x), x.hash@, x.info.size) == with_key(
                            pref,
                            x.hash@,
                            x.info.size,
                        ).push(x.info));
                        assert(groups@[k2].files@.len() == 1);
                        assert(same_file_info(groups@[k2].files@[0], x.info));
                    }
                }
            }
        }
        proof {
            grp_of = grp_of.push(witness_k);
            assert forall|i2: int|
                0 <= i2 < i + 1 && (#[trigger] files@[i2]).info.size > 0 implies 0 <= grp_of[i2]
                < groups@.len() && groups@[grp_of[i2]].hash@ == files@[i2].hash@ && groups@[grp_of[i2]].size == files@[i2].info.size by {
                if i2 < i {
                    assert(groups@[grp_of[i2]].hash@ == old_groups_snapshot[grp_of[i2]].hash@
                        && groups@[grp_of[i2]].size == old_groups_snapshot[grp_of[i2]].size);
                }
            }
        }
        i = i + 1;
    }
    proof {
        assert(files@.take(n as int) =~= files@);
        assert forall|i2: int|
            0 <= i2 < files@.len() && (#[trigger] files@[i2]).info.size > 0 implies has_group_for(
            files@,
            groups@,
            i2,
        ) by {
            assert(0 <= grp_of[i2] < groups@.len() && groups@[grp_of[i2]].hash@
                == files@[i2].hash@ && groups@[grp_of[i2]].size == files@[i2].info.size);
        }
        assert(every_sized_record_grouped(files@, groups@));
    }
    (groups, Ghost(occs))
}

/// An equal copy of one group.
fn clone_group(g: &DuplicateGroup) -> (r: DuplicateGroup)
    ensures
        same_group(r, *g),
{
    DuplicateGroup {
        hash: g.hash.clone(),
        size: g.size,
        size_formatted: g.size_formatted.clone(),
        files: clone_file_infos(&g.files),
    }
}

/// The ranking key of a group, capped at the largest representable value.
fn waste_key(size: u64, member_count: u64) -> (r: u64)
    requires
        member_count >= 1,
    ensures
        r == spec_waste_key(size, member_count as int),
{
    let less = member_count - 1;
    if less == 0 {
        proof {
            assert(size * 0 == 0) by (nonlinear_arith);
        }
        return 0;
    }
    if size > u64::MAX / less {
        proof {
            let s = size as int;
            let l = less as int;
            let m = u64::MAX as int;
            assert(m == l * (m / l) + m % l && 0 <= m % l < l) by (nonlinear_arith)
                requires
                    l > 0,
            ;
            assert(s * l > m) by (nonlinear_arith)
                requires
                    s >= m / l + 1,
                    l > 0,
                    m == l * (m / l) + m % l,
                    m % l < l,
            ;
        }
        u64::MAX
    } else {
        proof {
            let s = size as int;
            let l = less as int;
            let m = u64::MAX as int;
            assert(m == l * (m / l) + m % l && 0 <= m % l < l) by (nonlinear_arith)
                requires
                    l > 0,
            ;
            assert(s * l <= m) by (nonlinear_arith)
                requires
                    s <= m / l,
                    l > 0,
                    m == l * (m / l) + m % l,
                    0 <= m % l,
            ;
        }
        size * less
    }
}

/// Finds the exact duplicates among fingerprinted files. Each returned
/// group holds every input record of one size-and-fingerprint key; exactly
/// those keys of a size above zero carried by at least two records appear,
/// each once; groups are ranked by wasted space largest first; equal waste
/// keeps the order in which the keys first appear in the input.
pub fn find_duplicates(files: &Vec<HashedFile>) -> (r: Vec<DuplicateGroup>)
    ensures
        forall|k: int| 0 <= k < r@.len() ==> group_wf(files@, #[trigger] r@[k]),
        forall|k1: int, k2: int|
            0 <= k1 < k2 < r@.len() ==> !((#[trigger] r@[k1]).hash@ == (#[trigger] r@[k2]).hash@
                && r@[k1].size == r@[k2].size),
        forall|i: int|
            0 <= i < files@.len() && (#[trigger] files@[i]).info.size > 0 && with_key(
                files@,
                files@[i].hash@,
                files@[i].info.size,
            ).len() >= 2 ==> exists|k: int|
                #![trigger r@[k]]
                0 <= k && k < r@.len() && r@[k].hash@ == files@[i].hash@ && r@[k].size
                    == files@[i].info.size,
        forall|k1: int, k2: int|
            0 <= k1 < k2 < r@.len() ==> group_waste(#[trigger] r@[k1]) >= group_waste(
                #[trigger] r@[k2],
            ),
        forall|k1: int, k2: int|
            0 <= k1 < k2 < r@.len() && group_waste(#[trigger] r@[k1]) == group_waste(
                #[trigger] r@[k2],
            ) ==> exists|i1: int, i2: int|
                i1 < i2 && is_first_occurrence(files@, r@[k1].hash@, r@[k1].size, i1)
                    && is_first_occurrence(files@, r@[k2].hash@, r@[k2].size, i2),
{
    let (all_groups, ghost_occs) = group_by_key(files);
    let ghost occs = ghost_occs@;
    let mut kept: Vec<DuplicateGroup> = Vec::new();
    let ghost mut kept_src: Seq<int> = Seq::empty();
    let m = all_groups.len();
    let mut k: usize = 0;
    while k < m
        invariant
            k <= m,
            m == all_groups@.len(),
            kept_src.len() == kept@.len(),
            forall|k2: int|
                0 <= k2 < kept@.len() ==> 0 <= #[trigger] kept_src[k2] < m && same_group(
                    kept@[k2],
                    all_groups@[kept_src[k2]],
                ),
            forall|k2: int| 0 <= k2 < kept@.len() ==> (#[trigger] kept@[k2]).files@.len() >= 2,
            forall|a: int, b: int| 0 <= a < b < kept_src.len() ==> kept_src[a] < kept_src[b],
            forall|k2: int| 0 <= k2 < kept_src.len() ==> #[trigger] kept_src[k2] < k,
            forall|k2: int|
                0 <= k2 < k && (#[trigger] all_groups@[k2]).files@.len() >= 2 ==> exists|a: int|
                    0 <= a < kept_src.len() && kept_src[a] == k2,
        decreases m - k,
    {
        let ghost old_kept_src = kept_src;
        if all_groups[k].files.len() >= 2 {
            let g = clone_group(&all_groups[k]);
            proof {
                kept_src = kept_src.push(k as int);
            }
            kept.push(g);
        }
        proof {
            let ks = kept_src;
            assert forall|k2: int|
                0 <= k2 < k + 1 && (#[trigger] all_groups@[k2]).files@.len() >= 2 implies exists|
                a: int,
            | 0 <= a < ks.len() && ks[a] == k2 by {
                if k2 == k {
                    assert(ks[ks.len() - 1] == k2);
                } else {
                    let a = choose|a: int| 0 <= a < old_kept_src.len() && old_kept_src[a] == k2;
                    assert(ks[a] == k2);
                }
            }
        }
        k = k + 1;
    }
    let nk = kept.len();
    let mut pairs: Vec<(u64, usize)> = Vec::new();
    let mut k2: usize = 0;
    while k2 < nk
        invariant
            k2 <= nk,
            nk == kept@.len(),
            pairs@.len() == k2,
            forall|a: int| 0 <= a < kept@.len() ==> (#[trigger] kept@[a]).files@.len() >= 1,
            forall|a: int|
                0 <= a < k2 ==> (#[trigger] pairs@[a]) == (group_waste(kept@[a]), a as usize),
        decreases nk - k2,
    {
        let w = waste_key(kept[k2].size, kept[k2].files.len() as u64);
        pairs.push((w, k2));
        k2 = k2 + 1;
    }
    proof {
        assert forall|a: int, b: int| 0 <= a < b < pairs@.len() implies pairs@[a] != pairs@[b] by {
            assert(pairs@[a].1 == a as usize && pairs@[b].1 == b as usize);
        }
        assert(pairs@.no_duplicates());
    }
    let sorted = sort_pairs_desc(&pairs);
    proof {
        assert forall|a: int| 0 <= a < sorted@.len() implies (#[trigger] sorted@[a]).1 < nk
            && sorted@[a].0 == group_waste(kept@[sorted@[a].1 as int]) by {
            assert(pairs@.contains(sorted@[a]));
            let b = choose|b: int| 0 <= b < pairs@.len() && pairs@[b] == sorted@[a];
            assert(pairs@[b] == (group_waste(kept@[b]), b as usize));
        }
    }
    let mut out: Vec<DuplicateGroup> = Vec::new();
    let mut k3: usize = 0;
    while k3 < nk
        invariant
            k3 <= nk,
            nk == kept@.len(),
            nk == sorted@.len(),
            out@.len() == k3,
            forall|a: int| 0 <= a < sorted@.len() ==> (#[trigger] sorted@[a]).1 < nk,
            forall|a: int|
                0 <= a < k3 ==> same_group(#[trigger] out@[a], kept@[sorted@[a].1 as int]),
        decreases nk - k3,
    {
        let idx = sorted[k3].1;
        let g = clone_group(&kept[idx]);
        out.push(g);
        k3 = k3 + 1;
    }
    proof {
        broadcast use vstd::seq_lib::group_to_multiset_ensures;

        // Each output group is one of the kept groups, well formed over the
        // whole input.
        assert forall|a: int| 0 <= a < out@.len() implies group_wf(files@, #[trigger] out@[a]) by {
            let ka = sorted@[a].1 as int;
            lemma_same_group_coherent(files@, kept@[ka], all_groups@[kept_src[ka]]);
            lemma_same_group_coherent(files@, out@[a], kept@[ka]);
        }
        // Output keys are pairwise distinct.
        pairs@.lemma_multiset_has_no_duplicates();
        sorted@.lemma_multiset_has_no_duplicates_conv();
        assert forall|a: int, b: int| 0 <= a < b < out@.len() implies !((
        #[trigger] out@[a]).hash@ == (#[trigger] out@[b]).hash@ && out@[a].size
            == out@[b].size) by {
            assert(sorted@[a] != sorted@[b]);
            if sorted@[a].1 == sorted@[b].1 {
                assert(sorted@[a] == sorted@[b]);
            }
            let ga = kept_src[sorted@[a].1 as int];
            let gb = kept_src[sorted@[b].1 as int];
            assert(ga != gb);
            if ga < gb {
                assert(!(all_groups@[ga].hash@ == all_groups@[gb].hash@ && all_groups@[ga].size
                    == all_groups@[gb].size));
            } else {
                assert(!(all_groups@[gb].hash@ == all_groups@[ga].hash@ && all_groups@[gb].size
                    == all_groups@[ga].size));
            }
        }
        // Completeness: a key of positive size carried twice has a group.
        assert forall|i: int|
            0 <= i < files@.len() && (#[trigger] files@[i]).info.size > 0 && with_key(
                files@,
                files@[i].hash@,
                files@[i].info.size,
            ).len() >= 2 implies exists|k4: int|
            #![trigger out@[k4]]
            0 <= k4 && k4 < out@.len() && out@[k4].hash@ == files@[i].hash@ && out@[k4].size
                == files@[i].info.size by {
            assert(has_group_for(files@, all_groups@, i));
            let k0 = choose|k0: int|
                #![trigger all_groups@[k0]]
                0 <= k0 && k0 < all_groups@.len() && all_groups@[k0].hash@ == files@[i].hash@
                    && all_groups@[k0].size == files@[i].info.size;
            assert(all_groups@[k0].files@.len() >= 2);
            let a = choose|a: int| 0 <= a < kept_src.len() && kept_src[a] == k0;
            assert(kept@[a].hash@ == files@[i].hash@ && kept@[a].size == files@[i].info.size);
            assert(pairs@[a] == (group_waste(kept@[a]), a as usize));
            assert(pairs@.contains(pairs@[a]));
            assert(pairs@.to_multiset() == sorted@.to_multiset());
            assert(sorted@.to_multiset().contains(pairs@[a]));
            assert(sorted@.contains(pairs@[a]));
            let c = choose|c: int| 0 <= c < sorted@.len() && sorted@[c] == pairs@[a];
            assert(same_group(out@[c], kept@[sorted@[c].1 as int]));
            assert(out@[c].hash@ == files@[i].hash@ && out@[c].size == files@[i].info.size);
        }
        // Ranking: descending waste.
        assert forall|a: int, b: int| 0 <= a < b < out@.len() implies group_waste(
            #[trigger] out@[a],
        ) >= group_waste(#[trigger] out@[b]) by {
            assert(pair_above(sorted@[a], sorted@[b]));
            assert(group_waste(out@[a]) == sorted@[a].0);
            assert(group_waste(out@[b]) == sorted@[b].0);
        }
        // Ties keep the order in which the keys first appear.
        assert forall|a: int, b: int|
            0 <= a < b < out@.len() && group_waste(#[trigger] out@[a]) == group_waste(
                #[trigger] out@[b],
            ) implies exists|i1: int, i2: int|
            i1 < i2 && is_first_occurrence(files@, out@[a].hash@, out@[a].size, i1)
                && is_first_occurrence(files@, out@[b].hash@, out@[b].size, i2) by {
            assert(pair_above(sorted@[a], sorted@[b]));
            assert(group_waste(out@[a]) == sorted@[a].0);
            assert(group_waste(out@[b]) == sorted@[b].0);
            assert(sorted@[a] != sorted@[b]);
            if sorted@[a].1 == sorted@[b].1 {
                assert(sorted@[a] == sorted@[b]);
            }
            assert(sorted@[a].1 < sorted@[b].1);
            let ga = kept_src[sorted@[a].1 as int];
            let gb = kept_src[sorted@[b].1 as int];
            assert(ga < gb);
            assert(is_first_occurrence(files@, all_groups@[ga].hash@, all_groups@[ga].size, occs[ga])
                && is_first_occurrence(files@, all_groups@[gb].hash@, all_groups@[gb].size, occs[gb])
                && occs[ga] < occs[gb]);
        }
    }
    out
}

} // verus!
