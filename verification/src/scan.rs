//! Ordering a directory listing for display: hidden entries are dropped
//! unless asked for, and what remains is sorted by name without regard to
//! ASCII case.

use vstd::prelude::*;
use crate::records::{clone_file_info, distinct_within, same_file_info, FileInfo};
use crate::sorting::{sort_str_pairs, str_pair_above, str_pair_view};
use crate::text::{ascii_lower, ascii_lowercase, lex_cmp};

verus! {

/// The entries a listing shows: all of them, or only the unhidden ones.
pub open spec fn visible_files(files: Seq<FileInfo>, include_hidden: bool) -> Seq<FileInfo>
    decreases files.len(),
{
    if files.len() == 0 {
        Seq::empty()
    } else {
        let rest = visible_files(files.drop_last(), include_hidden);
        if include_hidden || !files.last().is_hidden {
            rest.push(files.last())
        } else {
            rest
        }
    }
}

/// The entry copies one of the visible entries.
pub open spec fn copied_visible(files: Seq<FileInfo>, include_hidden: bool, e: FileInfo) -> bool {
    exists|k: int|
        #![trigger visible_files(files, include_hidden)[k]]
        0 <= k && k < visible_files(files, include_hidden).len() && same_file_info(
            e,
            visible_files(files, include_hidden)[k],
        )
}

/// The listing arranges the visible files without repeating or dropping
/// any: some distinct selection of all their positions produces it.
pub open spec fn listing_arrangement(
    r: Seq<FileInfo>,
    files: Seq<FileInfo>,
    include_hidden: bool,
) -> bool {
    exists|idxs: Seq<int>|
        #![trigger distinct_within(idxs, visible_files(files, include_hidden).len() as int)]
        distinct_within(idxs, visible_files(files, include_hidden).len() as int) && idxs.len()
            == r.len() && forall|k: int|
            0 <= k < r.len() ==> same_file_info(
                #[trigger] r[k],
                visible_files(files, include_hidden)[idxs[k]],
            )
}

/// Arranges a folder's records for listing: hidden entries are dropped
/// unless asked for, and the rest is ordered by name, folding ASCII case;
/// entries whose folded names compare level keep their input order.
pub fn scan_listing(files: &Vec<FileInfo>, include_hidden: bool) -> (r: Vec<FileInfo>)
    ensures
        r@.len() == visible_files(files@, include_hidden).len(),
        forall|k: int| 0 <= k < r@.len() ==> copied_visible(files@, include_hidden, #[trigger] r@[k]),
        forall|k1: int, k2: int|
            0 <= k1 < k2 < r@.len() ==> lex_cmp(
                ascii_lower((#[trigger] r@[k1]).name@),
                ascii_lower((#[trigger] r@[k2]).name@),
            ) <= 0,
        listing_arrangement(r@, files@, include_hidden),
{
    let n = files.len();
    let mut kept: Vec<FileInfo> = Vec::new();
    let mut i: usize = 0;
    while i < n
        invariant
            i <= n,
            n == files@.len(),
            kept@.len() == visible_files(files@.take(i as int), include_hidden).len(),
            forall|k: int|
                0 <= k < kept@.len() ==> same_file_info(
                    #[trigger] kept@[k],
                    visible_files(files@.take(i as int), include_hidden)[k],
                ),
        decreases n - i,
    {
        proof {
            assert(files@.take(i + 1 as int).drop_last() =~= files@.take(i as int));
            assert(files@.take(i + 1 as int).last() == files@[i as int]);
        }
        if include_hidden || !files[i].is_hidden {
            kept.push(clone_file_info(&files[i]));
        }
        i = i + 1;
    }
    proof {
        assert(files@.take(n as int) =~= files@);
    }
    let kn = kept.len();
    let mut pairs: Vec<(String, usize)> = Vec::new();
    let mut k: usize = 0;
    while k < kn
        invariant
            k <= kn,
            kn == kept@.len(),
            pairs@.len() == k,
            forall|a: int|
                0 <= a < k ==> (#[trigger] pairs@[a]).0@ == ascii_lower(kept@[a].name@) && pairs@[a].1 == a,
        decreases kn - k,
    {
        pairs.push((ascii_lowercase(kept[k].name.as_str()), k));
        k = k + 1;
    }
    let ghost pairs_snap = pairs@;
    let sorted = sort_str_pairs(pairs, false);
    let ghost vw = pairs_snap.map_values(|p: (String, usize)| str_pair_view(p));
    proof {
        assert forall|a: int| 0 <= a < sorted@.len() implies (#[trigger] sorted@[a]).1 < kn
            && sorted@[a].0@ == ascii_lower(kept@[sorted@[a].1 as int].name@) by {
            assert(vw.contains(str_pair_view(sorted@[a])));
            let b = choose|b: int| 0 <= b < vw.len() && vw[b] == str_pair_view(sorted@[a]);
            assert(vw[b] == (pairs_snap[b].0@, pairs_snap[b].1));
        }
        assert forall|a: int, b: int| 0 <= a < b < vw.len() implies vw[a] != vw[b] by {
            assert(vw[a].1 == a as usize && vw[b].1 == b as usize);
        }
        assert(vw.no_duplicates());
    }
    let mut out: Vec<FileInfo> = Vec::new();
    let mut a: usize = 0;
    while a < kn
        invariant
            a <= kn,
            kn == kept@.len(),
            kn == sorted@.len(),
            n == files@.len(),
            out@.len() == a,
            forall|k2: int| 0 <= k2 < sorted@.len() ==> (#[trigger] sorted@[k2]).1 < kn,
            forall|k2: int|
                0 <= k2 < sorted@.len() ==> (#[trigger] sorted@[k2]).0@ == ascii_lower(
                    kept@[sorted@[k2].1 as int].name@,
                ),
            forall|k2: int|
                0 <= k2 < kept@.len() ==> same_file_info(
                    #[trigger] kept@[k2],
                    visible_files(files@, include_hidden)[k2],
                ),
            forall|k2: int|
                0 <= k2 < a ==> same_file_info(#[trigger] out@[k2], kept@[sorted@[k2].1 as int]),
        decreases kn - a,
    {
        let idx = sorted[a].1;
        out.push(clone_file_info(&kept[idx]));
        a = a + 1;
    }
    proof {
        assert forall|k2: int| 0 <= k2 < out@.len() implies copied_visible(
            files@,
            include_hidden,
            #[trigger] out@[k2],
        ) by {
            let b = sorted@[k2].1 as int;
            assert(same_file_info(kept@[b], visible_files(files@, include_hidden)[b]));
            assert(same_file_info(out@[k2], visible_files(files@, include_hidden)[b]));
        }
        assert forall|k1: int, k2: int| 0 <= k1 < k2 < out@.len() implies lex_cmp(
            ascii_lower((#[trigger] out@[k1]).name@),
            ascii_lower((#[trigger] out@[k2]).name@),
        ) <= 0 by {
            assert(str_pair_above(false, str_pair_view(sorted@[k1]), str_pair_view(sorted@[k2])));
            assert(same_file_info(out@[k1], kept@[sorted@[k1].1 as int]));
            assert(same_file_info(out@[k2], kept@[sorted@[k2].1 as int]));
        }
        // The arrangement repeats no visible file: positions are distinct.
        let sm = sorted@.map_values(|p: (String, usize)| str_pair_view(p));
        let idxs = Seq::new(sorted@.len(), |k: int| sorted@[k].1 as int);
        assert forall|k1: int, k2: int| 0 <= k1 < k2 < idxs.len() implies idxs[k1] != idxs[k2] by {
            assert(sm[k1] == str_pair_view(sorted@[k1]));
            assert(sm[k2] == str_pair_view(sorted@[k2]));
            assert(sm[k1] != sm[k2]);
            if sorted@[k1].1 == sorted@[k2].1 {
                assert(sm[k1].0 == ascii_lower(kept@[sorted@[k1].1 as int].name@));
                assert(sm[k2].0 == ascii_lower(kept@[sorted@[k2].1 as int].name@));
                assert(sm[k1] == sm[k2]);
            }
        }
        assert(distinct_within(idxs, visible_files(files@, include_hidden).len() as int));
        assert forall|k: int| 0 <= k < out@.len() implies same_file_info(
            #[trigger] out@[k],
            visible_files(files@, include_hidden)[idxs[k]],
        ) by {
            assert(same_file_info(out@[k], kept@[idxs[k]]));
            assert(same_file_info(kept@[idxs[k]], visible_files(files@, include_hidden)[idxs[k]]));
        }
        assert(listing_arrangement(out@, files@, include_hidden));
    }
    out
}

} // verus!
