//! Stable ordering of items by a key. Items are handed over as pairs of a
//! key and the item's original position; a sorted arrangement keeps equal
//! keys in their original order because the position breaks every tie.

use vstd::prelude::*;
use vstd::seq_lib::lemma_multiset_commutative;
use vstd::multiset::Multiset;
use crate::text::{lex_cmp, lemma_lex_cmp_sign, lemma_lex_cmp_antisym, lemma_lex_cmp_trans};

verus! {

/// `p` may stand before `q` in a descending arrangement: its key is larger,
/// or the keys are equal and `p` came first.
pub open spec fn pair_above(p: (u64, usize), q: (u64, usize)) -> bool {
    p.0 > q.0 || (p.0 == q.0 && p.1 <= q.1)
}

/// The sequence is descending by key, ties in original order.
pub open spec fn pairs_sorted(s: Seq<(u64, usize)>) -> bool {
    forall|i: int, j: int| 0 <= i < j < s.len() ==> pair_above(#[trigger] s[i], #[trigger] s[j])
}

/// Inserting an element in the middle adds exactly that element to the
/// sequence's multiset.
proof fn lemma_insert_multiset<A>(s: Seq<A>, j: int, x: A)
    requires
        0 <= j <= s.len(),
    ensures
        s.insert(j, x).to_multiset() == s.to_multiset().insert(x),
{
    broadcast use vstd::seq_lib::group_to_multiset_ensures;

    let pre = s.take(j);
    let post = s.skip(j);
    assert(s.insert(j, x) =~= pre + (seq![x] + post));
    assert(s =~= pre + post);
    lemma_multiset_commutative(pre, seq![x] + post);
    lemma_multiset_commutative(seq![x], post);
    lemma_multiset_commutative(pre, post);
    assert(seq![x].to_multiset() =~= Multiset::empty().insert(x));
    assert(s.insert(j, x).to_multiset() =~= s.to_multiset().insert(x));
}

/// Arranges key/position pairs descending by key; equal keys keep their
/// original order. The result is a permutation of the input.
pub fn sort_pairs_desc(v: &Vec<(u64, usize)>) -> (r: Vec<(u64, usize)>)
    ensures
        pairs_sorted(r@),
        r@.to_multiset() == v@.to_multiset(),
        r@.len() == v@.len(),
        forall|i: int| 0 <= i < r@.len() ==> v@.contains(#[trigger] r@[i]),
        v@.no_duplicates() ==> r@.no_duplicates(),
{
    broadcast use vstd::seq_lib::group_to_multiset_ensures;

    let n = v.len();
    let mut out: Vec<(u64, usize)> = Vec::new();
    let mut i: usize = 0;
    while i < n
        invariant
            i <= n,
            n == v@.len(),
            out@.len() == i,
            pairs_sorted(out@),
            out@.to_multiset() == v@.take(i as int).to_multiset(),
        decreases n - i,
    {
        let x = v[i];
        let mut j: usize = 0;
        while j < out.len() && (out[j].0 > x.0 || (out[j].0 == x.0 && out[j].1 <= x.1))
            invariant
                j <= out@.len(),
                forall|k: int| 0 <= k < j ==> pair_above(#[trigger] out@[k], x),
            decreases out@.len() - j,
        {
            j = j + 1;
        }
        let ghost old_out = out@;
        out.insert(j, x);
        proof {
            assert forall|a: int, b: int| 0 <= a < b < out@.len() implies pair_above(
                #[trigger] out@[a],
                #[trigger] out@[b],
            ) by {
                if a < j && b == j {
                    assert(pair_above(old_out[a], x));
                } else if a == j && b > j {
                    if j < old_out.len() {
                        assert(!pair_above(old_out[j as int], x));
                        assert(pair_above(x, old_out[j as int]));
                        assert(pair_above(old_out[j as int], old_out[b - 1]) || j == b - 1);
                    }
                } else if a < j && b > j {
                    assert(pair_above(old_out[a], old_out[b - 1]));
                } else if a > j && b > j {
                    assert(pair_above(old_out[a - 1], old_out[b - 1]));
                }
            }
            lemma_insert_multiset(old_out, j as int, x);
            assert(v@.take(i + 1 as int) =~= v@.take(i as int).push(x));
            v@.take(i as int).to_multiset_ensures();
            assert(v@.take(i as int).push(x).to_multiset() =~= v@.take(
                i as int,
            ).to_multiset().insert(x));
        }
        i = i + 1;
    }
    proof {
        assert(v@.take(n as int) =~= v@);
        assert forall|k: int| 0 <= k < out@.len() implies v@.contains(#[trigger] out@[k]) by {
            assert(out@.to_multiset().contains(out@[k]));
        }
        if v@.no_duplicates() {
            v@.lemma_multiset_has_no_duplicates();
            out@.lemma_multiset_has_no_duplicates_conv();
        }
    }
    out
}


/// `p` may stand before `q` in an arrangement of string keys: ascending or
/// descending lexicographic order as asked, keys that compare level in
/// original order.
pub open spec fn str_pair_above(desc: bool, p: (Seq<char>, usize), q: (Seq<char>, usize)) -> bool {
    if lex_cmp(p.0, q.0) == 0 {
        p.1 <= q.1
    } else if desc {
        lex_cmp(p.0, q.0) > 0
    } else {
        lex_cmp(p.0, q.0) < 0
    }
}

/// The key/position view of a string pair.
pub open spec fn str_pair_view(p: (String, usize)) -> (Seq<char>, usize) {
    (p.0@, p.1)
}

/// The sequence is ordered by key in the asked direction, ties in original
/// order.
pub open spec fn str_pairs_sorted(desc: bool, s: Seq<(String, usize)>) -> bool {
    forall|i: int, j: int|
        0 <= i < j < s.len() ==> str_pair_above(
            desc,
            str_pair_view(#[trigger] s[i]),
            str_pair_view(#[trigger] s[j]),
        )
}

/// The pair order is total: of any two pairs, one may stand before the
/// other.
proof fn lemma_str_above_total(desc: bool, p: (Seq<char>, usize), q: (Seq<char>, usize))
    ensures
        str_pair_above(desc, p, q) || str_pair_above(desc, q, p),
{
    lemma_lex_cmp_antisym(p.0, q.0);
}

/// The pair order is transitive in either direction.
proof fn lemma_str_above_trans(desc: bool, p: (Seq<char>, usize), q: (Seq<char>, usize), r: (
    Seq<char>,
    usize,
))
    requires
        str_pair_above(desc, p, q),
        str_pair_above(desc, q, r),
    ensures
        str_pair_above(desc, p, r),
{
    lemma_lex_cmp_sign(p.0, q.0);
    lemma_lex_cmp_sign(q.0, r.0);
    lemma_lex_cmp_sign(p.0, r.0);
    if desc {
        lemma_lex_cmp_antisym(p.0, q.0);
        lemma_lex_cmp_antisym(q.0, r.0);
        lemma_lex_cmp_antisym(p.0, r.0);
        lemma_lex_cmp_trans(r.0, q.0, p.0);
    } else {
        lemma_lex_cmp_trans(p.0, q.0, r.0);
    }
}

/// Arranges string-keyed pairs by key, ascending or descending; keys that
/// compare level keep their original order. The result is a permutation of
/// the input.
pub fn sort_str_pairs(v: Vec<(String, usize)>, desc: bool) -> (r: Vec<(String, usize)>)
    ensures
        str_pairs_sorted(desc, r@),
        r@.map_values(|p: (String, usize)| str_pair_view(p)).to_multiset() == v@.map_values(
            |p: (String, usize)| str_pair_view(p),
        ).to_multiset(),
        r@.len() == v@.len(),
        forall|i: int|
            0 <= i < r@.len() ==> v@.map_values(|p: (String, usize)| str_pair_view(p)).contains(
                str_pair_view(#[trigger] r@[i]),
            ),
        v@.map_values(|p: (String, usize)| str_pair_view(p)).no_duplicates()
            ==> r@.map_values(|p: (String, usize)| str_pair_view(p)).no_duplicates(),
{
    broadcast use vstd::seq_lib::group_to_multiset_ensures;

    let ghost vw = v@.map_values(|p: (String, usize)| str_pair_view(p));
    let n = v.len();
    let mut src = v;
    let mut out: Vec<(String, usize)> = Vec::new();
    let mut i: usize = 0;
    while i < n
        invariant
            i <= n,
            n == vw.len(),
            src@.len() == n - i,
            out@.len() == i,
            str_pairs_sorted(desc, out@),
            out@.map_values(|p: (String, usize)| str_pair_view(p)).to_multiset() == vw.take(
                i as int,
            ).to_multiset(),
            src@.map_values(|p: (String, usize)| str_pair_view(p)) =~= vw.skip(i as int),
        decreases n - i,
    {
        let ghost old_src = src@;
        let x = src.remove(0);
        let ghost xv = str_pair_view(x);
        proof {
            assert(src@.map_values(|p: (String, usize)| str_pair_view(p)) =~= old_src.map_values(
                |p: (String, usize)| str_pair_view(p),
            ).drop_first());
            assert(old_src.map_values(|p: (String, usize)| str_pair_view(p)).drop_first()
                =~= vw.skip(i + 1 as int));
            assert(str_pair_view(old_src[0]) == old_src.map_values(
                |p: (String, usize)| str_pair_view(p),
            )[0]);
            assert(vw.skip(i as int)[0] == vw[i as int]);
            assert(xv == vw[i as int]);
        }
        let mut j: usize = 0;
        loop
            invariant
                j <= out@.len(),
                xv == str_pair_view(x),
                forall|k: int|
                    0 <= k < j ==> str_pair_above(desc, str_pair_view(#[trigger] out@[k]), xv),
            ensures
                j <= out@.len(),
                forall|k: int|
                    0 <= k < j ==> str_pair_above(desc, str_pair_view(#[trigger] out@[k]), xv),
                j < out@.len() ==> !str_pair_above(desc, str_pair_view(out@[j as int]), xv),
            decreases out@.len() - j,
        {
            if j >= out.len() {
                break;
            }
            let c = crate::text::str_cmp(&out[j].0, &x.0);
            let keep = if c == 0 {
                out[j].1 <= x.1
            } else if desc {
                c > 0
            } else {
                c < 0
            };
            if !keep {
                break;
            }
            j = j + 1;
        }
        let ghost old_out = out@;
        out.insert(j, x);
        proof {
            assert forall|a: int, b: int| 0 <= a < b < out@.len() implies str_pair_above(
                desc,
                str_pair_view(#[trigger] out@[a]),
                str_pair_view(#[trigger] out@[b]),
            ) by {
                if a < j && b == j {
                    assert(str_pair_above(desc, str_pair_view(old_out[a]), xv));
                } else if a == j && b > j {
                    assert(!str_pair_above(desc, str_pair_view(old_out[j as int]), xv));
                    lemma_str_above_total(desc, str_pair_view(old_out[j as int]), xv);
                    if j < b - 1 {
                        assert(str_pair_above(
                            desc,
                            str_pair_view(old_out[j as int]),
                            str_pair_view(old_out[b - 1]),
                        ));
                        lemma_str_above_trans(
                            desc,
                            xv,
                            str_pair_view(old_out[j as int]),
                            str_pair_view(old_out[b - 1]),
                        );
                    }
                } else if a < j && b > j {
                    assert(str_pair_above(
                        desc,
                        str_pair_view(old_out[a]),
                        str_pair_view(old_out[b - 1]),
                    ));
                } else if a > j && b > j {
                    assert(str_pair_above(
                        desc,
                        str_pair_view(old_out[a - 1]),
                        str_pair_view(old_out[b - 1]),
                    ));
                }
            }
            let om = old_out.map_values(|p: (String, usize)| str_pair_view(p));
            let nm = out@.map_values(|p: (String, usize)| str_pair_view(p));
            assert(nm =~= om.insert(j as int, xv));
            lemma_insert_multiset(om, j as int, xv);
            assert(vw.take(i + 1 as int) =~= vw.take(i as int).push(xv));
            vw.take(i as int).to_multiset_ensures();
            assert(vw.take(i as int).push(xv).to_multiset() =~= vw.take(
                i as int,
            ).to_multiset().insert(xv));
            assert(nm.to_multiset() =~= vw.take(i + 1 as int).to_multiset());
        }
        i = i + 1;
    }
    proof {
        assert(vw.take(n as int) =~= vw);
        let rm = out@.map_values(|p: (String, usize)| str_pair_view(p));
        assert forall|k: int| 0 <= k < out@.len() implies vw.contains(
            str_pair_view(#[trigger] out@[k]),
        ) by {
            assert(rm.contains(rm[k]));
            assert(rm.to_multiset().contains(rm[k]));
        }
        if vw.no_duplicates() {
            vw.lemma_multiset_has_no_duplicates();
            rm.lemma_multiset_has_no_duplicates_conv();
        }
    }
    out
}

} // verus!
