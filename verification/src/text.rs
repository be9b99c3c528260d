//! Small verified utilities over strings and characters: ASCII case folding,
//! equality and ordering of character sequences, substring tests, and decimal
//! rendering of integers.

use vstd::prelude::*;

verus! {

/// ASCII lowercase of a single character; other characters are unchanged.
pub open spec fn ascii_lower_char(c: char) -> char {
    if 65 <= c as u32 && c as u32 <= 90 {
        ((c as u8) + 32) as char
    } else {
        c
    }
}

/// ASCII lowercase of a whole character sequence.
pub open spec fn ascii_lower(s: Seq<char>) -> Seq<char> {
    s.map_values(|c: char| ascii_lower_char(c))
}

/// Folding a character twice is the same as folding it once.
pub proof fn lemma_lower_char_idempotent(c: char)
    ensures
        ascii_lower_char(ascii_lower_char(c)) == ascii_lower_char(c),
{
}

/// Folding a sequence twice is the same as folding it once: ASCII case
/// folding is idempotent.
pub proof fn lemma_lower_idempotent(s: Seq<char>)
    ensures
        ascii_lower(ascii_lower(s)) == ascii_lower(s),
{
    assert forall|i: int| 0 <= i < s.len() implies ascii_lower(ascii_lower(s))[i]
        == ascii_lower(s)[i] by {
        lemma_lower_char_idempotent(s[i]);
    }
    assert(ascii_lower(ascii_lower(s)) =~= ascii_lower(s));
}

/// Lowercases one character, ASCII letters only.
pub fn lower_char(c: char) -> (r: char)
    ensures
        r == ascii_lower_char(c),
{
    let u = c as u32;
    if 65 <= u && u <= 90 {
        ((c as u8) + 32) as char
    } else {
        c
    }
}

/// Relies on `String::push`: appends one character to the string.
#[verifier::external_body]
pub fn push_char(s: &mut String, c: char)
    ensures
        final(s)@ == old(s)@.push(c),
{
    s.push(c);
}

/// ASCII-lowercased copy of a string.
pub fn ascii_lowercase(s: &str) -> (r: String)
    ensures
        r@ == ascii_lower(s@),
{
    let n = s.unicode_len();
    let mut out = String::new();
    let mut i: usize = 0;
    while i < n
        invariant
            i <= n,
            n == s@.len(),
            out@ == ascii_lower(s@.take(i as int)),
        decreases n - i,
    {
        let c = lower_char(s.get_char(i));
        push_char(&mut out, c);
        proof {
            assert(s@.take(i + 1 as int) =~= s@.take(i as int).push(s@[i as int]));
            assert(ascii_lower(s@.take(i + 1 as int)) =~= ascii_lower(
                s@.take(i as int),
            ).push(ascii_lower_char(s@[i as int])));
        }
        i = i + 1;
    }
    proof {
        assert(s@.take(n as int) =~= s@);
    }
    out
}

/// Character-sequence equality of two strings.
pub fn str_eq(a: &str, b: &str) -> (r: bool)
    ensures
        r == (a@ == b@),
{
    let an = a.unicode_len();
    let bn = b.unicode_len();
    if an != bn {
        return false;
    }
    let mut i: usize = 0;
    while i < an
        invariant
            i <= an,
            an == a@.len(),
            bn == b@.len(),
            an == bn,
            forall|j: int| 0 <= j < i ==> a@[j] == b@[j],
        decreases an - i,
    {
        if a.get_char(i) != b.get_char(i) {
            return false;
        }
        i = i + 1;
    }
    proof {
        assert(a@ =~= b@);
    }
    true
}

/// `pre` is a prefix of `s`.
pub open spec fn is_prefix_of(pre: Seq<char>, s: Seq<char>) -> bool {
    pre.len() <= s.len() && s.take(pre.len() as int) == pre
}

/// `suf` is a suffix of `s`.
pub open spec fn is_suffix_of(suf: Seq<char>, s: Seq<char>) -> bool {
    suf.len() <= s.len() && s.skip(s.len() - suf.len()) == suf
}

/// `sub` occurs somewhere in `s`.
pub open spec fn is_substring_of(sub: Seq<char>, s: Seq<char>) -> bool {
    exists|k: int| 0 <= k <= s.len() - sub.len() && #[trigger] s.subrange(k, k + sub.len()) == sub
}

/// Prefix test over characters.
pub fn str_starts_with(s: &str, pre: &str) -> (r: bool)
    ensures
        r == is_prefix_of(pre@, s@),
{
    let n = s.unicode_len();
    let pn = pre.unicode_len();
    if pn > n {
        return false;
    }
    let mut i: usize = 0;
    while i < pn
        invariant
            i <= pn,
            pn <= n,
            n == s@.len(),
            pn == pre@.len(),
            forall|j: int| 0 <= j < i ==> s@[j] == pre@[j],
        decreases pn - i,
    {
        if s.get_char(i) != pre.get_char(i) {
            assert(s@.take(pn as int)[i as int] != pre@[i as int]);
            return false;
        }
        i = i + 1;
    }
    proof {
        assert(s@.take(pn as int) =~= pre@);
    }
    true
}

/// Suffix test over characters.
pub fn str_ends_with(s: &str, suf: &str) -> (r: bool)
    ensures
        r == is_suffix_of(suf@, s@),
{
    let n = s.unicode_len();
    let sn = suf.unicode_len();
    if sn > n {
        return false;
    }
    let off = n - sn;
    let mut i: usize = 0;
    while i < sn
        invariant
            i <= sn,
            sn <= n,
            off == n - sn,
            n == s@.len(),
            sn == suf@.len(),
            forall|j: int| 0 <= j < i ==> s@[off + j] == suf@[j],
        decreases sn - i,
    {
        if s.get_char(off + i) != suf.get_char(i) {
            assert(s@.skip(off as int)[i as int] != suf@[i as int]);
            return false;
        }
        i = i + 1;
    }
    proof {
        assert(s@.skip(off as int) =~= suf@);
    }
    true
}

/// Substring test over characters.
pub fn str_contains(s: &str, sub: &str) -> (r: bool)
    ensures
        r == is_substring_of(sub@, s@),
{
    let n = s.unicode_len();
    let sn = sub.unicode_len();
    if sn > n {
        return false;
    }
    let mut k: usize = 0;
    while k <= n - sn
        invariant
            sn <= n,
            n == s@.len(),
            sn == sub@.len(),
            k <= n - sn + 1,
            forall|k2: int| 0 <= k2 < k ==> #[trigger] s@.subrange(k2, k2 + sn) != sub@,
        decreases n - sn - k + 1,
    {
        let mut i: usize = 0;
        let mut all_eq = true;
        while i < sn
            invariant
                i <= sn,
                k + sn <= n,
                n == s@.len(),
                sn == sub@.len(),
                all_eq == (forall|j: int| 0 <= j < i ==> s@[k + j] == sub@[j]),
            decreases sn - i,
        {
            if s.get_char(k + i) != sub.get_char(i) {
                all_eq = false;
                i = sn;
            } else {
                i = i + 1;
            }
        }
        if all_eq {
            proof {
                assert(s@.subrange(k as int, k + sn) =~= sub@);
            }
            return true;
        }
        proof {
            if s@.subrange(k as int, k + sn) == sub@ {
                assert(forall|j: int|
                    0 <= j < sn ==> s@[k + j] == #[trigger] s@.subrange(k as int, k + sn)[j]);
            }
        }
        k = k + 1;
    }
    false
}

/// Three-way lexicographic comparison of character sequences by code point:
/// -1 when `a` is strictly before `b`, 1 when strictly after, 0 when the
/// sequences hold the same code points.
pub open spec fn lex_cmp(a: Seq<char>, b: Seq<char>) -> int
    decreases a.len(),
{
    if a.len() == 0 && b.len() == 0 {
        0
    } else if a.len() == 0 {
        -1
    } else if b.len() == 0 {
        1
    } else if (a[0] as u32) < (b[0] as u32) {
        -1
    } else if (a[0] as u32) > (b[0] as u32) {
        1
    } else {
        lex_cmp(a.drop_first(), b.drop_first())
    }
}

/// The comparison is a sign: one of -1, 0 and 1.
pub proof fn lemma_lex_cmp_sign(a: Seq<char>, b: Seq<char>)
    ensures
        -1 <= lex_cmp(a, b) <= 1,
    decreases a.len(),
{
    if a.len() > 0 && b.len() > 0 {
        lemma_lex_cmp_sign(a.drop_first(), b.drop_first());
    }
}

/// Comparing in the other direction flips the sign.
pub proof fn lemma_lex_cmp_antisym(a: Seq<char>, b: Seq<char>)
    ensures
        lex_cmp(a, b) == -lex_cmp(b, a),
    decreases a.len(),
{
    if a.len() > 0 && b.len() > 0 {
        lemma_lex_cmp_antisym(a.drop_first(), b.drop_first());
    }
}

/// A sequence compares equal to itself, and equal sequences compare equal.
pub proof fn lemma_lex_cmp_refl(a: Seq<char>)
    ensures
        lex_cmp(a, a) == 0,
    decreases a.len(),
{
    if a.len() > 0 {
        lemma_lex_cmp_refl(a.drop_first());
    }
}

/// The order is transitive, strictly and weakly.
pub proof fn lemma_lex_cmp_trans(a: Seq<char>, b: Seq<char>, c: Seq<char>)
    ensures
        lex_cmp(a, b) <= 0 && lex_cmp(b, c) <= 0 ==> lex_cmp(a, c) <= 0,
        lex_cmp(a, b) < 0 && lex_cmp(b, c) <= 0 ==> lex_cmp(a, c) < 0,
        lex_cmp(a, b) <= 0 && lex_cmp(b, c) < 0 ==> lex_cmp(a, c) < 0,
    decreases a.len() + b.len() + c.len(),
{
    lemma_lex_cmp_sign(a, b);
    lemma_lex_cmp_sign(b, c);
    lemma_lex_cmp_sign(a, c);
    if a.len() > 0 && b.len() > 0 && c.len() > 0 {
        lemma_lex_cmp_trans(a.drop_first(), b.drop_first(), c.drop_first());
    }
}

/// Lexicographic comparison of two strings: -1, 0 or 1 as `a` is before,
/// level with, or after `b` by code points.
pub fn str_cmp(a: &str, b: &str) -> (r: i32)
    ensures
        r == lex_cmp(a@, b@),
{
    let an = a.unicode_len();
    let bn = b.unicode_len();
    let mut i: usize = 0;
    proof {
        assert(a@.skip(0) =~= a@);
        assert(b@.skip(0) =~= b@);
    }
    loop
        invariant
            i <= an,
            i <= bn,
            an == a@.len(),
            bn == b@.len(),
            lex_cmp(a@, b@) == lex_cmp(a@.skip(i as int), b@.skip(i as int)),
        decreases an - i,
    {
        if i >= an && i >= bn {
            return 0;
        }
        if i >= an {
            assert(a@.skip(i as int).len() == 0 && b@.skip(i as int).len() > 0);
            return -1;
        }
        if i >= bn {
            assert(b@.skip(i as int).len() == 0 && a@.skip(i as int).len() > 0);
            return 1;
        }
        let ca = a.get_char(i);
        let cb = b.get_char(i);
        proof {
            assert(a@.skip(i as int)[0] == ca && b@.skip(i as int)[0] == cb);
        }
        if (ca as u32) < (cb as u32) {
            return -1;
        }
        if (ca as u32) > (cb as u32) {
            return 1;
        }
        proof {
            assert(a@.skip(i as int).drop_first() =~= a@.skip(i + 1));
            assert(b@.skip(i as int).drop_first() =~= b@.skip(i + 1));
        }
        i = i + 1;
    }
}

/// The character for one decimal digit.
pub open spec fn digit_char(d: int) -> char {
    ((48 + d) as u8) as char
}

/// Decimal rendering of a natural number, most significant digit first.
pub open spec fn dec_seq(n: nat) -> Seq<char>
    decreases n,
{
    if n < 10 {
        seq![digit_char(n as int)]
    } else {
        dec_seq(n / 10).push(digit_char((n % 10) as int))
    }
}

/// Appends the decimal rendering of `n`.
pub fn push_decimal(out: &mut String, n: u64)
    ensures
        final(out)@ == old(out)@ + dec_seq(n as nat),
    decreases n,
{
    if n < 10 {
        push_char(out, ((48 + n as u8)) as char);
        proof {
            assert(final(out)@ =~= old(out)@ + dec_seq(n as nat));
        }
    } else {
        push_decimal(out, n / 10);
        push_char(out, ((48 + (n % 10) as u8)) as char);
        proof {
            assert(final(out)@ =~= old(out)@ + dec_seq(n as nat));
        }
    }
}

/// Decimal rendering of `n` as a fresh string.
pub fn u64_to_string(n: u64) -> (r: String)
    ensures
        r@ == dec_seq(n as nat),
{
    let mut out = String::new();
    push_decimal(&mut out, n);
    proof {
        assert(out@ =~= dec_seq(n as nat));
    }
    out
}

/// The numeric value of a sequence of decimal digits, reading left to right.
pub open spec fn dec_value(s: Seq<char>) -> int
    decreases s.len(),
{
    if s.len() == 0 {
        0
    } else {
        dec_value(s.drop_last()) * 10 + (s.last() as u32 - 48)
    }
}

/// Every character of `s` is a decimal digit and `s` is not empty.
pub open spec fn all_digits(s: Seq<char>) -> bool {
    s.len() > 0 && forall|i: int| 0 <= i < s.len() ==> 48 <= #[trigger] s[i] as u32 <= 57
}

/// Parses an unsigned decimal integer, as the rule engine's numeric
/// comparisons need it: any non-digit character, an empty string, or a value
/// that does not fit in 64 bits yields `None`.
pub fn parse_u64(s: &str) -> (r: Option<u64>)
    ensures
        r is Some ==> all_digits(s@) && r->0 == dec_value(s@) && dec_value(s@) <= u64::MAX,
        r is None ==> !all_digits(s@) || dec_value(s@) > u64::MAX,
{
    let n = s.unicode_len();
    if n == 0 {
        return None;
    }
    let mut acc: u64 = 0;
    let mut i: usize = 0;
    while i < n
        invariant
            i <= n,
            n == s@.len(),
            n > 0,
            forall|j: int| 0 <= j < i ==> 48 <= #[trigger] s@[j] as u32 <= 57,
            acc == dec_value(s@.take(i as int)),
            dec_value(s@.take(i as int)) <= u64::MAX,
        decreases n - i,
    {
        let c = s.get_char(i);
        let u = c as u32;
        if u < 48 || u > 57 {
            return None;
        }
        let d = (u - 48) as u64;
        if acc > (u64::MAX - d) / 10 {
            proof {
                assert(s@.take(i + 1 as int).drop_last() =~= s@.take(i as int));
                assert(s@.take(i + 1 as int).last() == s@[i as int]);
                let md = (u64::MAX - d) as int;
                assert(md == 10 * (md / 10) + md % 10 && 0 <= md % 10 < 10) by (nonlinear_arith);
                assert(dec_value(s@.take(i + 1 as int)) > u64::MAX);
                if all_digits(s@) {
                    lemma_dec_value_monotonic(s@.take(i + 1 as int), s@);
                }
            }
            return None;
        }
        acc = acc * 10 + d;
        proof {
            assert(s@.take(i + 1 as int).drop_last() =~= s@.take(i as int));
            assert(s@.take(i + 1 as int).last() == s@[i as int]);
        }
        i = i + 1;
    }
    proof {
        assert(s@.take(n as int) =~= s@);
    }
    Some(acc)
}

/// A digit sequence's value only grows when more digits follow.
proof fn lemma_dec_value_monotonic(pre: Seq<char>, s: Seq<char>)
    requires
        pre.len() <= s.len(),
        pre =~= s.take(pre.len() as int),
        forall|i: int| 0 <= i < s.len() ==> 48 <= #[trigger] s[i] as u32 <= 57,
        dec_value(pre) >= 0,
    ensures
        dec_value(s) >= dec_value(pre),
    decreases s.len() - pre.len(),
{
    lemma_dec_value_nonneg(pre);
    if pre.len() < s.len() {
        let next = s.take(pre.len() + 1 as int);
        assert(next.drop_last() =~= pre);
        assert(dec_value(next) == dec_value(pre) * 10 + (next.last() as u32 - 48));
        lemma_dec_value_monotonic(next, s);
    } else {
        assert(pre =~= s);
    }
}

/// Digit-sequence values are never negative.
proof fn lemma_dec_value_nonneg(s: Seq<char>)
    requires
        forall|i: int| 0 <= i < s.len() ==> 48 <= #[trigger] s[i] as u32 <= 57,
    ensures
        dec_value(s) >= 0,
    decreases s.len(),
{
    if s.len() > 0 {
        assert(forall|i: int|
            0 <= i < s.drop_last().len() ==> 48 <= #[trigger] s.drop_last()[i] as u32 <= 57);
        lemma_dec_value_nonneg(s.drop_last());
    }
}

} // verus!
