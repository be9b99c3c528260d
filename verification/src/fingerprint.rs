//! Content fingerprinting with a two-window read strategy. A file is
//! identified by a 64-bit digest of its first 64 KiB, its last 64 KiB (only
//! when the file is longer than 128 KiB), and its byte length appended in
//! little-endian order. The digest is fast and non-cryptographic: it serves
//! to disambiguate files during duplicate scans and folder comparison, not to
//! resist an adversary, and content that differs only in the untouched middle
//! region of a long file is deliberately treated as identical.

use vstd::prelude::*;
use crate::text::push_char;

verus! {

/// Bytes of one read window.
pub const WINDOW_SIZE: u64 = 65536;

/// File length above which the trailing window is also read.
pub const BACK_WINDOW_THRESHOLD: u64 = 131072;

/// How many bytes the leading window holds for a file of the given length:
/// the whole file when it is short, else one full window.
pub open spec fn front_window_len(file_len: u64) -> int {
    if file_len < 65536 {
        file_len as int
    } else {
        65536
    }
}

/// Whether a file of the given length gets a trailing window too.
pub open spec fn needs_back_window(file_len: u64) -> bool {
    file_len > 131072
}

/// How many bytes the leading window of a file holds.
pub fn front_len(file_len: u64) -> (r: u64)
    ensures
        r == front_window_len(file_len),
{
    if file_len < WINDOW_SIZE {
        file_len
    } else {
        WINDOW_SIZE
    }
}

/// Whether the trailing window is read for a file of the given length.
pub fn back_window_needed(file_len: u64) -> (r: bool)
    ensures
        r == needs_back_window(file_len),
{
    file_len > BACK_WINDOW_THRESHOLD
}

/// Little-endian bytes of a number, least significant byte first.
pub open spec fn le_bytes(n: nat, count: nat) -> Seq<u8>
    decreases count,
{
    if count == 0 {
        Seq::empty()
    } else {
        seq![(n % 256) as u8] + le_bytes(n / 256, (count - 1) as nat)
    }
}

/// Appends `count` little-endian bytes of `n` to a byte vector.
fn push_le_bytes(out: &mut Vec<u8>, n: u64, count: u64)
    ensures
        final(out)@ == old(out)@ + le_bytes(n as nat, count as nat),
    decreases count,
{
    if count == 0 {
        proof {
            assert(final(out)@ =~= old(out)@ + le_bytes(n as nat, 0));
        }
    } else {
        out.push((n % 256) as u8);
        push_le_bytes(out, n / 256, count - 1);
        proof {
            assert(final(out)@ =~= old(out)@ + le_bytes(n as nat, count as nat));
        }
    }
}

/// Named digest: what `xxhash_rust::xxh3::xxh3_64` returns for a byte
/// sequence. The digest depends on the input bytes alone.
pub uninterp spec fn xxh3_of(data: Seq<u8>) -> u64;

/// Relies on `xxhash_rust::xxh3::xxh3_64`: a 64-bit digest computed from the
/// input bytes alone (default secret, seed zero).
#[verifier::external_body]
fn xxh3_digest(data: &Vec<u8>) -> (r: u64)
    ensures
        r == xxh3_of(data@),
{
    xxhash_rust::xxh3::xxh3_64(data.as_slice())
}

/// The view of an optional trailing window: its bytes, or nothing.
pub open spec fn opt_window(back: Option<Seq<u8>>) -> Seq<u8> {
    match back {
        Some(b) => b,
        None => Seq::empty(),
    }
}

/// The exact byte sequence that is digested for a file: leading window,
/// trailing window when present, then the 8-byte little-endian file length.
pub open spec fn fingerprint_input(front: Seq<u8>, back: Option<Seq<u8>>, file_len: u64) -> Seq<
    u8,
> {
    front + opt_window(back) + le_bytes(file_len as nat, 8)
}

/// The character for one lowercase hexadecimal digit.
pub open spec fn hex_digit_char(d: int) -> char {
    if d < 10 {
        ((48 + d) as u8) as char
    } else {
        ((87 + d) as u8) as char
    }
}

/// Fixed-width lowercase hexadecimal rendering, most significant digit
/// first, with leading zeros.
pub open spec fn hex_seq(n: nat, width: nat) -> Seq<char>
    decreases width,
{
    if width == 0 {
        Seq::empty()
    } else {
        hex_seq(n / 16, (width - 1) as nat).push(hex_digit_char((n % 16) as int))
    }
}

/// Appends `width` hexadecimal digits of `n`.
fn push_hex(out: &mut String, n: u64, width: u64)
    ensures
        final(out)@ == old(out)@ + hex_seq(n as nat, width as nat),
    decreases width,
{
    if width == 0 {
        proof {
            assert(final(out)@ =~= old(out)@ + hex_seq(n as nat, 0));
        }
    } else {
        push_hex(out, n / 16, width - 1);
        let d = (n % 16) as u8;
        if d < 10 {
            push_char(out, (48 + d) as char);
        } else {
            push_char(out, (87 + d) as char);
        }
        proof {
            assert(final(out)@ =~= old(out)@ + hex_seq(n as nat, width as nat));
        }
    }
}

/// A 64-bit value as 16 lowercase hexadecimal digits.
pub fn hex16(n: u64) -> (r: String)
    ensures
        r@ == hex_seq(n as nat, 16),
{
    let mut out = String::new();
    push_hex(&mut out, n, 16);
    proof {
        assert(out@ =~= hex_seq(n as nat, 16));
    }
    out
}

/// The fingerprint string of a file with the given windows and length:
/// 16 hexadecimal digits of the digest of the fingerprint input.
pub open spec fn spec_fingerprint(front: Seq<u8>, back: Option<Seq<u8>>, file_len: u64) -> Seq<
    char,
> {
    hex_seq(xxh3_of(fingerprint_input(front, back, file_len)) as nat, 16)
}

/// The view of the optional trailing window argument.
pub open spec fn back_view(back: Option<&Vec<u8>>) -> Option<Seq<u8>> {
    match back {
        Some(b) => Some(b@),
        None => None,
    }
}

/// Fingerprint of a file from its read windows and byte length. The caller
/// supplies the whole file when it is short, else the first 64 KiB, and the
/// last 64 KiB exactly when the file is longer than 128 KiB.
pub fn fingerprint_from_windows(front: &Vec<u8>, back: Option<&Vec<u8>>, file_len: u64) -> (r:
    String)
    requires
        front@.len() == front_window_len(file_len),
        (back is Some) == needs_back_window(file_len),
        back is Some ==> back->0@.len() == 65536,
    ensures
        r@ == spec_fingerprint(front@, back_view(back), file_len),
{
    let mut data: Vec<u8> = Vec::new();
    let mut i: usize = 0;
    let n = front.len();
    while i < n
        invariant
            i <= n,
            n == front@.len(),
            data@ == front@.take(i as int),
        decreases n - i,
    {
        data.push(front[i]);
        proof {
            assert(data@ =~= front@.take(i + 1 as int));
        }
        i = i + 1;
    }
    proof {
        assert(front@.take(n as int) =~= front@);
    }
    match back {
        Some(b) => {
            let bn = b.len();
            let mut j: usize = 0;
            while j < bn
                invariant
                    j <= bn,
                    bn == b@.len(),
                    data@ == front@ + b@.take(j as int),
                decreases bn - j,
            {
                data.push(b[j]);
                proof {
                    assert(data@ =~= front@ + b@.take(j + 1 as int));
                }
                j = j + 1;
            }
            proof {
                assert(b@.take(bn as int) =~= b@);
            }
        },
        None => {
            proof {
                assert(data@ =~= front@ + opt_window(back_view(back)));
            }
        },
    }
    push_le_bytes(&mut data, file_len, 8);
    proof {
        assert(data@ =~= fingerprint_input(front@, back_view(back), file_len));
    }
    let h = xxh3_digest(&data);
    hex16(h)
}

/// The windows a file of content `data` yields: the fingerprint depends on
/// nothing else.
pub open spec fn spec_fingerprint_of_content(data: Seq<u8>) -> Seq<char>
    recommends
        data.len() <= u64::MAX,
{
    let len = data.len() as u64;
    spec_fingerprint(
        data.take(front_window_len(len)),
        if needs_back_window(len) {
            Some(data.skip(data.len() - 65536))
        } else {
            None
        },
        len,
    )
}

/// The documented limit of the windowed strategy, stated as a theorem: two
/// contents of equal length whose leading and trailing 64 KiB agree get the
/// same fingerprint, however their middle regions differ.
pub proof fn lemma_fingerprint_blind_to_middle(a: Seq<u8>, b: Seq<u8>)
    requires
        a.len() == b.len(),
        a.len() <= u64::MAX,
        a.take(front_window_len(a.len() as u64)) == b.take(front_window_len(b.len() as u64)),
        needs_back_window(a.len() as u64) ==> a.skip(a.len() - 65536) == b.skip(b.len() - 65536),
    ensures
        spec_fingerprint_of_content(a) == spec_fingerprint_of_content(b),
{
}

} // verus!
