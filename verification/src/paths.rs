//! Path strings as the planning logic builds them: joining with a separator,
//! candidate names for conflict-free destinations, and the containment check
//! that guards destructive cleanup.

use vstd::prelude::*;
use crate::text::{dec_seq, is_prefix_of, push_char, push_decimal, str_starts_with};

verus! {

/// `base` with `child` appended behind one separator.
pub open spec fn spec_path_join(base: Seq<char>, child: Seq<char>) -> Seq<char> {
    base + seq!['/'] + child
}

/// Joins two path fragments with a separator.
pub fn path_join(base: &str, child: &str) -> (r: String)
    ensures
        r@ == spec_path_join(base@, child@),
{
    let mut out = String::new();
    out.append(base);
    push_char(&mut out, '/');
    out.append(child);
    proof {
        assert(out@ =~= base@ + seq!['/'] + child@);
    }
    out
}

/// The n-th candidate name when a destination is taken: the stem, an
/// underscore and the counter, then the extension behind a dot when there
/// is one.
pub open spec fn spec_numbered_name(stem: Seq<char>, ext: Seq<char>, counter: u64) -> Seq<char> {
    if ext.len() == 0 {
        stem + seq!['_'] + dec_seq(counter as nat)
    } else {
        stem + seq!['_'] + dec_seq(counter as nat) + seq!['.'] + ext
    }
}

/// Builds the n-th underscore-style candidate name ("stem_3.ext"). The
/// caller probes candidates with rising counters until one is free.
pub fn numbered_name(stem: &str, ext: &str, counter: u64) -> (r: String)
    ensures
        r@ == spec_numbered_name(stem@, ext@, counter),
{
    let mut out = String::new();
    out.append(stem);
    push_char(&mut out, '_');
    push_decimal(&mut out, counter);
    if ext.unicode_len() > 0 {
        push_char(&mut out, '.');
        out.append(ext);
        proof {
            assert(out@ =~= stem@ + seq!['_'] + dec_seq(counter as nat) + seq!['.'] + ext@);
        }
    } else {
        proof {
            assert(out@ =~= stem@ + seq!['_'] + dec_seq(counter as nat));
        }
    }
    out
}

/// The n-th candidate name in the parenthesized style ("stem (3).ext").
pub open spec fn spec_parenthesized_name(stem: Seq<char>, ext: Seq<char>, counter: u64) -> Seq<
    char,
> {
    if ext.len() == 0 {
        stem + " ("@ + dec_seq(counter as nat) + seq![')']
    } else {
        stem + " ("@ + dec_seq(counter as nat) + ")."@ + ext
    }
}

/// Builds the n-th parenthesized candidate name, as the category organizer
/// resolves duplicate destinations.
pub fn parenthesized_name(stem: &str, ext: &str, counter: u64) -> (r: String)
    ensures
        r@ == spec_parenthesized_name(stem@, ext@, counter),
{
    let mut out = String::new();
    out.append(stem);
    out.append(" (");
    push_decimal(&mut out, counter);
    if ext.unicode_len() > 0 {
        out.append(").");
        out.append(ext);
        proof {
            assert(out@ =~= stem@ + " ("@ + dec_seq(counter as nat) + ")."@ + ext@);
        }
    } else {
        push_char(&mut out, ')');
        proof {
            assert(out@ =~= stem@ + " ("@ + dec_seq(counter as nat) + seq![')']);
        }
    }
    out
}

/// `path` is `base` itself or an actual descendant of it: `base` is a
/// prefix and ends there on a component boundary, so a sibling whose name
/// merely continues the base's ("Backups_old" under "Backups") is refused.
pub open spec fn spec_path_within(path: Seq<char>, base: Seq<char>) -> bool {
    is_prefix_of(base, path) && (path.len() == base.len() || path[base.len() as int] == '/')
}

/// Whether `path` lies under `base` as the same folder or a descendant.
/// This is the guard that keeps deletion commands inside the designated
/// folder.
pub fn path_is_within(path: &str, base: &str) -> (r: bool)
    ensures
        r == spec_path_within(path@, base@),
{
    if !str_starts_with(path, base) {
        return false;
    }
    let bl = base.unicode_len();
    let pl = path.unicode_len();
    if pl == bl {
        return true;
    }
    path.get_char(bl) == '/'
}

} // verus!
