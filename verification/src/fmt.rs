//! Human-readable rendering of byte sizes. A size is shown with one decimal
//! digit in the largest fitting binary unit (KB, MB, GB), rounding half up;
//! sizes under 1024 bytes are shown as plain bytes.

use vstd::prelude::*;
use crate::text::{dec_seq, digit_char, push_decimal, push_char};

verus! {

/// Tenths of a unit that `size` amounts to, rounding half up.
pub open spec fn size_tenths(size: int, unit: int) -> int {
    10 * (size / unit) + ((size % unit) * 10 + unit / 2) / unit
}

/// The rendered form of a size: whole part, a dot, one fractional digit and
/// the unit's suffix.
pub open spec fn spec_unit_render(size: int, unit: int, suffix: Seq<char>) -> Seq<char> {
    dec_seq((size_tenths(size, unit) / 10) as nat) + seq!['.'] + seq![
        digit_char(size_tenths(size, unit) % 10),
    ] + suffix
}

/// The rendered form of a byte size.
pub open spec fn spec_format_size(size: u64) -> Seq<char> {
    if size >= 0x40000000 {
        spec_unit_render(size as int, 0x40000000, "GB"@)
    } else if size >= 0x100000 {
        spec_unit_render(size as int, 0x100000, "MB"@)
    } else if size >= 0x400 {
        spec_unit_render(size as int, 0x400, "KB"@)
    } else {
        dec_seq(size as nat) + "B"@
    }
}

/// Renders `size` in tenths of the given power-of-two unit.
fn render_unit(size: u64, unit: u64, c1: char, c2: char) -> (r: String)
    requires
        unit == 0x400 || unit == 0x100000 || unit == 0x40000000,
        size >= unit,
    ensures
        r@ == spec_unit_render(size as int, unit as int, seq![c1, c2]),
{
    let whole = size / unit;
    let rem = size % unit;
    let fr = (rem * 10 + unit / 2) / unit;
    proof {
        let r = rem as int;
        let u = unit as int;
        let s = size as int;
        assert(r < u);
        assert(r * 10 + u / 2 < u * 11) by (nonlinear_arith)
            requires
                r < u,
                u > 0,
        ;
        assert((r * 10 + u / 2) / u < 11) by (nonlinear_arith)
            requires
                r * 10 + u / 2 < u * 11,
                u > 0,
        ;
        assert(s / u <= s / 0x400) by (nonlinear_arith)
            requires
                u >= 0x400,
                s >= 0,
        ;
        assert(s / 0x400 <= 0x3FFFFFFFFFFFFF) by (nonlinear_arith)
            requires
                s <= u64::MAX,
        ;
    }
    let tenths = whole * 10 + fr;
    let mut out = String::new();
    push_decimal(&mut out, tenths / 10);
    push_char(&mut out, '.');
    let d = (tenths % 10) as u8;
    push_char(&mut out, (48 + d) as char);
    push_char(&mut out, c1);
    push_char(&mut out, c2);
    proof {
        assert(tenths == size_tenths(size as int, unit as int));
        assert(out@ =~= spec_unit_render(size as int, unit as int, seq![c1, c2]));
    }
    out
}

/// Byte size as a short display string ("1.5KB", "2.0GB", "512B").
pub fn format_size(size: u64) -> (r: String)
    ensures
        r@ == spec_format_size(size),
{
    if size >= 0x40000000 {
        let r = render_unit(size, 0x40000000, 'G', 'B');
        proof {
            reveal_strlit("GB");
            assert(seq!['G', 'B'] =~= "GB"@);
        }
        r
    } else if size >= 0x100000 {
        let r = render_unit(size, 0x100000, 'M', 'B');
        proof {
            reveal_strlit("MB");
            assert(seq!['M', 'B'] =~= "MB"@);
        }
        r
    } else if size >= 0x400 {
        let r = render_unit(size, 0x400, 'K', 'B');
        proof {
            reveal_strlit("KB");
            assert(seq!['K', 'B'] =~= "KB"@);
        }
        r
    } else {
        let mut out = String::new();
        push_decimal(&mut out, size);
        push_char(&mut out, 'B');
        proof {
            reveal_strlit("B");
            assert(out@ =~= dec_seq(size as nat) + "B"@);
        }
        out
    }
}

} // verus!
