//! Rendering of numbers for the presentation layer: decimal strings,
//! human-readable byte counts (1024-based units, two decimals, truncated),
//! and dotted IPv4 addresses in wire-octet order.

use vstd::prelude::*;
use vstd::string::StringExecFns;

verus! {

/// The decimal digit character for a value below ten.
pub open spec fn dec_digit(d: int) -> char {
    (48 + d) as char
}

/// The decimal rendering of a number, most significant digit first.
pub open spec fn dec_str(n: nat) -> Seq<char>
    decreases n,
{
    if n < 10 {
        seq![dec_digit(n as int)]
    } else {
        dec_str(n / 10).push(dec_digit((n % 10) as int))
    }
}

/// The one-character string of a decimal digit.
fn digit_str(d: u8) -> (r: &'static str)
    requires
        d <= 9,
    ensures
        r@ == seq![dec_digit(d as int)],
{
    if d == 0 {
        proof {
            reveal_strlit("0");
        }
        assert("0"@ =~= seq![dec_digit(0)]);
        "0"
    } else if d == 1 {
        proof {
            reveal_strlit("1");
        }
        assert("1"@ =~= seq![dec_digit(1)]);
        "1"
    } else if d == 2 {
        proof {
            reveal_strlit("2");
        }
        assert("2"@ =~= seq![dec_digit(2)]);
        "2"
    } else if d == 3 {
        proof {
            reveal_strlit("3");
        }
        assert("3"@ =~= seq![dec_digit(3)]);
        "3"
    } else if d == 4 {
        proof {
            reveal_strlit("4");
        }
        assert("4"@ =~= seq![dec_digit(4)]);
        "4"
    } else if d == 5 {
        proof {
            reveal_strlit("5");
        }
        assert("5"@ =~= seq![dec_digit(5)]);
        "5"
    } else if d == 6 {
        proof {
            reveal_strlit("6");
        }
        assert("6"@ =~= seq![dec_digit(6)]);
        "6"
    } else if d == 7 {
        proof {
            reveal_strlit("7");
        }
        assert("7"@ =~= seq![dec_digit(7)]);
        "7"
    } else if d == 8 {
        proof {
            reveal_strlit("8");
        }
        assert("8"@ =~= seq![dec_digit(8)]);
        "8"
    } else {
        proof {
            reveal_strlit("9");
        }
        assert("9"@ =~= seq![dec_digit(9)]);
        "9"
    }
}

/// Render a number in decimal.
pub fn u64_to_string(n: u64) -> (r: String)
    ensures
        r@ == dec_str(n as nat),
    decreases n,
{
    if n < 10 {
        digit_str(n as u8).to_owned()
    } else {
        let mut s = u64_to_string(n / 10);
        s.append(digit_str((n % 10) as u8));
        s
    }
}

/// The unit suffix of a size bucket.
pub open spec fn unit_suffix(k: int) -> Seq<char> {
    if k == 0 {
        seq![' ', 'B']
    } else if k == 1 {
        seq![' ', 'K', 'B']
    } else if k == 2 {
        seq![' ', 'M', 'B']
    } else if k == 3 {
        seq![' ', 'G', 'B']
    } else if k == 4 {
        seq![' ', 'T', 'B']
    } else {
        seq![' ', 'P', 'B']
    }
}

/// The size bucket of a byte count: the largest 1024-based unit below it.
pub open spec fn size_bucket(b: u64) -> int {
    if b < 1024 {
        0
    } else if b < 0x100000 {
        1
    } else if b < 0x40000000 {
        2
    } else if b < 0x10000000000 {
        3
    } else if b < 0x4000000000000 {
        4
    } else {
        5
    }
}

/// The divisor of a size bucket, 1024 to the bucket's power.
pub open spec fn bucket_divisor(k: int) -> int {
    if k <= 0 {
        1
    } else if k == 1 {
        0x400
    } else if k == 2 {
        0x100000
    } else if k == 3 {
        0x40000000
    } else if k == 4 {
        0x10000000000
    } else {
        0x4000000000000
    }
}

/// The human-readable rendering of a byte count: the whole part in the
/// largest unit below the count, a dot, two decimals (truncated), and the
/// unit. Counts below 1 KB render without decimals.
pub open spec fn format_bytes_spec(b: u64) -> Seq<char> {
    let k = size_bucket(b);
    if k == 0 {
        dec_str(b as nat) + unit_suffix(0)
    } else {
        let div = bucket_divisor(k);
        let whole = b as int / div;
        let frac = (b as int % div) * 100 / div;
        dec_str(whole as nat) + seq!['.', dec_digit(frac / 10), dec_digit(frac % 10)]
            + unit_suffix(k)
    }
}

/// Whole units and two truncated decimals of `b` against the divisor.
fn scale(b: u64, div: u64) -> (r: (u64, u64))
    requires
        1024 <= div <= 0x4000000000000,
    ensures
        r.0 == b as int / div as int,
        r.1 == (b as int % div as int) * 100 / div as int,
        r.1 < 100,
{
    let whole = b / div;
    let rem = b % div;
    let frac = (rem * 100) / div;
    proof {
        assert((rem as int) * 100 / (div as int) < 100) by (nonlinear_arith)
            requires
                0 < div,
                rem < div,
        ;
    }
    (whole, frac)
}

/// Append the two-decimal fraction and the unit suffix.
fn append_scaled(s: &mut String, frac: u64, suffix: &str)
    requires
        frac < 100,
    ensures
        final(s)@ == old(s)@ + seq!['.', dec_digit(frac as int / 10), dec_digit(frac as int % 10)]
            + suffix@,
{
    proof {
        reveal_strlit(".");
    }
    assert("."@ =~= seq!['.']);
    s.append(".");
    s.append(digit_str((frac / 10) as u8));
    s.append(digit_str((frac % 10) as u8));
    s.append(suffix);
    proof {
        assert(final(s)@ =~= old(s)@ + seq![
            '.',
            dec_digit(frac as int / 10),
            dec_digit(frac as int % 10),
        ] + suffix@);
    }
}

/// Render a byte count human-readably, as `format_bytes_spec` states.
pub fn format_bytes(b: u64) -> (r: String)
    ensures
        r@ == format_bytes_spec(b),
{
    if b < 1024 {
        let mut s = u64_to_string(b);
        proof {
            reveal_strlit(" B");
        }
        assert(" B"@ =~= unit_suffix(0));
        s.append(" B");
        s
    } else if b < 0x100000 {
        let (whole, frac) = scale(b, 1024);
        let mut s = u64_to_string(whole);
        proof {
            reveal_strlit(" KB");
        }
        assert(" KB"@ =~= unit_suffix(1));
        append_scaled(&mut s, frac, " KB");
        s
    } else if b < 0x40000000 {
        let (whole, frac) = scale(b, 0x100000);
        let mut s = u64_to_string(whole);
        proof {
            reveal_strlit(" MB");
        }
        assert(" MB"@ =~= unit_suffix(2));
        append_scaled(&mut s, frac, " MB");
        s
    } else if b < 0x10000000000 {
        let (whole, frac) = scale(b, 0x40000000);
        let mut s = u64_to_string(whole);
        proof {
            reveal_strlit(" GB");
        }
        assert(" GB"@ =~= unit_suffix(3));
        append_scaled(&mut s, frac, " GB");
        s
    } else if b < 0x4000000000000 {
        let (whole, frac) = scale(b, 0x10000000000);
        let mut s = u64_to_string(whole);
        proof {
            reveal_strlit(" TB");
        }
        assert(" TB"@ =~= unit_suffix(4));
        append_scaled(&mut s, frac, " TB");
        s
    } else {
        let (whole, frac) = scale(b, 0x4000000000000);
        let mut s = u64_to_string(whole);
        proof {
            reveal_strlit(" PB");
        }
        assert(" PB"@ =~= unit_suffix(5));
        append_scaled(&mut s, frac, " PB");
        s
    }
}

/// The dotted rendering of an IPv4 address packed in wire order: the first
/// octet is the least significant byte.
pub open spec fn ipv4_str(addr: u32) -> Seq<char> {
    dec_str((addr as int % 256) as nat) + seq!['.'] + dec_str((addr as int / 256 % 256) as nat)
        + seq!['.'] + dec_str((addr as int / 65536 % 256) as nat) + seq!['.'] + dec_str(
        (addr as int / 16777216) as nat,
    )
}

/// Render an IPv4 address packed in wire order as dotted decimals.
pub fn ipv4_to_string(addr: u32) -> (r: String)
    ensures
        r@ == ipv4_str(addr),
{
    proof {
        reveal_strlit(".");
    }
    assert("."@ =~= seq!['.']);
    let mut s = u64_to_string((addr % 256) as u64);
    s.append(".");
    s.append(u64_to_string((addr / 256 % 256) as u64).as_str());
    s.append(".");
    s.append(u64_to_string((addr / 65536 % 256) as u64).as_str());
    s.append(".");
    s.append(u64_to_string((addr / 16777216) as u64).as_str());
    proof {
        assert(s@ =~= ipv4_str(addr));
    }
    s
}

} // verus!
