//! The cells that describe one directory entry.

use vstd::prelude::*;
use vstd::arithmetic::div_mod::lemma_fundamental_div_mod_converse;
use crate::text::{decimal, digit_char, push_char, push_decimal, push_str};

verus! {

broadcast use vstd::string::group_string_axioms;

/// Bytes in a kilobyte.
pub const KILO: u64 = 1024;

/// Bytes in a megabyte.
pub const MEGA: u64 = 1048576;

/// Bytes in a gigabyte.
pub const GIGA: u64 = 1073741824;

/// `size / unit` in tenths, rounded to the nearest tenth, ties to even.
pub open spec fn tenths(size: nat, unit: nat) -> nat
    recommends
        unit > 0,
{
    let q = (size * 10) / unit;
    let rem = (size * 10) % unit;
    if rem * 2 > unit || (rem * 2 == unit && q % 2 == 1) {
        q + 1
    } else {
        q
    }
}

/// A count of tenths written with one decimal place.
pub open spec fn one_decimal(t: nat) -> Seq<char> {
    decimal(t / 10) + seq!['.', digit_char(t % 10)]
}

/// The human-readable size: plain bytes below a kilobyte, otherwise the
/// largest unit reached, with one decimal place.
pub open spec fn size_text(size: nat) -> Seq<char> {
    if size >= GIGA {
        one_decimal(tenths(size, GIGA as nat)) + seq!['G', 'B']
    } else if size >= MEGA {
        one_decimal(tenths(size, MEGA as nat)) + seq!['M', 'B']
    } else if size >= KILO {
        one_decimal(tenths(size, KILO as nat)) + seq!['K', 'B']
    } else {
        decimal(size) + seq!['B']
    }
}

fn rounded_tenths(size: u64, unit: u64) -> (t: u64)
    requires
        unit == KILO || unit == MEGA || unit == GIGA,
    ensures
        t == tenths(size as nat, unit as nat),
{
    let q0 = size / unit;
    let r0 = size % unit;
    assert(q0 <= u64::MAX / 1024) by (nonlinear_arith)
        requires
            q0 == size / unit,
            unit >= 1024,
    ;
    let a = (r0 * 10) / unit;
    let b = (r0 * 10) % unit;
    let q = q0 * 10 + a;
    proof {
        let s = size as int;
        let u = unit as int;
        assert(s == q0 * u + r0) by (nonlinear_arith)
            requires
                q0 == s / u,
                r0 == s % u,
                u > 0,
        ;
        assert(r0 * 10 == a * u + b) by (nonlinear_arith)
            requires
                a == (r0 * 10) / u,
                b == (r0 * 10) % u,
                u > 0,
        ;
        assert(s * 10 == q * u + b) by (nonlinear_arith)
            requires
                s == q0 * u + r0,
                r0 * 10 == a * u + b,
                q == q0 * 10 + a,
        ;
        lemma_fundamental_div_mod_converse(s * 10, u, q as int, b as int);
    }
    if b * 2 > unit || (b * 2 == unit && q % 2 == 1) {
        q + 1
    } else {
        q
    }
}

fn push_one_decimal(s: &mut String, t: u64)
    ensures
        final(s)@ == old(s)@ + one_decimal(t as nat),
{
    push_decimal(s, t / 10);
    push_char(s, '.');
    push_decimal(s, t % 10);
    proof {
        assert(decimal((t % 10) as nat) == seq![digit_char((t % 10) as nat)]);
        assert(final(s)@ =~= old(s)@ + one_decimal(t as nat));
    }
}

/// Formats a byte count: `"500B"`, `"1.0KB"`, `"1.5MB"`, `"1.0GB"`.
pub fn format_size(size: u64) -> (r: String)
    ensures
        r@ == size_text(size as nat),
{
    let mut out = String::new();
    if size >= GIGA {
        push_one_decimal(&mut out, rounded_tenths(size, GIGA));
        push_str(&mut out, "GB");
    } else if size >= MEGA {
        push_one_decimal(&mut out, rounded_tenths(size, MEGA));
        push_str(&mut out, "MB");
    } else if size >= KILO {
        push_one_decimal(&mut out, rounded_tenths(size, KILO));
        push_str(&mut out, "KB");
    } else {
        push_decimal(&mut out, size);
        push_str(&mut out, "B");
    }
    proof {
        reveal_strlit("GB");
        reveal_strlit("MB");
        reveal_strlit("KB");
        reveal_strlit("B");
        assert(out@ =~= size_text(size as nat));
    }
    out
}

/// `on` when any bit of `mask` is set in `mode`, else `-`.
pub open spec fn perm_char(mode: u32, mask: u32, on: char) -> char {
    if mode & mask != 0 {
        on
    } else {
        '-'
    }
}

/// The ten-character permission string of a Unix mode: `d` for a
/// directory, then read, write and execute for owner, group and others.
pub open spec fn perm_text(mode: u32) -> Seq<char> {
    seq![
        if mode & 0o170000 == 0o040000 {
            'd'
        } else {
            '-'
        },
        perm_char(mode, 0o400, 'r'),
        perm_char(mode, 0o200, 'w'),
        perm_char(mode, 0o100, 'x'),
        perm_char(mode, 0o040, 'r'),
        perm_char(mode, 0o020, 'w'),
        perm_char(mode, 0o010, 'x'),
        perm_char(mode, 0o004, 'r'),
        perm_char(mode, 0o002, 'w'),
        perm_char(mode, 0o001, 'x'),
    ]
}

fn mode_char(mode: u32, mask: u32, on: char) -> (c: char)
    ensures
        c == perm_char(mode, mask, on),
{
    if mode & mask != 0 {
        on
    } else {
        '-'
    }
}

/// Writes the permission string of `mode`.
pub fn perms_to_string(mode: u32) -> (r: String)
    ensures
        r@ == perm_text(mode),
        r@.len() == 10,
        r@[0] == 'd' || r@[0] == '-',
        forall|i: int| 1 <= i < 10 && i % 3 == 1 ==> r@[i] == 'r' || r@[i] == '-',
        forall|i: int| 1 <= i < 10 && i % 3 == 2 ==> r@[i] == 'w' || r@[i] == '-',
        forall|i: int| 1 <= i < 10 && i % 3 == 0 ==> r@[i] == 'x' || r@[i] == '-',
{
    let mut perms = String::new();
    push_char(&mut perms, if mode & 0o170000 == 0o040000 { 'd' } else { '-' });
    push_char(&mut perms, mode_char(mode, 0o400, 'r'));
    push_char(&mut perms, mode_char(mode, 0o200, 'w'));
    push_char(&mut perms, mode_char(mode, 0o100, 'x'));
    push_char(&mut perms, mode_char(mode, 0o040, 'r'));
    push_char(&mut perms, mode_char(mode, 0o020, 'w'));
    push_char(&mut perms, mode_char(mode, 0o010, 'x'));
    push_char(&mut perms, mode_char(mode, 0o004, 'r'));
    push_char(&mut perms, mode_char(mode, 0o002, 'w'));
    push_char(&mut perms, mode_char(mode, 0o001, 'x'));
    proof {
        assert(perms@ =~= perm_text(mode));
    }
    perms
}

} // verus!
