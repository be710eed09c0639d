//! DRM four-character format codes and format modifiers.
use vstd::prelude::*;

verus! {

/// The little-endian four-character code of the four given bytes.
pub open spec fn fourcc_spec(a: u8, b: u8, c: u8, d: u8) -> int {
    a as int + b as int * 0x100 + c as int * 0x1_0000 + d as int * 0x100_0000
}

/// Packs four characters into a DRM format code, the first in the lowest byte.
pub fn fourcc_code(a: u8, b: u8, c: u8, d: u8) -> (r: u32)
    ensures
        r as int == fourcc_spec(a, b, c, d),
{
    let r: u32 = (a as u32) | (b as u32) << 8u32 | (c as u32) << 16u32 | (d as u32) << 24u32;
    assert(r == (a as u32) + (b as u32) * 0x100 + (c as u32) * 0x1_0000 + (d as u32) * 0x100_0000)
        by (bit_vector)
        requires
            r == (a as u32) | (b as u32) << 8u32 | (c as u32) << 16u32 | (d as u32) << 24u32,
            a < 256u32, b < 256u32, c < 256u32, d < 256u32,
    ;
    r
}

/// Builds a format modifier from a vendor code (its top byte) and a value
/// (its low 56 bits).
pub fn fourcc_mod_code(vendor: u64, val: u64) -> (r: u64)
    ensures
        r as int == (vendor as int % 0x100) * 0x100_0000_0000_0000 + val as int % 0x100_0000_0000_0000,
{
    let r = (vendor << 56u64) | (val & 0x00ff_ffff_ffff_ffffu64);
    assert(r == (vendor % 0x100) * 0x100_0000_0000_0000 + val % 0x100_0000_0000_0000) by (bit_vector)
        requires
            r == (vendor << 56u64) | (val & 0x00ff_ffff_ffff_ffffu64),
    ;
    r
}

/// `XR24`: 32-bit pixels, blue in the lowest byte, the top byte unused.
pub const DRM_FORMAT_XRGB8888: u32 = 0x3432_5258;

pub const DRM_FORMAT_MOD_VENDOR_NONE: u64 = 0;

/// The linear layout: rows one after another, no tiling.
pub const DRM_FORMAT_MOD_LINEAR: u64 = 0;

/// The lowercase hexadecimal digit of `d`.
pub open spec fn hex_digit(d: nat) -> char {
    if d < 10 {
        (d + '0' as nat) as char
    } else {
        (d - 10 + 'a' as nat) as char
    }
}

/// The `n` lowest hexadecimal digits of `v`, most significant first.
pub open spec fn hex_digits(v: nat, n: nat) -> Seq<char>
    decreases n,
{
    if n == 0 {
        Seq::empty()
    } else {
        hex_digits(v / 16, (n - 1) as nat).push(hex_digit(v % 16))
    }
}

fn hex_digit_str(d: u64) -> (r: &'static str)
    requires
        d < 16,
    ensures
        r@ == seq![hex_digit(d as nat)],
{
    proof {
        reveal_strlit("0"); reveal_strlit("1"); reveal_strlit("2"); reveal_strlit("3");
        reveal_strlit("4"); reveal_strlit("5"); reveal_strlit("6"); reveal_strlit("7");
        reveal_strlit("8"); reveal_strlit("9"); reveal_strlit("a"); reveal_strlit("b");
        reveal_strlit("c"); reveal_strlit("d"); reveal_strlit("e"); reveal_strlit("f");
    }
    match d {
        0 => "0", 1 => "1", 2 => "2", 3 => "3", 4 => "4", 5 => "5", 6 => "6", 7 => "7",
        8 => "8", 9 => "9", 10 => "a", 11 => "b", 12 => "c", 13 => "d", 14 => "e",
        _ => "f",
    }
}

fn hex_digits_exec(v: u64, n: u64) -> (r: String)
    ensures
        r@ == hex_digits(v as nat, n as nat),
    decreases n,
{
    if n == 0 {
        String::new()
    } else {
        let mut r = hex_digits_exec(v / 16, n - 1);
        r.append(hex_digit_str(v % 16));
        r
    }
}

/// A modifier as sixteen lowercase hexadecimal digits, zero padded.
pub fn fmt_modifier(drm_format_modifier: u64) -> (r: String)
    ensures
        r@ == hex_digits(drm_format_modifier as nat, 16),
{
    hex_digits_exec(drm_format_modifier, 16)
}

} // verus!
