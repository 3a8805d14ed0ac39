//! Formatting of unsigned integers as decimal and hexadecimal ASCII bytes,
//! with exact byte-level specifications. Used for breakpad build-id strings
//! and for the hex fields of the symbolication response.

use vstd::prelude::*;

verus! {

/// ASCII code of the lowercase hex digit for `d` (`0 <= d < 16`).
pub open spec fn hex_digit_lower(d: int) -> u8 {
    if d < 10 {
        (48 + d) as u8
    } else {
        (87 + d) as u8
    }
}

/// ASCII code of the uppercase hex digit for `d` (`0 <= d < 16`).
pub open spec fn hex_digit_upper(d: int) -> u8 {
    if d < 10 {
        (48 + d) as u8
    } else {
        (55 + d) as u8
    }
}

/// Minimal-width lowercase hex form of `v` (at least one digit).
pub open spec fn hex_bytes_lower(v: int) -> Seq<u8>
    decreases v,
{
    if v < 16 {
        seq![hex_digit_lower(if v < 0 { 0 } else { v % 16 })]
    } else {
        hex_bytes_lower(v / 16).push(hex_digit_lower(v % 16))
    }
}

/// Minimal-width uppercase hex form of `v` (at least one digit).
pub open spec fn hex_bytes_upper(v: int) -> Seq<u8>
    decreases v,
{
    if v < 16 {
        seq![hex_digit_upper(if v < 0 { 0 } else { v % 16 })]
    } else {
        hex_bytes_upper(v / 16).push(hex_digit_upper(v % 16))
    }
}

/// Zero-padded uppercase hex form of `v` with exactly `width` digits.
pub open spec fn hex_bytes_fixed_upper(v: int, width: nat) -> Seq<u8>
    decreases width,
{
    if width == 0 {
        Seq::empty()
    } else {
        hex_bytes_fixed_upper(v / 16, (width - 1) as nat).push(hex_digit_upper(v % 16))
    }
}

/// Decimal form of `v` (at least one digit).
pub open spec fn dec_bytes(v: int) -> Seq<u8>
    decreases v,
{
    if v < 10 {
        seq![(48 + if v < 0 { 0 } else { v % 10 }) as u8]
    } else {
        dec_bytes(v / 10).push((48 + v % 10) as u8)
    }
}

/// Appends the minimal lowercase hex form of `v`.
pub fn push_hex_lower(out: &mut Vec<u8>, v: u64)
    ensures
        final(out)@ =~= old(out)@ + hex_bytes_lower(v as int),
    decreases v,
{
    if v < 16 {
        let d = v as u8;
        out.push(if d < 10 { 48 + d } else { 87 + d });
    } else {
        push_hex_lower(out, v / 16);
        let d = (v % 16) as u8;
        out.push(if d < 10 { 48 + d } else { 87 + d });
    }
}

/// Appends the zero-padded uppercase hex form of `v`, `width` digits wide.
pub fn push_hex_fixed_upper(out: &mut Vec<u8>, v: u64, width: usize)
    ensures
        final(out)@ =~= old(out)@ + hex_bytes_fixed_upper(v as int, width as nat),
    decreases width,
{
    if width > 0 {
        push_hex_fixed_upper(out, v / 16, width - 1);
        let d = (v % 16) as u8;
        out.push(if d < 10 { 48 + d } else { 55 + d });
    }
}

/// Appends the minimal uppercase hex form of `v`.
pub fn push_hex_upper(out: &mut Vec<u8>, v: u64)
    ensures
        final(out)@ =~= old(out)@ + hex_bytes_upper(v as int),
    decreases v,
{
    if v < 16 {
        let d = v as u8;
        out.push(if d < 10 { 48 + d } else { 55 + d });
    } else {
        push_hex_upper(out, v / 16);
        let d = (v % 16) as u8;
        out.push(if d < 10 { 48 + d } else { 55 + d });
    }
}

/// Appends the decimal form of `v`.
pub fn push_dec(out: &mut Vec<u8>, v: u64)
    ensures
        final(out)@ =~= old(out)@ + dec_bytes(v as int),
    decreases v,
{
    if v < 10 {
        out.push(48 + v as u8);
    } else {
        push_dec(out, v / 10);
        out.push(48 + (v % 10) as u8);
    }
}

/// `0x`-prefixed minimal lowercase hex form, as the response serializes
/// offsets and sizes.
pub open spec fn hex_str_bytes(v: int) -> Seq<u8> {
    seq![48u8, 120u8] + hex_bytes_lower(v)
}

/// Builds the `0x`-prefixed lowercase hex form of `v`.
pub fn hex_str(v: u64) -> (r: Vec<u8>)
    ensures
        r@ =~= hex_str_bytes(v as int),
{
    let mut out: Vec<u8> = Vec::new();
    out.push(48);
    out.push(120);
    push_hex_lower(&mut out, v);
    out
}

/// Every byte that `dec_bytes` emits is an ASCII digit.
pub proof fn lemma_dec_bytes_digits(v: int)
    ensures
        forall|i: int| 0 <= i < dec_bytes(v).len() ==> 48 <= #[trigger] dec_bytes(v)[i] <= 57,
        dec_bytes(v).len() >= 1,
    decreases v,
{
    if v >= 10 {
        lemma_dec_bytes_digits(v / 10);
        assert forall|i: int| 0 <= i < dec_bytes(v).len() implies 48 <= #[trigger] dec_bytes(
            v,
        )[i] <= 57 by {
            if i < dec_bytes(v / 10).len() {
                assert(dec_bytes(v)[i] == dec_bytes(v / 10)[i]);
            }
        }
    }
}

} // verus!
