//! Packed colours of the form `high << 16 | mid << 8 | low`, and their
//! shading by a signed amount per channel.
use vstd::prelude::*;

verus! {

/// The part of a packed colour above bit 16 (an arithmetic shift: it keeps
/// any bits above the usual 24 and the sign).
pub open spec fn high_channel(col: i32) -> int {
    col as int / 0x10000
}

/// Bits 8 to 15 of a packed colour.
pub open spec fn mid_channel(col: i32) -> int {
    (col as int / 0x100) % 0x100
}

/// Bits 0 to 7 of a packed colour.
pub open spec fn low_channel(col: i32) -> int {
    col as int % 0x100
}

/// A channel value forced into `0..=255`.
pub open spec fn clamp_channel(v: int) -> int {
    if v > 255 {
        255
    } else if v < 0 {
        0
    } else {
        v
    }
}

/// The packed colour with the three given channels.
pub open spec fn pack_channels(high: int, mid: int, low: int) -> int {
    high * 0x10000 + mid * 0x100 + low
}

/// Shading a colour by `amt` adds `amt` to each channel and clamps it.
pub open spec fn shaded(col: i32, amt: i32) -> int {
    pack_channels(
        clamp_channel(high_channel(col) + amt),
        clamp_channel(mid_channel(col) + amt),
        clamp_channel(low_channel(col) + amt),
    )
}

/// `amt` can be added to each channel of `col` without leaving `i32`.
pub open spec fn shade_fits(col: i32, amt: i32) -> bool {
    &&& i32::MIN <= high_channel(col) + amt <= i32::MAX
    &&& mid_channel(col) + amt <= i32::MAX
    &&& low_channel(col) + amt <= i32::MAX
}

proof fn lemma_channels_by_shifts(col: i32)
    ensures
        (col >> 16u32) as int == high_channel(col),
        ((col >> 8u32) & 0xFF) as int == mid_channel(col),
        (col & 0xFF) as int == low_channel(col),
{
    assert((col >> 16u32) as int == col as int / 0x10000) by (bit_vector);
    assert(((col >> 8u32) & 0xFF) as int == (col as int / 0x100) % 0x100) by (bit_vector);
    assert((col & 0xFF) as int == col as int % 0x100) by (bit_vector);
}

proof fn lemma_pack_by_or(high: i32, mid: i32, low: i32)
    requires
        0 <= high <= 255,
        0 <= mid <= 255,
        0 <= low <= 255,
    ensures
        (low | (mid << 8u32) | (high << 16u32)) as int == pack_channels(high as int, mid as int, low as int),
{
    assert((low | (mid << 8u32) | (high << 16u32)) as int == high as int * 0x10000 + mid as int * 0x100
        + low as int) by (bit_vector)
        requires
            0 <= high <= 255,
            0 <= mid <= 255,
            0 <= low <= 255,
    ;
}

/// Lightens (positive `amt`) or darkens (negative `amt`) a packed colour:
/// each of its three channels is moved by `amt` and clamped to `0..=255`.
pub fn lighten_darken_color(col: i32, amt: i32) -> (res: i32)
    requires
        shade_fits(col, amt),
    ensures
        res as int == shaded(col, amt),
{
    proof {
        lemma_channels_by_shifts(col);
    }
    let mut r = (col >> 16u32) + amt;
    if r > 255 {
        r = 255
    } else if r < 0 {
        r = 0
    };
    let mut b = ((col >> 8u32) & 0x00FF) + amt;
    if b > 255 {
        b = 255
    } else if b < 0 {
        b = 0
    };
    let mut g = (col & 0x0000FF) + amt;
    if g > 255 {
        g = 255
    } else if g < 0 {
        g = 0
    }
    proof {
        lemma_pack_by_or(r, b, g);
    }
    g | (b << 8u32) | (r << 16u32)
}

/// Packing three channels in `0..=255` and reading them back gives the same
/// channels.
pub proof fn lemma_pack_channels_round_trip(high: int, mid: int, low: int)
    requires
        0 <= high <= 255,
        0 <= mid <= 255,
        0 <= low <= 255,
    ensures
        pack_channels(high, mid, low) == high * 0x10000 + mid * 0x100 + low,
        0 <= pack_channels(high, mid, low) <= 0xFFFFFF,
        pack_channels(high, mid, low) / 0x10000 == high,
        (pack_channels(high, mid, low) / 0x100) % 0x100 == mid,
        pack_channels(high, mid, low) % 0x100 == low,
{
    let p = pack_channels(high, mid, low);
    assert(0 <= p <= 0xFFFFFF && p / 0x10000 == high && (p / 0x100) % 0x100 == mid && p % 0x100
        == low) by (nonlinear_arith)
        requires
            0 <= high <= 255,
            0 <= mid <= 255,
            0 <= low <= 255,
            p == high * 0x10000 + mid * 0x100 + low,
    ;
}

/// A shaded colour is a 24-bit colour, and each of its three bytes is the
/// matching part of the input (bits 16 and up, bits 8 to 15, bits 0 to 7)
/// plus `amt`, kept as it is where that lies in `0..=255`, else 255 above and
/// 0 below.
pub proof fn lemma_shaded_channels(col: i32, amt: i32)
    ensures
        0 <= shaded(col, amt) <= 0xFFFFFF,
        ({
            let r = shaded(col, amt);
            let h = col as int / 0x10000 + amt;
            &&& 0 <= h <= 255 ==> r / 0x10000 == h
            &&& h > 255 ==> r / 0x10000 == 255
            &&& h < 0 ==> r / 0x10000 == 0
        }),
        ({
            let r = shaded(col, amt);
            let m = (col as int / 0x100) % 0x100 + amt;
            &&& 0 <= m <= 255 ==> (r / 0x100) % 0x100 == m
            &&& m > 255 ==> (r / 0x100) % 0x100 == 255
            &&& m < 0 ==> (r / 0x100) % 0x100 == 0
        }),
        ({
            let r = shaded(col, amt);
            let l = col as int % 0x100 + amt;
            &&& 0 <= l <= 255 ==> r % 0x100 == l
            &&& l > 255 ==> r % 0x100 == 255
            &&& l < 0 ==> r % 0x100 == 0
        }),
{
    lemma_pack_channels_round_trip(
        clamp_channel(high_channel(col) + amt),
        clamp_channel(mid_channel(col) + amt),
        clamp_channel(low_channel(col) + amt),
    );
}

/// Shading a 24-bit colour by 0 leaves it as it is.
pub proof fn lemma_shade_by_zero(col: i32)
    requires
        0 <= col <= 0xFFFFFF,
    ensures
        shaded(col, 0) == col,
{
    let c = col as int;
    assert(0 <= c / 0x10000 <= 255 && 0 <= (c / 0x100) % 0x100 <= 255 && 0 <= c % 0x100 <= 255
        && (c / 0x10000) * 0x10000 + ((c / 0x100) % 0x100) * 0x100 + c % 0x100 == c)
        by (nonlinear_arith)
        requires
            0 <= c <= 0xFFFFFF,
    ;
}

/// Shading is monotone in the amount: a larger amount never gives a darker
/// byte of the result.
pub proof fn lemma_shade_monotone(col: i32, a1: i32, a2: i32)
    requires
        a1 <= a2,
    ensures
        shaded(col, a1) / 0x10000 <= shaded(col, a2) / 0x10000,
        (shaded(col, a1) / 0x100) % 0x100 <= (shaded(col, a2) / 0x100) % 0x100,
        shaded(col, a1) % 0x100 <= shaded(col, a2) % 0x100,
{
    lemma_shaded_channels(col, a1);
    lemma_shaded_channels(col, a2);
}

} // verus!
