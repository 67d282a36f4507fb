use vstd::prelude::*;

use crate::ONE;

verus! {

/// An opaque colour with one byte per channel (0 is none, 255 is full).
#[derive(Clone, Copy, Debug, PartialEq, Eq, Structural)]
pub struct Rgb {
    pub red: u8,
    pub green: u8,
    pub blue: u8,
}

impl Rgb {
    pub fn new(red: u8, green: u8, blue: u8) -> (r: Rgb)
        ensures
            r == (Rgb { red, green, blue }),
    {
        Rgb { red, green, blue }
    }
}

/// Mixes `new` over `old` with weight `brightness / ONE`, clamps the sum to the
/// channel's range and truncates: `clamp(old·(1−b) + new·b, 0, 255)`.
pub open spec fn blend_channel_spec(old: int, new: int, brightness: int) -> int {
    let mixed = old * (ONE - brightness) + new * brightness;
    if mixed < 0 {
        0
    } else if mixed > 255 * ONE {
        255
    } else {
        mixed / (ONE as int)
    }
}

pub fn blend_channel(old: u8, new: u8, brightness: i64) -> (r: u8)
    ensures
        r == blend_channel_spec(old as int, new as int, brightness as int),
{
    let b = brightness as i128;
    let one = ONE as i128;
    let keep = one - b;
    assert(-(0x8000_0000_0000_0000int) <= b <= 0x7fff_ffff_ffff_ffffint);
    assert(0 <= old as i128 * keep <= 255 * keep || 255 * keep <= old as i128 * keep <= 0)
        by (nonlinear_arith)
        requires
            0 <= old <= 255,
    ;
    assert(0 <= new as i128 * b <= 255 * b || 255 * b <= new as i128 * b <= 0) by (nonlinear_arith)
        requires
            0 <= new <= 255,
    ;
    let mixed: i128 = (old as i128) * keep + (new as i128) * b;
    if mixed < 0 {
        0
    } else if mixed > 255 * one {
        255
    } else {
        assert(mixed / one <= 255) by (nonlinear_arith)
            requires
                0 <= mixed <= 255 * one,
                one == ONE,
        ;
        (mixed / one) as u8
    }
}

/// A brightness of full weight replaces the channel.
pub proof fn lemma_blend_full(old: int, new: int)
    requires
        0 <= old <= 255,
        0 <= new <= 255,
    ensures
        blend_channel_spec(old, new, ONE as int) == new,
{
    assert(new * ONE / (ONE as int) == new) by (nonlinear_arith);
}

/// A brightness of zero keeps the channel.
pub proof fn lemma_blend_none(old: int, new: int)
    requires
        0 <= old <= 255,
        0 <= new <= 255,
    ensures
        blend_channel_spec(old, new, 0) == old,
{
    assert(old * ONE / (ONE as int) == old) by (nonlinear_arith);
}

} // verus!
