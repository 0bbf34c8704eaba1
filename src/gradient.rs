use vstd::prelude::*;

verus! {

/// A color as red, green and blue intensities.
#[derive(Clone, Copy, Debug, PartialEq, Eq, Structural)]
pub struct Rgb {
    pub red: u8,
    pub green: u8,
    pub blue: u8,
}

/// The gray with intensity `v` in each channel.
pub open spec fn gray(v: u8) -> Rgb {
    Rgb { red: v, green: v, blue: v }
}

/// The gradient index of `v` within the range `lo..=hi`: `round(255 * (v - lo) / (hi - lo))`,
/// rounding halves up, clamped to `0..=255`. A range with `hi <= lo` has no
/// extent, and every value then takes index 0.
pub open spec fn heat_index(v: u8, lo: u8, hi: u8) -> int {
    if hi <= lo || v <= lo {
        0
    } else if v >= hi {
        255
    } else {
        (2 * 255 * (v - lo) + (hi - lo)) / (2 * (hi - lo))
    }
}

/// Builds the grayscale table: 256 entries, entry `i` being the gray `(i, i, i)`.
pub fn create_gradient() -> (r: Vec<Rgb>)
    ensures
        r@.len() == 256,
        forall|i: int| 0 <= i < 256 ==> r@[i] == gray(i as u8),
        forall|i: int, j: int|
            0 <= i <= j < 256 ==> r@[i].red <= r@[j].red && r@[i].green <= r@[j].green
                && r@[i].blue <= r@[j].blue,
{
    let mut gradient: Vec<Rgb> = Vec::new();
    let mut value: u16 = 0;
    while value < 256
        invariant
            value <= 256,
            gradient@.len() == value,
            forall|i: int| 0 <= i < value ==> gradient@[i] == gray(i as u8),
        decreases 256 - value,
    {
        let v = value as u8;
        gradient.push(Rgb { red: v, green: v, blue: v });
        value = value + 1;
    }
    gradient
}

/// Scales `v` into the gradient's index space for the range `lo..=hi`
/// (see `heat_index`). Within a proper range the lowest value alone takes
/// index 0 and the highest value alone takes index 255.
pub fn scale_index(v: u8, lo: u8, hi: u8) -> (r: u8)
    ensures
        r == heat_index(v, lo, hi),
        lo < hi && lo <= v <= hi ==> (r == 0 <==> v == lo) && (r == 255 <==> v == hi),
{
    if hi <= lo || v <= lo {
        0
    } else if v >= hi {
        255
    } else {
        let span: u32 = (hi - lo) as u32;
        let offset: u32 = (v - lo) as u32;
        assert(offset < span <= 255);
        assert(2 * 255 * offset + span <= 2 * 255 * 255 + 255) by (nonlinear_arith)
            requires
                offset <= 255,
                span <= 255,
        ;
        let q: u32 = (2 * 255 * offset + span) / (2 * span);
        assert(1 <= q <= 254) by (nonlinear_arith)
            requires
                q == (2 * 255 * offset + span) / (2 * span),
                0 < offset < span,
                span <= 255,
        {
            assert(2 * 255 * offset + span >= 2 * span);
            assert(2 * 255 * offset + span < 255 * (2 * span));
        }
        q as u8
    }
}

} // verus!
