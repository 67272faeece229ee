use vstd::prelude::*;

verus! {

/// An RGBA color. Each channel is stored in thousandths of a unit:
/// 0 is 0.0 and 1000 is 1.0.
#[derive(Clone, Copy, PartialEq, Eq, Structural, Debug)]
pub struct Rgba {
    pub r: i32,
    pub g: i32,
    pub b: i32,
    pub a: i32,
}

impl Rgba {
    /// Every channel lies in the unit range.
    pub open spec fn wf(self) -> bool {
        &&& 0 <= self.r <= 1000
        &&& 0 <= self.g <= 1000
        &&& 0 <= self.b <= 1000
        &&& 0 <= self.a <= 1000
    }

    pub fn new(r: i32, g: i32, b: i32, a: i32) -> (c: Rgba)
        ensures
            c == (Rgba { r, g, b, a }),
    {
        Rgba { r, g, b, a }
    }
}

/// One channel of a linear interpolation from `c` toward `s` by the blend
/// factor `t` (in thousandths), written so that every division has a
/// non-negative dividend.
pub open spec fn spec_blend_channel(c: int, s: int, t: int) -> int {
    if s >= c {
        c + ((s - c) * t) / 1000
    } else {
        c - ((c - s) * t) / 1000
    }
}

/// Linear interpolation from `c` toward `s` by `t` thousandths, channel by
/// channel.
pub open spec fn spec_blend(c: Rgba, s: Rgba, t: int) -> Rgba {
    Rgba {
        r: spec_blend_channel(c.r as int, s.r as int, t) as i32,
        g: spec_blend_channel(c.g as int, s.g as int, t) as i32,
        b: spec_blend_channel(c.b as int, s.b as int, t) as i32,
        a: spec_blend_channel(c.a as int, s.a as int, t) as i32,
    }
}

pub proof fn lemma_blend_channel_range(c: int, s: int, t: int)
    requires
        0 <= c <= 1000,
        0 <= s <= 1000,
        0 <= t <= 1000,
    ensures
        0 <= spec_blend_channel(c, s, t) <= 1000,
{
    if s >= c {
        assert(0 <= ((s - c) * t) / 1000 <= s - c) by (nonlinear_arith)
            requires 0 <= s - c <= 1000 && 0 <= t <= 1000;
    } else {
        assert(0 <= ((c - s) * t) / 1000 <= c - s) by (nonlinear_arith)
            requires 0 <= c - s <= 1000 && 0 <= t <= 1000;
    }
}

fn blend_channel(c: i32, s: i32, t: i32) -> (r: i32)
    requires
        0 <= c <= 1000,
        0 <= s <= 1000,
        0 <= t <= 1000,
    ensures
        r == spec_blend_channel(c as int, s as int, t as int),
        0 <= r <= 1000,
{
    proof {
        lemma_blend_channel_range(c as int, s as int, t as int);
    }
    if s >= c {
        c + ((s - c) * t) / 1000
    } else {
        c - ((c - s) * t) / 1000
    }
}

/// Blend two colors: the result is `c` moved toward `s` by `t` thousandths.
pub fn blend(c: Rgba, s: Rgba, t: i32) -> (r: Rgba)
    requires
        c.wf(),
        s.wf(),
        0 <= t <= 1000,
    ensures
        r == spec_blend(c, s, t as int),
        r.wf(),
{
    Rgba {
        r: blend_channel(c.r, s.r, t),
        g: blend_channel(c.g, s.g, t),
        b: blend_channel(c.b, s.b, t),
        a: blend_channel(c.a, s.a, t),
    }
}

} // verus!
