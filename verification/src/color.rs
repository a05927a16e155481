//! Colours, the distance between two of them, and the rule that pushes the
//! colours of the glyph's parts apart.

use crate::pattern::Part;
use num::cast::AsPrimitive;
use vstd::prelude::*;

verus! {

/// One pixel: red, green, blue and alpha, eight bits each.
#[derive(Clone, Copy, Debug, PartialEq, Eq, Structural)]
pub struct Color {
    pub red: u8,
    pub green: u8,
    pub blue: u8,
    pub alpha: u8,
}

impl Color {
    /// The channel at byte position `index` of a pixel: red, green, blue,
    /// and alpha for every other position.
    pub open spec fn channel(self, index: int) -> u8 {
        if index == 0 {
            self.red
        } else if index == 1 {
            self.green
        } else if index == 2 {
            self.blue
        } else {
            self.alpha
        }
    }

    /// The same red, green and blue, fully opaque.
    pub open spec fn opaque(self) -> Color {
        Color { alpha: 255, ..self }
    }
}

/// The colour painted for each part of the glyph.
#[derive(Clone, Copy, Debug, PartialEq, Eq, Structural)]
pub struct Palette {
    pub rest: Color,
    pub body: Color,
    pub face: Color,
}

impl Palette {
    /// The colour of `part`.
    pub open spec fn of(self, part: Part) -> Color {
        match part {
            Part::Rest => self.rest,
            Part::Body => self.body,
            Part::Face => self.face,
        }
    }

    /// The colour of `part`.
    pub fn get(&self, part: Part) -> (color: Color)
        ensures
            color == self.of(part),
    {
        match part {
            Part::Rest => self.rest,
            Part::Body => self.body,
            Part::Face => self.face,
        }
    }
}

/// How far two channel values lie apart.
pub open spec fn gap(a: int, b: int) -> int {
    if a >= b {
        a - b
    } else {
        b - a
    }
}

/// The distance of two colours: the mean over red, green and blue of how
/// far the channels lie apart, rounded down. Alpha plays no part.
pub open spec fn distance(a: Color, b: Color) -> int {
    (gap(a.red as int, b.red as int) + gap(a.green as int, b.green as int) + gap(
        a.blue as int,
        b.blue as int,
    )) / 3
}

/// `value`, or the nearer end of the range of a channel where it lies
/// outside.
pub open spec fn clamped(value: int) -> int {
    if value < 0 {
        0
    } else if value > 255 {
        255
    } else {
        value
    }
}

/// `color` with `by` added to red, green and blue, each kept inside the
/// range of a channel, fully opaque.
pub open spec fn pushed(color: Color, by: int) -> Color {
    Color {
        red: clamped(color.red + by) as u8,
        green: clamped(color.green + by) as u8,
        blue: clamped(color.blue + by) as u8,
        alpha: 255,
    }
}

/// How far the parts are pushed apart in one stamp: `contrast`, plus the
/// drawn number reduced modulo `noise` where `noise` is positive.
pub open spec fn jitter_offset(contrast: int, noise: int, drawn: int) -> int {
    if noise > 0 {
        contrast + drawn % noise
    } else {
        contrast
    }
}

/// The colours painted, given the mean colour under each part. A body
/// whose mean is closer to the rest than `offset * offset` becomes the rest
/// pushed down by `offset`. A face whose mean is closer to the mean of the
/// body than `offset * offset` becomes the rest pushed up by `offset`,
/// whatever became of the body.
pub open spec fn separated(means: Palette, offset: int) -> Palette {
    let body = if distance(means.rest, means.body) < offset * offset {
        pushed(means.rest, -offset)
    } else {
        means.body
    };
    let face = if distance(means.face, means.body) < offset * offset {
        pushed(means.rest, offset)
    } else {
        means.face
    };
    Palette { rest: means.rest, body, face }
}

/// Means that lie close together are pushed apart: a body mean closer to
/// the rest than `offset * offset` is painted as the rest less `offset`, a
/// face mean closer to the body mean than `offset * offset` as the rest
/// plus `offset`, each channel kept between 0 and 255; the rest keeps its
/// mean. Neither test reads what the other has done.
pub proof fn lemma_close_means_are_pushed_apart(means: Palette, offset: int)
    ensures
        separated(means, offset).rest == means.rest,
        distance(means.rest, means.body) < offset * offset ==> separated(means, offset).body
            == pushed(means.rest, -offset),
        distance(means.rest, means.body) >= offset * offset ==> separated(means, offset).body
            == means.body,
        distance(means.face, means.body) < offset * offset ==> separated(means, offset).face
            == pushed(means.rest, offset),
        distance(means.face, means.body) >= offset * offset ==> separated(means, offset).face
            == means.face,
        pushed(means.rest, offset).red == clamped(means.rest.red + offset),
        pushed(means.rest, offset).green == clamped(means.rest.green + offset),
        pushed(means.rest, offset).blue == clamped(means.rest.blue + offset),
        pushed(means.rest, -offset).red == clamped(means.rest.red - offset),
        pushed(means.rest, -offset).green == clamped(means.rest.green - offset),
        pushed(means.rest, -offset).blue == clamped(means.rest.blue - offset),
{
}

/// `AsPrimitive::<i32>::as_` of `num` on a `u8`: the cast to `i32`, which
/// keeps the value of every `u8`.
#[verifier::external_body]
fn as_i32(value: u8) -> (wide: i32)
    ensures
        wide == value,
{
    value.as_()
}

fn channel_gap(a: u8, b: u8) -> (apart: i32)
    ensures
        apart == gap(a as int, b as int),
{
    let difference = as_i32(a) - as_i32(b);
    if difference < 0 {
        -difference
    } else {
        difference
    }
}

/// The distance of two colours.
pub fn se(a: &Color, b: &Color) -> (error: u32)
    ensures
        error == distance(*a, *b),
        error <= 255,
{
    let error: i32 = channel_gap(a.red, b.red) + channel_gap(a.green, b.green) + channel_gap(
        a.blue,
        b.blue,
    );
    (error / 3) as u32
}

fn push_channel(value: u8, by: i128) -> (moved: u8)
    requires
        -0x1_0000_0000_0000_0000 <= by <= 0x1_0000_0000_0000_0000,
    ensures
        moved == clamped(value + by),
{
    let sum = value as i128 + by;
    if sum < 0 {
        0
    } else if sum > 255 {
        255
    } else {
        sum as u8
    }
}

fn push(color: Color, by: i128) -> (moved: Color)
    requires
        -0x1_0000_0000_0000_0000 <= by <= 0x1_0000_0000_0000_0000,
    ensures
        moved == pushed(color, by as int),
{
    Color {
        red: push_channel(color.red, by),
        green: push_channel(color.green, by),
        blue: push_channel(color.blue, by),
        alpha: 255,
    }
}

/// How far the parts are pushed apart in one stamp.
pub fn offset_of(contrast: i32, noise: u32, drawn: u32) -> (offset: i64)
    ensures
        offset == jitter_offset(contrast as int, noise as int, drawn as int),
{
    if noise > 0 {
        contrast as i64 + (drawn % noise) as i64
    } else {
        contrast as i64
    }
}

/// The colours painted, given the mean colour under each part.
pub fn separate(means: Palette, offset: i64) -> (palette: Palette)
    ensures
        palette == separated(means, offset as int),
{
    let wide = offset as i128;
    assert(0 <= wide * wide <= 0x4000_0000_0000_0000_0000_0000_0000_0000) by (nonlinear_arith)
        requires
            -0x8000_0000_0000_0000 <= wide <= 0x8000_0000_0000_0000,
    ;
    let square = wide * wide;
    let body = if (se(&means.rest, &means.body) as i128) < square {
        push(means.rest, -wide)
    } else {
        means.body
    };
    let face = if (se(&means.face, &means.body) as i128) < square {
        push(means.rest, wide)
    } else {
        means.face
    };
    Palette { rest: means.rest, body, face }
}

} // verus!
