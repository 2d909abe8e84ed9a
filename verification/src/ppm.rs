//! The plain text image format: a header, then one line for each pixel.
use vstd::prelude::*;

use crate::render::camera::Canvas;
use crate::render::color::Color;
use crate::scalar::{Scalar, ONE_RAW};

verus! {

/// Raw value of the factor that takes a channel to its level: 255.999.
pub const LEVEL_SCALE_RAW: i64 = 0xff_ffbe_76c8;

/// The decimal digits of `n` in ASCII, without leading zeros.
pub open spec fn decimal(n: nat) -> Seq<u8>
    decreases n,
{
    if n < 10 {
        seq![(48 + n) as u8]
    } else {
        decimal(n / 10).push((48 + n % 10) as u8)
    }
}

/// The decimal text of `n`, with a minus sign when it is negative.
pub open spec fn signed_decimal(n: int) -> Seq<u8> {
    if n < 0 {
        seq![45u8] + decimal((-n) as nat)
    } else {
        decimal(n as nat)
    }
}

/// The header: the mark of the plain text format, then width and height,
/// then the largest level, 255.
pub open spec fn header_bytes(width: usize, height: usize) -> Seq<u8> {
    seq![80u8, 51u8, 10u8] + decimal(width as nat) + seq![32u8] + decimal(height as nat)
        + seq![10u8, 50u8, 53u8, 53u8, 10u8]
}

/// The level of a channel: the channel times 255.999, rounded down to a
/// whole number. It is not clamped: a channel outside `[0, 1]` gives a level
/// outside `0..=255`.
pub open spec fn spec_level(channel: Scalar) -> int {
    (Scalar { raw: LEVEL_SCALE_RAW }).spec_mul(channel).raw as int / (ONE_RAW as int)
}

/// The line of a pixel: its three levels, separated by spaces.
pub open spec fn pixel_bytes(c: Color) -> Seq<u8> {
    signed_decimal(spec_level(c.r)) + seq![32u8] + signed_decimal(spec_level(c.g)) + seq![32u8]
        + signed_decimal(spec_level(c.b)) + seq![10u8]
}

/// The level of a channel.
pub fn level(channel: Scalar) -> (r: i64)
    ensures
        r == spec_level(channel),
{
    let scaled = Scalar::from_raw(LEVEL_SCALE_RAW).mul(channel).raw;
    if scaled >= 0 {
        scaled / ONE_RAW
    } else {
        let m: u128 = (-(scaled as i128)) as u128;
        let q: u128 = (m + (ONE_RAW as u128 - 1)) / (ONE_RAW as u128);
        proof {
            lemma_floor_of_negative(scaled as int, ONE_RAW as int);
        }
        -(q as i64)
    }
}

/// For a negative `x`, the floor of `x / d` is minus the ceiling of `-x / d`.
proof fn lemma_floor_of_negative(x: int, d: int)
    requires
        x < 0,
        d > 0,
    ensures
        x / d == -((-x + d - 1) / d),
{
    let q = (-x + d - 1) / d;
    let r = (-x + d - 1) % d;
    assert(-x + d - 1 == d * q + r && 0 <= r < d) by (nonlinear_arith)
        requires
            q == (-x + d - 1) / d,
            r == (-x + d - 1) % d,
            d > 0,
    ;
    // x == d * (-q) + (d - 1 - r), with 0 <= d - 1 - r < d
    assert(x == (-q) * d + (d - 1 - r)) by (nonlinear_arith)
        requires
            -x + d - 1 == d * q + r,
    ;
    vstd::arithmetic::div_mod::lemma_fundamental_div_mod_converse(x, d, -q, d - 1 - r);
}

fn push_decimal(out: &mut Vec<u8>, n: u64)
    ensures
        final(out)@ == old(out)@ + decimal(n as nat),
    decreases n,
{
    if n >= 10 {
        push_decimal(out, n / 10);
    }
    out.push(48 + (n % 10) as u8);
    proof {
        if n < 10 {
            assert(old(out)@.push((48 + n) as u8) =~= old(out)@ + decimal(n as nat));
        } else {
            assert((old(out)@ + decimal((n / 10) as nat)).push((48 + n % 10) as u8) =~= old(out)@
                + decimal(n as nat));
        }
    }
}

fn push_signed_decimal(out: &mut Vec<u8>, n: i64)
    ensures
        final(out)@ == old(out)@ + signed_decimal(n as int),
{
    if n < 0 {
        out.push(45);
        let m: u64 = (-(n as i128)) as u64;
        push_decimal(out, m);
        assert(old(out)@.push(45u8) + decimal(m as nat) =~= old(out)@ + signed_decimal(n as int));
    } else {
        push_decimal(out, n as u64);
    }
}

/// Writes an image as text into a buffer of bytes.
pub struct PpmWriter {
    pub buffer: Vec<u8>,
    pub width: usize,
    pub height: usize,
}

impl PpmWriter {
    /// A writer for an image of the canvas's size, with nothing written yet.
    pub fn new(canvas: &Canvas) -> (w: PpmWriter)
        ensures
            w.buffer@ == Seq::<u8>::empty(),
            w.width == canvas.width,
            w.height == canvas.height,
    {
        PpmWriter { buffer: Vec::new(), width: canvas.width, height: canvas.height }
    }

    /// Appends the header and returns the number of bytes written.
    pub fn write_header(&mut self) -> (written: usize)
        ensures
            final(self).buffer@ == old(self).buffer@ + header_bytes(
                old(self).width,
                old(self).height,
            ),
            final(self).width == old(self).width,
            final(self).height == old(self).height,
            written == header_bytes(old(self).width, old(self).height).len(),
    {
        let before = self.buffer.len();
        self.buffer.push(80);
        self.buffer.push(51);
        self.buffer.push(10);
        push_decimal(&mut self.buffer, self.width as u64);
        self.buffer.push(32);
        push_decimal(&mut self.buffer, self.height as u64);
        self.buffer.push(10);
        self.buffer.push(50);
        self.buffer.push(53);
        self.buffer.push(53);
        self.buffer.push(10);
        assert(self.buffer@ =~= old(self).buffer@ + header_bytes(
            old(self).width,
            old(self).height,
        ));
        self.buffer.len() - before
    }

    /// Appends the line of one pixel and returns the number of bytes written.
    pub fn write_pixel(&mut self, c: &Color) -> (written: usize)
        ensures
            final(self).buffer@ == old(self).buffer@ + pixel_bytes(*c),
            final(self).width == old(self).width,
            final(self).height == old(self).height,
            written == pixel_bytes(*c).len(),
    {
        let before = self.buffer.len();
        push_signed_decimal(&mut self.buffer, level(c.r));
        self.buffer.push(32);
        push_signed_decimal(&mut self.buffer, level(c.g));
        self.buffer.push(32);
        push_signed_decimal(&mut self.buffer, level(c.b));
        self.buffer.push(10);
        assert(self.buffer@ =~= old(self).buffer@ + pixel_bytes(*c));
        self.buffer.len() - before
    }
}

} // verus!
