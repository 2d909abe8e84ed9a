//! Sharing the rows of an image between this machine and remote workers.
use core::ops::Range;
use vstd::prelude::*;

use crate::ppm::{level, spec_level};
use crate::render::camera::{Camera, Canvas};
use crate::render::color::Color;
use crate::scalar::Scalar;
use crate::scene::Scene;

verus! {

/// A remote worker and the number of rows that it is to render.
pub struct Remote {
    pub ip: String,
    pub rows: usize,
}

/// Everything that a worker needs to render its rows.
pub struct Request {
    pub scene: Scene,
    pub canvas: Canvas,
    pub camera: Camera,
    pub samples_per_pixel: usize,
    pub maximum_bounces: usize,
    pub range: Range<usize>,
}

/// The part of the image that one remote worker renders, and where its
/// answer goes: `range` are its rows, the pixels go to `pixel_count`
/// positions of the pixel buffer from `pixel_start` on, and its bytes arrive
/// in `byte_count` positions of the byte buffer from `byte_start` on.
pub struct Share {
    pub range: Range<usize>,
    pub pixel_start: usize,
    pub pixel_count: usize,
    pub byte_start: usize,
    pub byte_count: usize,
}

/// How the rows are shared: the first `local_rows` rows stay here, the
/// others go to the workers, in their order.
pub struct Plan {
    pub local_rows: usize,
    pub shares: Vec<Share>,
}

/// Why the rows cannot be shared as asked.
#[derive(Clone, Copy, Debug, PartialEq, Eq, Structural)]
pub enum PlanError {
    /// The workers are to render more rows than the canvas has.
    TooManyRows,
    /// The pixel buffer is shorter than the canvas.
    PixelsTooShort,
    /// The byte buffer is too short for three bytes for each remote pixel.
    BufferTooShort,
}

/// The number of rows given to the first `n` workers.
pub open spec fn rows_before(remotes: Seq<Remote>, n: int) -> int
    decreases n,
{
    if n <= 0 {
        0
    } else {
        rows_before(remotes, n - 1) + remotes[n - 1].rows
    }
}

/// Whether `share` is the share of worker `i` when the first `local_rows`
/// rows stay local.
pub open spec fn is_share(
    remotes: Seq<Remote>,
    width: usize,
    local_rows: usize,
    i: int,
    share: Share,
) -> bool {
    &&& share.range.start == local_rows + rows_before(remotes, i)
    &&& share.range.end == share.range.start + remotes[i].rows
    &&& share.pixel_start == share.range.start * width
    &&& share.pixel_count == remotes[i].rows * width
    &&& share.byte_start == 3 * (rows_before(remotes, i) * width)
    &&& share.byte_count == 3 * (remotes[i].rows * width)
}

/// The outcome of planning, as a function of the inputs.
pub open spec fn plan_outcome(
    remotes: Seq<Remote>,
    canvas: Canvas,
    pixels_len: usize,
    buffer_len: usize,
) -> Option<PlanError> {
    let total = rows_before(remotes, remotes.len() as int);
    if total > canvas.height {
        Some(PlanError::TooManyRows)
    } else if pixels_len < canvas.height * canvas.width {
        Some(PlanError::PixelsTooShort)
    } else if buffer_len < 3 * (total * canvas.width) {
        Some(PlanError::BufferTooShort)
    } else {
        None
    }
}

proof fn lemma_rows_before_monotone(remotes: Seq<Remote>, i: int, j: int)
    requires
        0 <= i <= j,
    ensures
        0 <= rows_before(remotes, i) <= rows_before(remotes, j),
    decreases j,
{
    if j > 0 {
        if i < j {
            lemma_rows_before_monotone(remotes, i, j - 1);
        } else {
            lemma_rows_before_monotone(remotes, i - 1, j - 1);
        }
    }
}

proof fn lemma_scaled_order(a: int, b: int, w: int)
    requires
        0 <= a <= b,
        0 <= w,
    ensures
        0 <= a * w <= b * w,
{
    assert(0 <= a * w <= b * w) by (nonlinear_arith)
        requires
            0 <= a <= b,
            0 <= w,
    ;
}

proof fn lemma_scaled_sum(a: int, b: int, w: int)
    ensures
        (a + b) * w == a * w + b * w,
{
    assert((a + b) * w == a * w + b * w) by (nonlinear_arith);
}

/// Shares the rows of the canvas: the workers take the last rows, each as
/// many as it asks for, and the rows before them stay local.
pub fn plan_distribution(
    remotes: &Vec<Remote>,
    canvas: &Canvas,
    pixels_len: usize,
    buffer_len: usize,
) -> (r: Result<Plan, PlanError>)
    ensures
        match r {
            Ok(plan) => {
                &&& plan_outcome(remotes@, *canvas, pixels_len, buffer_len).is_none()
                &&& plan.local_rows == canvas.height - rows_before(remotes@, remotes.len() as int)
                &&& plan.shares.len() == remotes.len()
                &&& forall|i: int|
                    0 <= i < remotes.len() ==> is_share(
                        remotes@,
                        canvas.width,
                        plan.local_rows,
                        i,
                        #[trigger] plan.shares[i],
                    )
            },
            Err(e) => plan_outcome(remotes@, *canvas, pixels_len, buffer_len) == Some(e),
        },
{
    let mut total: usize = 0;
    let mut i: usize = 0;
    while i < remotes.len()
        invariant
            i <= remotes.len(),
            total == rows_before(remotes@, i as int),
            total <= canvas.height,
        decreases remotes.len() - i,
    {
        let rows = remotes[i].rows;
        if rows > canvas.height - total {
            proof {
                lemma_rows_before_monotone(remotes@, i + 1, remotes.len() as int);
            }
            return Err(PlanError::TooManyRows);
        }
        total = total + rows;
        i = i + 1;
    }
    let width = canvas.width;
    let area = match canvas.height.checked_mul(width) {
        Some(area) => area,
        None => {
            return Err(PlanError::PixelsTooShort);
        },
    };
    if pixels_len < area {
        return Err(PlanError::PixelsTooShort);
    }
    proof {
        lemma_scaled_order(total as int, canvas.height as int, width as int);
    }
    let remote_pixels = total * width;
    let needed = match remote_pixels.checked_mul(3) {
        Some(needed) => needed,
        None => {
            return Err(PlanError::BufferTooShort);
        },
    };
    if buffer_len < needed {
        return Err(PlanError::BufferTooShort);
    }
    let local_rows = canvas.height - total;
    let mut shares: Vec<Share> = Vec::new();
    let mut before: usize = 0;
    let mut j: usize = 0;
    while j < remotes.len()
        invariant
            j <= remotes.len(),
            width == canvas.width,
            total == rows_before(remotes@, remotes.len() as int),
            total <= canvas.height,
            local_rows == canvas.height - total,
            canvas.height * width <= usize::MAX,
            3 * (total * width) <= usize::MAX,
            before == rows_before(remotes@, j as int),
            before <= total,
            shares.len() == j,
            forall|i: int|
                0 <= i < j ==> is_share(remotes@, width, local_rows, i, #[trigger] shares[i]),
        decreases remotes.len() - j,
    {
        let rows = remotes[j].rows;
        proof {
            lemma_rows_before_monotone(remotes@, j + 1, remotes.len() as int);
            lemma_scaled_order((local_rows + before) as int, canvas.height as int, width as int);
            lemma_scaled_order(rows as int, total as int, width as int);
            lemma_scaled_order(before as int, total as int, width as int);
            lemma_scaled_order(total as int, canvas.height as int, width as int);
        }
        let start = local_rows + before;
        let share = Share {
            range: start..start + rows,
            pixel_start: start * width,
            pixel_count: rows * width,
            byte_start: 3 * (before * width),
            byte_count: 3 * (rows * width),
        };
        shares.push(share);
        before = before + rows;
        j = j + 1;
    }
    Ok(Plan { local_rows, shares })
}

/// The shares of a plan follow one another without gap or overlap, in the
/// rows as in both buffers, and the last one ends with the canvas.
pub proof fn lemma_shares_are_contiguous(remotes: Seq<Remote>, canvas: Canvas, plan: Plan)
    requires
        plan.local_rows == canvas.height - rows_before(remotes, remotes.len() as int),
        plan.shares.len() == remotes.len(),
        forall|i: int|
            0 <= i < remotes.len() ==> is_share(
                remotes,
                canvas.width,
                plan.local_rows,
                i,
                #[trigger] plan.shares[i],
            ),
    ensures
        remotes.len() > 0 ==> plan.shares[0].range.start == plan.local_rows,
        remotes.len() > 0 ==> plan.shares[remotes.len() - 1].range.end == canvas.height,
        forall|i: int|
            0 <= i < remotes.len() - 1 ==> {
                &&& (#[trigger] plan.shares[i]).range.end == plan.shares[i + 1].range.start
                &&& plan.shares[i].pixel_start + plan.shares[i].pixel_count == plan.shares[i
                    + 1].pixel_start
                &&& plan.shares[i].byte_start + plan.shares[i].byte_count == plan.shares[i
                    + 1].byte_start
            },
{
    assert forall|i: int| 0 <= i < remotes.len() - 1 implies {
        &&& (#[trigger] plan.shares[i]).range.end == plan.shares[i + 1].range.start
        &&& plan.shares[i].pixel_start + plan.shares[i].pixel_count == plan.shares[i
            + 1].pixel_start
        &&& plan.shares[i].byte_start + plan.shares[i].byte_count == plan.shares[i + 1].byte_start
    } by {
        let a = plan.shares[i];
        let b = plan.shares[i + 1];
        assert(is_share(remotes, canvas.width, plan.local_rows, i, a));
        assert(is_share(remotes, canvas.width, plan.local_rows, i + 1, b));
        assert(rows_before(remotes, i + 1) == rows_before(remotes, i) + remotes[i].rows);
        lemma_scaled_sum(a.range.start as int, remotes[i].rows as int, canvas.width as int);
        lemma_scaled_sum(rows_before(remotes, i), remotes[i].rows as int, canvas.width as int);
    }
    if remotes.len() > 0 {
        let last = remotes.len() - 1;
        assert(is_share(remotes, canvas.width, plan.local_rows, 0, plan.shares[0]));
        assert(is_share(remotes, canvas.width, plan.local_rows, last, plan.shares[last]));
        assert(rows_before(remotes, 0) == 0);
        assert(rows_before(remotes, last + 1) == rows_before(remotes, last) + remotes[last].rows);
    }
}

/// The `count` lowest bytes of `n`, the lowest first.
pub open spec fn le_bytes(n: nat, count: nat) -> Seq<u8>
    decreases count,
{
    if count == 0 {
        Seq::empty()
    } else {
        seq![(n % 256) as u8] + le_bytes(n / 256, (count - 1) as nat)
    }
}

/// The number whose bytes, the lowest first, are `bytes`.
pub open spec fn le_value(bytes: Seq<u8>) -> nat
    decreases bytes.len(),
{
    if bytes.len() == 0 {
        0
    } else {
        bytes[0] as nat + 256 * le_value(bytes.skip(1))
    }
}

/// 256 to the power `count`.
pub open spec fn byte_range(count: nat) -> nat
    decreases count,
{
    if count == 0 {
        1
    } else {
        256 * byte_range((count - 1) as nat)
    }
}

/// The bytes of a number give the number back, where they are enough to
/// hold it.
pub proof fn lemma_le_round_trip(n: nat, count: nat)
    requires
        n < byte_range(count),
    ensures
        le_bytes(n, count).len() == count,
        le_value(le_bytes(n, count)) == n,
    decreases count,
{
    if count > 0 {
        let rest = le_bytes(n / 256, (count - 1) as nat);
        assert(n / 256 < byte_range((count - 1) as nat)) by (nonlinear_arith)
            requires
                n < 256 * byte_range((count - 1) as nat),
        ;
        lemma_le_round_trip(n / 256, (count - 1) as nat);
        assert(le_bytes(n, count).skip(1) =~= rest);
        assert(n == (n % 256) + 256 * (n / 256)) by (nonlinear_arith);
    } else {
        assert(le_bytes(n, count).len() == 0);
    }
}

/// The length of `le_bytes` is the count asked for.
pub proof fn lemma_le_bytes_len(n: nat, count: nat)
    ensures
        le_bytes(n, count).len() == count,
    decreases count,
{
    if count > 0 {
        lemma_le_bytes_len(n / 256, (count - 1) as nat);
    }
}

/// A message as it is sent: the length of `payload` in eight bytes, the
/// lowest first, then the payload.
pub fn frame(payload: &Vec<u8>) -> (message: Vec<u8>)
    ensures
        message@ == le_bytes(payload.len() as nat, 8) + payload@,
        message.len() == 8 + payload.len(),
{
    let mut message: Vec<u8> = Vec::new();
    let mut rest: u64 = payload.len() as u64;
    let mut i: usize = 0;
    proof {
        lemma_le_bytes_len(payload.len() as nat, 8);
    }
    while i < 8
        invariant
            i <= 8,
            message.len() == i,
            message@ + le_bytes(rest as nat, (8 - i) as nat) == le_bytes(payload.len() as nat, 8),
        decreases 8 - i,
    {
        let ghost before = message@;
        message.push((rest % 256) as u8);
        proof {
            assert(before + le_bytes(rest as nat, (8 - i) as nat) =~= before.push(
                (rest % 256) as u8,
            ) + le_bytes((rest / 256) as nat, (8 - i - 1) as nat));
        }
        rest = rest / 256;
        i = i + 1;
    }
    assert(message@ =~= le_bytes(payload.len() as nat, 8));
    let mut k: usize = 0;
    while k < payload.len()
        invariant
            k <= payload.len(),
            message@ == le_bytes(payload.len() as nat, 8) + payload@.take(k as int),
            le_bytes(payload.len() as nat, 8).len() == 8,
        decreases payload.len() - k,
    {
        message.push(payload[k]);
        assert(payload@.take(k + 1) =~= payload@.take(k as int).push(payload@[k as int]));
        assert(message@ =~= le_bytes(payload.len() as nat, 8) + payload@.take(k + 1));
        k = k + 1;
    }
    assert(payload@.take(payload.len() as int) =~= payload@);
    message
}

/// The length that the first eight bytes of a message announce; `None` for
/// fewer than eight bytes.
pub fn framed_length(message: &Vec<u8>) -> (length: Option<u64>)
    ensures
        (message.len() >= 8) == length.is_some(),
        length matches Some(n) ==> n == le_value(message@.take(8)),
{
    if message.len() < 8 {
        return None;
    }
    let mut value: u64 = 0;
    let mut i: usize = 8;
    let ghost head = message@.take(8);
    assert(head.skip(8) =~= Seq::<u8>::empty());
    while i > 0
        invariant
            i <= 8,
            message.len() >= 8,
            head == message@.take(8),
            value == le_value(head.skip(i as int)),
            value < byte_range((8 - i) as nat),
        decreases i,
    {
        i = i - 1;
        proof {
            assert(head.skip(i as int).skip(1) =~= head.skip(i + 1));
            assert(head.skip(i as int)[0] == message@[i as int]);
            lemma_byte_range_values();
            assert(byte_range((8 - i) as nat) == 256 * byte_range((8 - i - 1) as nat));
        }
        value = (message[i] as u64) + 256 * value;
    }
    assert(head.skip(0) =~= head);
    Some(value)
}

/// The powers of 256 up to the eighth.
proof fn lemma_byte_range_values()
    ensures
        byte_range(0) == 1,
        byte_range(1) == 0x100,
        byte_range(2) == 0x1_0000,
        byte_range(3) == 0x100_0000,
        byte_range(4) == 0x1_0000_0000,
        byte_range(5) == 0x100_0000_0000,
        byte_range(6) == 0x1_0000_0000_0000,
        byte_range(7) == 0x100_0000_0000_0000,
        byte_range(8) == 0x1_0000_0000_0000_0000,
{
    reveal_with_fuel(byte_range, 9);
}

/// The byte of a channel: its level, kept within `0..=255`.
pub open spec fn spec_channel_byte(channel: Scalar) -> u8 {
    let l = spec_level(channel);
    if l < 0 {
        0u8
    } else if l > 255 {
        255u8
    } else {
        l as u8
    }
}

/// The channel of a byte: the byte over 255.
pub open spec fn spec_byte_channel(byte: u8) -> Scalar {
    (Scalar { raw: byte as i64 }).spec_div(Scalar { raw: 255 })
}

/// The colour of three bytes.
pub open spec fn spec_color_from_rgb8(r: u8, g: u8, b: u8) -> Color {
    Color { r: spec_byte_channel(r), g: spec_byte_channel(g), b: spec_byte_channel(b) }
}

/// The byte of a channel.
pub fn channel_byte(channel: Scalar) -> (r: u8)
    ensures
        r == spec_channel_byte(channel),
{
    let l = level(channel);
    if l < 0 {
        0
    } else if l > 255 {
        255
    } else {
        l as u8
    }
}

/// The pixels as bytes: red, green and blue of each pixel in turn.
pub fn pack_rgb8(pixels: &Vec<Color>) -> (bytes: Vec<u8>)
    ensures
        bytes.len() == 3 * pixels.len(),
        forall|i: int|
            0 <= i < pixels.len() ==> {
                &&& bytes[3 * i] == spec_channel_byte((#[trigger] pixels[i]).r)
                &&& bytes[3 * i + 1] == spec_channel_byte(pixels[i].g)
                &&& bytes[3 * i + 2] == spec_channel_byte(pixels[i].b)
            },
{
    let mut bytes: Vec<u8> = Vec::new();
    let mut i: usize = 0;
    while i < pixels.len()
        invariant
            i <= pixels.len(),
            bytes.len() == 3 * i,
            forall|k: int|
                0 <= k < i ==> {
                    &&& bytes[3 * k] == spec_channel_byte((#[trigger] pixels[k]).r)
                    &&& bytes[3 * k + 1] == spec_channel_byte(pixels[k].g)
                    &&& bytes[3 * k + 2] == spec_channel_byte(pixels[k].b)
                },
        decreases pixels.len() - i,
    {
        let p = pixels[i];
        bytes.push(channel_byte(p.r));
        bytes.push(channel_byte(p.g));
        bytes.push(channel_byte(p.b));
        i = i + 1;
    }
    bytes
}

/// Reads pixels from bytes, three bytes for each: as many pixels as both the
/// bytes and the buffer have room for. The other pixels stay as they are.
pub fn unpack_rgb8(bytes: &Vec<u8>, pixels: &mut Vec<Color>)
    ensures
        final(pixels).len() == old(pixels).len(),
        forall|i: int|
            0 <= i < final(pixels).len() ==> #[trigger] final(pixels)[i] == (if 3 * i + 2
                < bytes.len() {
                spec_color_from_rgb8(bytes[3 * i], bytes[3 * i + 1], bytes[3 * i + 2])
            } else {
                old(pixels)[i]
            }),
{
    let count = bytes.len() / 3;
    let mut i: usize = 0;
    while i < pixels.len() && i < count
        invariant
            count == bytes.len() / 3,
            pixels.len() == old(pixels).len(),
            i <= pixels.len(),
            i <= count,
            forall|k: int|
                0 <= k < i ==> #[trigger] pixels[k] == spec_color_from_rgb8(
                    bytes[3 * k],
                    bytes[3 * k + 1],
                    bytes[3 * k + 2],
                ),
            forall|k: int| i <= k < pixels.len() ==> #[trigger] pixels[k] == old(pixels)[k],
        decreases pixels.len() - i,
    {
        let scale = Scalar::from_raw(255);
        let color = Color::new(
            Scalar::from_raw(bytes[3 * i] as i64).div(scale),
            Scalar::from_raw(bytes[3 * i + 1] as i64).div(scale),
            Scalar::from_raw(bytes[3 * i + 2] as i64).div(scale),
        );
        pixels.set(i, color);
        i = i + 1;
    }
}

} // verus!
