//! The frame renderer: pixels from samples, rows from pixels.
use core::ops::Range;
use vstd::prelude::*;

use crate::render::camera::{Camera, Canvas};
use crate::render::color::Color;
use crate::rng::RowRng;
use crate::scalar::{Scalar, ONE_RAW};
use crate::scene::Scene;
use crate::tracer::{extends, ray_color, scene_is_non_negative, spec_ray_color, spec_ray_draws};

verus! {

/// A coordinate of a sample on the image plane: `(jitter + index) / extent`.
pub open spec fn spec_sample_coordinate(jitter: i64, index: usize, extent: usize) -> Scalar {
    (Scalar { raw: jitter }).spec_add(Scalar::spec_from_count(index)).spec_div(
        Scalar::spec_from_count(extent),
    )
}

/// The colour of one sample of the pixel in column `column` and in row
/// `screen_row` counted from the bottom, when its random numbers are `draws`:
/// two jitters, then those of the path.
pub open spec fn spec_sample(
    scene: &Scene,
    canvas: Canvas,
    camera: Camera,
    bounces: nat,
    column: usize,
    screen_row: usize,
    draws: Seq<i64>,
) -> Color {
    spec_ray_color(
        scene,
        camera.spec_get_ray(
            spec_sample_coordinate(draws[0], column, canvas.width),
            spec_sample_coordinate(draws[1], screen_row, canvas.height),
        ),
        bounces,
        draws.skip(2),
    )
}

/// Whether `draws` is what one sample takes: two jitters in `[0, 1)` and as
/// many further numbers as its path asks for.
pub open spec fn sample_recorded(
    scene: &Scene,
    canvas: Canvas,
    camera: Camera,
    bounces: nat,
    column: usize,
    screen_row: usize,
    draws: Seq<i64>,
) -> bool {
    &&& draws.len() >= 2
    &&& 0 <= draws[0] < ONE_RAW
    &&& 0 <= draws[1] < ONE_RAW
    &&& draws.len() == 2 + spec_ray_draws(
        scene,
        camera.spec_get_ray(
            spec_sample_coordinate(draws[0], column, canvas.width),
            spec_sample_coordinate(draws[1], screen_row, canvas.height),
        ),
        bounces,
        draws.skip(2),
    )
}

/// The sum of the samples, added in the order in which they were drawn.
pub open spec fn spec_sample_sum(
    scene: &Scene,
    canvas: Canvas,
    camera: Camera,
    bounces: nat,
    column: usize,
    screen_row: usize,
    samples: Seq<Seq<i64>>,
) -> Color
    decreases samples.len(),
{
    if samples.len() == 0 {
        Color::spec_black()
    } else {
        spec_sample_sum(
            scene,
            canvas,
            camera,
            bounces,
            column,
            screen_row,
            samples.drop_last(),
        ).spec_add(spec_sample(scene, canvas, camera, bounces, column, screen_row, samples.last()))
    }
}

/// The colour of a pixel: the mean of its samples. Without samples it is
/// black.
pub open spec fn spec_pixel(
    scene: &Scene,
    canvas: Canvas,
    camera: Camera,
    bounces: nat,
    column: usize,
    screen_row: usize,
    samples: Seq<Seq<i64>>,
) -> Color {
    spec_sample_sum(scene, canvas, camera, bounces, column, screen_row, samples).spec_div(
        Scalar::spec_from_count(samples.len() as usize),
    )
}

/// Whether `color` is the pixel that the random numbers `samples` give, one
/// sequence for each of `samples_per_pixel` samples.
pub open spec fn pixel_from(
    scene: &Scene,
    canvas: Canvas,
    camera: Camera,
    samples_per_pixel: usize,
    bounces: nat,
    column: usize,
    screen_row: usize,
    samples: Seq<Seq<i64>>,
    color: Color,
) -> bool {
    &&& samples.len() == samples_per_pixel
    &&& forall|k: int|
        0 <= k < samples.len() ==> #[trigger] sample_recorded(
            scene,
            canvas,
            camera,
            bounces,
            column,
            screen_row,
            samples[k],
        )
    &&& color == spec_pixel(scene, canvas, camera, bounces, column, screen_row, samples)
}

/// The numbers of all samples, one sample after the other.
pub open spec fn joined(samples: Seq<Seq<i64>>) -> Seq<i64>
    decreases samples.len(),
{
    if samples.len() == 0 {
        Seq::empty()
    } else {
        joined(samples.drop_last()) + samples.last()
    }
}

/// Whether `color` is the pixel that the random numbers `drawn` give: they
/// fall into one run for each sample, and the runs give the colour.
pub open spec fn pixel_drawn(
    scene: &Scene,
    canvas: Canvas,
    camera: Camera,
    samples_per_pixel: usize,
    bounces: nat,
    column: usize,
    screen_row: usize,
    drawn: Seq<i64>,
    color: Color,
) -> bool {
    exists|samples: Seq<Seq<i64>>|
        joined(samples) == drawn && #[trigger] pixel_from(
            scene,
            canvas,
            camera,
            samples_per_pixel,
            bounces,
            column,
            screen_row,
            samples,
            color,
        )
}

/// Whether `color` is a rendering of the pixel: the pixel that some outcome
/// of the random draws gives.
pub open spec fn is_pixel(
    scene: &Scene,
    canvas: Canvas,
    camera: Camera,
    samples_per_pixel: usize,
    bounces: nat,
    column: usize,
    screen_row: usize,
    color: Color,
) -> bool {
    exists|samples: Seq<Seq<i64>>| #[trigger]
        pixel_from(
            scene,
            canvas,
            camera,
            samples_per_pixel,
            bounces,
            column,
            screen_row,
            samples,
            color,
        )
}

/// The row of the image plane, counted from the bottom, that the buffer row
/// `index`, counted from the top, shows.
pub open spec fn spec_screen_row(canvas: Canvas, index: usize) -> usize
    recommends
        index < canvas.height,
{
    (canvas.height - 1 - index) as usize
}

/// One sample of a pixel: the colour along the ray through a point of the
/// pixel that two draws from `rng` choose.
pub fn render_sample(
    scene: &Scene,
    canvas: &Canvas,
    camera: &Camera,
    maximum_bounces: usize,
    column: usize,
    screen_row: usize,
    rng: &mut RowRng,
) -> (color: Color)
    ensures
        final(rng).seed() == old(rng).seed(),
        extends(final(rng).log(), old(rng).log()),
        sample_recorded(
            scene,
            *canvas,
            *camera,
            maximum_bounces as nat,
            column,
            screen_row,
            final(rng).log().skip(old(rng).log().len() as int),
        ),
        color == spec_sample(
            scene,
            *canvas,
            *camera,
            maximum_bounces as nat,
            column,
            screen_row,
            final(rng).log().skip(old(rng).log().len() as int),
        ),
        maximum_bounces == 0 ==> color == Color::spec_black(),
        scene_is_non_negative(scene) ==> color.non_negative(),
{
    let ghost log0 = rng.log();
    let ju = rng.unit_interval();
    let jv = rng.unit_interval();
    let ghost log1 = rng.log();
    let u = ju.add(Scalar::from_count(column)).div(Scalar::from_count(canvas.width));
    let v = jv.add(Scalar::from_count(screen_row)).div(Scalar::from_count(canvas.height));
    let ray = camera.get_ray(u, v);
    let c = ray_color(&ray, scene, maximum_bounces, rng);
    proof {
        let log2 = rng.log();
        let draws = log2.skip(log0.len() as int);
        assert(log1 == log0.push(ju.raw).push(jv.raw));
        assert(log2.take(log1.len() as int) == log1);
        assert(draws[0] == log1[log0.len() as int]);
        assert(draws[1] == log1[log0.len() + 1 as int]);
        assert(draws.skip(2) =~= log2.skip(log1.len() as int));
        assert(log1.take(log0.len() as int) =~= log0);
        assert(log2.take(log0.len() as int) =~= log1.take(log0.len() as int));
    }
    c
}

/// One pixel: the mean of `samples_per_pixel` samples, each through a point
/// of the pixel chosen by two draws from `rng`.
pub fn render_pixel(
    scene: &Scene,
    canvas: &Canvas,
    camera: &Camera,
    samples_per_pixel: usize,
    maximum_bounces: usize,
    column: usize,
    screen_row: usize,
    rng: &mut RowRng,
) -> (color: Color)
    ensures
        final(rng).seed() == old(rng).seed(),
        extends(final(rng).log(), old(rng).log()),
        pixel_drawn(
            scene,
            *canvas,
            *camera,
            samples_per_pixel,
            maximum_bounces as nat,
            column,
            screen_row,
            final(rng).log().skip(old(rng).log().len() as int),
            color,
        ),
        is_pixel(
            scene,
            *canvas,
            *camera,
            samples_per_pixel,
            maximum_bounces as nat,
            column,
            screen_row,
            color,
        ),
        samples_per_pixel == 0 || maximum_bounces == 0 ==> color == Color::spec_black(),
        scene_is_non_negative(scene) ==> color.non_negative(),
{
    let ghost bounces = maximum_bounces as nat;
    let ghost start_log = rng.log();
    let ghost mut samples: Seq<Seq<i64>> = Seq::empty();
    let mut sum = Color::black();
    let mut s: usize = 0;
    assert(rng.log().take(rng.log().len() as int) =~= rng.log());
    assert(rng.log() =~= start_log + joined(samples));
    while s < samples_per_pixel
        invariant
            s <= samples_per_pixel,
            rng.seed() == old(rng).seed(),
            start_log == old(rng).log(),
            extends(rng.log(), start_log),
            bounces == maximum_bounces as nat,
            samples.len() == s,
            rng.log() == start_log + joined(samples),
            forall|k: int|
                0 <= k < samples.len() ==> #[trigger] sample_recorded(
                    scene,
                    *canvas,
                    *camera,
                    bounces,
                    column,
                    screen_row,
                    samples[k],
                ),
            sum == spec_sample_sum(scene, *canvas, *camera, bounces, column, screen_row, samples),
            maximum_bounces == 0 ==> sum == Color::spec_black(),
            scene_is_non_negative(scene) ==> sum.non_negative(),
        decreases samples_per_pixel - s,
    {
        let ghost log0 = rng.log();
        let c = render_sample(scene, canvas, camera, maximum_bounces, column, screen_row, rng);
        proof {
            let log2 = rng.log();
            let draws = log2.skip(log0.len() as int);
            assert(log2.take(start_log.len() as int) =~= log0.take(start_log.len() as int));
            let longer = samples.push(draws);
            assert(longer.drop_last() =~= samples);
            assert(longer.last() == draws);
            assert(log2 =~= log0 + draws);
            assert(log2 =~= start_log + joined(longer));
            samples = longer;
        }
        sum = sum.add(c);
        s = s + 1;
    }
    let color = sum.div(Scalar::from_count(samples_per_pixel));
    proof {
        let count = Scalar::spec_from_count(samples_per_pixel);
        crate::scalar::lemma_zero_div(count);
        if scene_is_non_negative(scene) {
            crate::scalar::lemma_div_non_negative(sum.r, count);
            crate::scalar::lemma_div_non_negative(sum.g, count);
            crate::scalar::lemma_div_non_negative(sum.b, count);
        }
        assert(pixel_from(
            scene,
            *canvas,
            *camera,
            samples_per_pixel,
            bounces,
            column,
            screen_row,
            samples,
            color,
        ));
        assert(joined(samples) =~= rng.log().skip(start_log.len() as int));
    }
    color
}

/// Determinism: a pixel is a function of the scene, the canvas, the camera,
/// the two counts, its position and the numbers drawn. Two renderings that
/// drew the same numbers give the same colour.
pub proof fn lemma_pixel_determined_by_draws(
    scene: &Scene,
    canvas: Canvas,
    camera: Camera,
    samples_per_pixel: usize,
    bounces: nat,
    column: usize,
    screen_row: usize,
    samples: Seq<Seq<i64>>,
    first: Color,
    second: Color,
)
    requires
        pixel_from(
            scene,
            canvas,
            camera,
            samples_per_pixel,
            bounces,
            column,
            screen_row,
            samples,
            first,
        ),
        pixel_from(
            scene,
            canvas,
            camera,
            samples_per_pixel,
            bounces,
            column,
            screen_row,
            samples,
            second,
        ),
    ensures
        first == second,
{
}

/// Whether `row` is a rendering of the buffer row `index`.
pub open spec fn is_row(
    scene: &Scene,
    canvas: Canvas,
    camera: Camera,
    samples_per_pixel: usize,
    bounces: nat,
    index: usize,
    row: Seq<Color>,
) -> bool {
    &&& row.len() == canvas.width
    &&& forall|column: int|
        0 <= column < row.len() ==> is_pixel(
            scene,
            canvas,
            camera,
            samples_per_pixel,
            bounces,
            column as usize,
            spec_screen_row(canvas, index),
            #[trigger] row[column],
        )
}

/// The buffer row `index`, counted from the top of the image, from left to
/// right. Its random stream is seeded with `index` and with nothing else, so
/// that a row comes out the same wherever and in whatever order it is
/// rendered.
pub fn render_row(
    scene: &Scene,
    canvas: &Canvas,
    camera: &Camera,
    samples_per_pixel: usize,
    maximum_bounces: usize,
    index: usize,
) -> (row: Vec<Color>)
    requires
        index < canvas.height,
    ensures
        is_row(scene, *canvas, *camera, samples_per_pixel, maximum_bounces as nat, index, row@),
        samples_per_pixel == 0 || maximum_bounces == 0 ==> forall|column: int|
            0 <= column < row.len() ==> #[trigger] row[column] == Color::spec_black(),
        scene_is_non_negative(scene) ==> forall|column: int|
            0 <= column < row.len() ==> (#[trigger] row[column]).non_negative(),
{
    let mut rng = RowRng::for_row(index);
    let screen_row = canvas.height - 1 - index;
    let mut row: Vec<Color> = Vec::new();
    let mut column: usize = 0;
    while column < canvas.width
        invariant
            column <= canvas.width,
            row.len() == column,
            screen_row == spec_screen_row(*canvas, index),
            forall|c: int|
                0 <= c < row.len() ==> is_pixel(
                    scene,
                    *canvas,
                    *camera,
                    samples_per_pixel,
                    maximum_bounces as nat,
                    c as usize,
                    screen_row,
                    #[trigger] row[c],
                ),
            samples_per_pixel == 0 || maximum_bounces == 0 ==> forall|c: int|
                0 <= c < row.len() ==> #[trigger] row[c] == Color::spec_black(),
            scene_is_non_negative(scene) ==> forall|c: int|
                0 <= c < row.len() ==> (#[trigger] row[c]).non_negative(),
        decreases canvas.width - column,
    {
        let color = render_pixel(
            scene,
            canvas,
            camera,
            samples_per_pixel,
            maximum_bounces,
            column,
            screen_row,
            &mut rng,
        );
        row.push(color);
        column = column + 1;
    }
    row
}

/// The rows `range` of the image, rendered into `pixels`: row after row from
/// the top, each from left to right, the first row of the range first.
pub fn render_scene(
    pixels: &mut Vec<Color>,
    scene: &Scene,
    canvas: &Canvas,
    camera: &Camera,
    samples_per_pixel: usize,
    maximum_bounces: usize,
    range: Range<usize>,
)
    requires
        range.start <= range.end <= canvas.height,
        old(pixels).len() == (range.end - range.start) * canvas.width,
    ensures
        final(pixels).len() == old(pixels).len(),
        forall|k: int|
            0 <= k < range.end - range.start ==> #[trigger] is_row(
                scene,
                *canvas,
                *camera,
                samples_per_pixel,
                maximum_bounces as nat,
                (range.start + k) as usize,
                final(pixels)@.subrange(k * canvas.width, (k + 1) * canvas.width),
            ),
        samples_per_pixel == 0 || maximum_bounces == 0 ==> forall|i: int|
            0 <= i < final(pixels).len() ==> #[trigger] final(pixels)[i] == Color::spec_black(),
        scene_is_non_negative(scene) ==> forall|i: int|
            0 <= i < final(pixels).len() ==> (#[trigger] final(pixels)[i]).non_negative(),
{
    let rows = range.end - range.start;
    let width = canvas.width;
    let mut k: usize = 0;
    let mut base: usize = 0;
    while k < rows
        invariant
            k <= rows,
            rows == range.end - range.start,
            range.start <= range.end <= canvas.height,
            width == canvas.width,
            base == k * width,
            pixels.len() == rows * width,
            pixels.len() == old(pixels).len(),
            forall|j: int|
                0 <= j < k ==> #[trigger] is_row(
                    scene,
                    *canvas,
                    *camera,
                    samples_per_pixel,
                    maximum_bounces as nat,
                    (range.start + j) as usize,
                    pixels@.subrange(j * width, (j + 1) * width),
                ),
            samples_per_pixel == 0 || maximum_bounces == 0 ==> forall|i: int|
                0 <= i < base ==> #[trigger] pixels[i] == Color::spec_black(),
            scene_is_non_negative(scene) ==> forall|i: int|
                0 <= i < base ==> (#[trigger] pixels[i]).non_negative(),
        decreases rows - k,
    {
        let row = render_row(
            scene,
            canvas,
            camera,
            samples_per_pixel,
            maximum_bounces,
            range.start + k,
        );
        proof {
            lemma_row_bounds(k as int, rows as int, width as int);
        }
        let ghost before = pixels@;
        store_row(pixels, base, &row);
        proof {
            assert(pixels@.subrange(k * width, (k + 1) * width) == row@);
            assert forall|j: int| 0 <= j < k implies #[trigger] is_row(
                scene,
                *canvas,
                *camera,
                samples_per_pixel,
                maximum_bounces as nat,
                (range.start + j) as usize,
                pixels@.subrange(j * width, (j + 1) * width),
            ) by {
                lemma_row_bounds(j, k as int, width as int);
                assert(pixels@.subrange(j * width, (j + 1) * width) =~= before.subrange(
                    j * width,
                    (j + 1) * width,
                ));
            }
        }
        base = base + width;
        k = k + 1;
    }
}

/// Writes `row` into `pixels` from position `base` on.
fn store_row(pixels: &mut Vec<Color>, base: usize, row: &Vec<Color>)
    requires
        base + row.len() <= old(pixels).len(),
    ensures
        final(pixels).len() == old(pixels).len(),
        final(pixels)@.subrange(base as int, base + row.len()) == row@,
        forall|i: int| 0 <= i < base ==> final(pixels)[i] == old(pixels)[i],
        forall|i: int|
            base + row.len() <= i < final(pixels).len() ==> final(pixels)[i] == old(pixels)[i],
        forall|i: int| base <= i < base + row.len() ==> final(pixels)[i] == row[i - base],
{
    let mut column: usize = 0;
    while column < row.len()
        invariant
            column <= row.len(),
            base + row.len() <= pixels.len(),
            pixels.len() == old(pixels).len(),
            forall|i: int| 0 <= i < base ==> pixels[i] == old(pixels)[i],
            forall|i: int| base + row.len() <= i < pixels.len() ==> pixels[i] == old(pixels)[i],
            forall|c: int| 0 <= c < column ==> pixels[base + c] == row[c],
        decreases row.len() - column,
    {
        pixels.set(base + column, row[column]);
        column = column + 1;
    }
    assert(pixels@.subrange(base as int, base + row.len()) =~= row@);
}

/// Row `j` of `rows` rows of `width` pixels lies inside the buffer.
proof fn lemma_row_bounds(j: int, rows: int, width: int)
    requires
        0 <= j < rows,
        0 <= width,
    ensures
        0 <= j * width,
        (j + 1) * width == j * width + width,
        (j + 1) * width <= rows * width,
{
    assert(0 <= j * width) by (nonlinear_arith)
        requires
            0 <= j,
            0 <= width,
    ;
    assert((j + 1) * width == j * width + width) by (nonlinear_arith);
    assert((j + 1) * width <= rows * width) by (nonlinear_arith)
        requires
            j + 1 <= rows,
            0 <= width,
    ;
}

} // verus!
