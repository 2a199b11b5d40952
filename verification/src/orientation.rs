//! Checking a captured framebuffer against the orientation probe.
//!
//! The probe paints a differently coloured marker into each corner of the
//! screen. A framebuffer stores its rows bottom-up, so screen row `y` is
//! framebuffer row `height - y - 1`; a capture that was flipped or mirrored
//! puts the wrong colour under at least one sample point.
use vstd::prelude::*;

verus! {

/// How far apart two channel values are.
pub open spec fn channel_distance(a: u8, b: u8) -> int {
    if a >= b {
        a - b
    } else {
        b - a
    }
}

/// Whether two RGBA pixels agree within 4 on every channel.
pub open spec fn pixels_close(actual: [u8; 4], expected: [u8; 4]) -> bool {
    forall|i: int| 0 <= i < 4 ==> channel_distance(actual[i], expected[i]) <= 4
}

/// Whether two RGBA pixels agree within 4 on every channel.
pub fn approximately_equal(actual: [u8; 4], expected: [u8; 4]) -> (close: bool)
    ensures
        close == pixels_close(actual, expected),
{
    let mut i: usize = 0;
    while i < 4
        invariant
            i <= 4,
            forall|k: int| 0 <= k < i ==> channel_distance(actual[k], expected[k]) <= 4,
        decreases 4 - i,
    {
        let a = actual[i];
        let b = expected[i];
        let distance = if a >= b {
            a - b
        } else {
            b - a
        };
        if distance > 4 {
            return false;
        }
        i += 1;
    }
    true
}

/// A point at which the probe is checked: its column, its row counted from
/// the top of the screen, and the colour expected there.
#[derive(Clone, Copy, Debug, PartialEq, Eq)]
pub struct ProbeSample {
    pub x: usize,
    pub screen_y: usize,
    pub expected: [u8; 4],
}

/// Why a capture does not show the probe the right way up.
#[derive(Clone, Copy, Debug, PartialEq, Eq)]
pub enum OrientationError {
    /// The capture is narrower or lower than 10 pixels.
    TooSmall { width: usize, height: usize },
    /// The pixel under sample number `sample` has the wrong colour.
    Mismatch { sample: usize, actual: [u8; 4] },
}

/// Index, in a bottom-up row-major framebuffer, of the pixel under a sample.
pub open spec fn framebuffer_index(width: nat, height: nat, sample: ProbeSample) -> int {
    (height - sample.screen_y - 1) * width + sample.x
}

/// Whether the pixel under a sample has the expected colour.
pub open spec fn sample_matches(
    pixels: Seq<[u8; 4]>,
    width: nat,
    height: nat,
    sample: ProbeSample,
) -> bool {
    pixels_close(pixels[framebuffer_index(width, height, sample)], sample.expected)
}

/// Whether every sample lies inside a `width` by `height` capture.
pub open spec fn samples_inside(samples: Seq<ProbeSample>, width: nat, height: nat) -> bool {
    forall|i: int|
        0 <= i < samples.len() ==> (#[trigger] samples[i]).x < width && samples[i].screen_y < height
}

/// Whether a capture is large enough to be checked.
pub open spec fn large_enough(width: nat, height: nat) -> bool {
    width >= 10 && height >= 10
}

proof fn lemma_index_inside(width: nat, height: nat, x: nat, screen_y: nat)
    requires
        x < width,
        screen_y < height,
    ensures
        0 <= (height - screen_y - 1) * width + x < width * height,
        (height - screen_y - 1) * width <= width * height - width,
{
    let row = (height - screen_y - 1) as nat;
    assert(row * width <= (height - 1) * width) by (nonlinear_arith)
        requires
            row <= height - 1,
            height >= 1,
    ;
    assert((height - 1) * width == width * height - width) by (nonlinear_arith);
    assert(row * width >= 0) by (nonlinear_arith);
}

/// Checks a captured framebuffer of `width` by `height` pixels, stored
/// bottom-up, against the probe's sample points, in order.
pub fn check_orientation(
    width: usize,
    height: usize,
    pixels: &[[u8; 4]],
    samples: &[ProbeSample],
) -> (result: Result<(), OrientationError>)
    requires
        pixels@.len() == width * height,
        large_enough(width as nat, height as nat) ==> samples_inside(
            samples@,
            width as nat,
            height as nat,
        ),
    ensures
        !large_enough(width as nat, height as nat) ==> result == Err::<(), OrientationError>(
            OrientationError::TooSmall { width, height },
        ),
        large_enough(width as nat, height as nat) ==> match result {
            Ok(()) => forall|i: int|
                0 <= i < samples@.len() ==> #[trigger] sample_matches(
                    pixels@,
                    width as nat,
                    height as nat,
                    samples@[i],
                ),
            Err(OrientationError::Mismatch { sample, actual }) => {
                &&& sample < samples@.len()
                &&& !sample_matches(pixels@, width as nat, height as nat, samples@[sample as int])
                &&& forall|j: int|
                    0 <= j < sample ==> #[trigger] sample_matches(
                        pixels@,
                        width as nat,
                        height as nat,
                        samples@[j],
                    )
                &&& actual == pixels@[framebuffer_index(
                    width as nat,
                    height as nat,
                    samples@[sample as int],
                )]
            },
            Err(OrientationError::TooSmall { .. }) => false,
        },
{
    if width < 10 || height < 10 {
        return Err(OrientationError::TooSmall { width, height });
    }
    let mut i: usize = 0;
    while i < samples.len()
        invariant
            i <= samples@.len(),
            pixels@.len() == width * height,
            large_enough(width as nat, height as nat),
            samples_inside(samples@, width as nat, height as nat),
            forall|j: int|
                0 <= j < i ==> #[trigger] sample_matches(
                    pixels@,
                    width as nat,
                    height as nat,
                    samples@[j],
                ),
        decreases samples@.len() - i,
    {
        let sample = samples[i];
        assert(sample.x < width && sample.screen_y < height);
        assert(pixels@.len() == pixels.len());
        proof {
            lemma_index_inside(width as nat, height as nat, sample.x as nat, sample.screen_y as nat);
        }
        let index = (height - sample.screen_y - 1) * width + sample.x;
        let actual = pixels[index];
        if !approximately_equal(actual, sample.expected) {
            return Err(OrientationError::Mismatch { sample: i, actual });
        }
        i += 1;
    }
    Ok(())
}

/// Law: closeness is symmetric and bounded both ways. Two pixels are close
/// exactly when no channel of either exceeds the other's by more than 4, so
/// a channel brighter or darker by more than 4 is a mismatch.
pub proof fn lemma_closeness_is_symmetric_and_bounded(actual: [u8; 4], expected: [u8; 4])
    ensures
        pixels_close(actual, expected) == pixels_close(expected, actual),
        pixels_close(actual, expected) <==> forall|i: int|
            0 <= i < 4 ==> actual[i] <= expected[i] + 4 && expected[i] <= actual[i] + 4,
        pixels_close(actual, actual),
{
}

} // verus!
