use unrun::orientation::{
    OrientationError, ProbeSample, approximately_equal, check_orientation,
};

const BACKGROUND: [u8; 4] = [4, 6, 14, 255];
const TOP_LEFT: [u8; 4] = [235, 55, 75, 255];
const TOP_RIGHT: [u8; 4] = [55, 220, 115, 255];
const BOTTOM_LEFT: [u8; 4] = [55, 115, 235, 255];
const BOTTOM_RIGHT: [u8; 4] = [240, 205, 55, 255];
const SAMPLE_POINTS: [(f32, f32, [u8; 4]); 4] = [
    (0.08, 0.08, TOP_LEFT),
    (0.92, 0.08, TOP_RIGHT),
    (0.08, 0.92, BOTTOM_LEFT),
    (0.92, 0.92, BOTTOM_RIGHT),
];

struct Capture {
    width: usize,
    height: usize,
    pixels: Vec<[u8; 4]>,
}

fn samples(width: usize, height: usize) -> Vec<ProbeSample> {
    SAMPLE_POINTS
        .iter()
        .map(|&(nx, ny, expected)| ProbeSample {
            x: (nx * width as f32) as usize,
            screen_y: (ny * height as f32) as usize,
            expected,
        })
        .collect()
}

fn validate(image: &Capture) -> Result<(), OrientationError> {
    check_orientation(
        image.width,
        image.height,
        &image.pixels,
        &samples(image.width, image.height),
    )
}

fn synthetic_probe() -> Capture {
    let (width, height) = (100usize, 100usize);
    let mut pixels = vec![BACKGROUND; width * height];
    for &(nx, ny, color) in &SAMPLE_POINTS {
        let center_x = (nx * width as f32) as i32;
        let screen_y = (ny * height as f32) as i32;
        let framebuffer_y = height as i32 - screen_y - 1;
        for y in framebuffer_y - 2..=framebuffer_y + 2 {
            for x in center_x - 2..=center_x + 2 {
                pixels[y as usize * width + x as usize] = color;
            }
        }
    }
    Capture {
        width,
        height,
        pixels,
    }
}

fn flip_rows(image: &mut Capture) {
    let row = image.width;
    for y in 0..image.height / 2 {
        let top = y * row;
        let bottom = (image.height - y - 1) * row;
        let (upper, lower) = image.pixels.split_at_mut(bottom);
        upper[top..top + row].swap_with_slice(&mut lower[..row]);
    }
}

#[test]
fn accepts_correct_corner_orientation() {
    assert!(validate(&synthetic_probe()).is_ok());
}

#[test]
fn rejects_vertical_reflection() {
    let mut image = synthetic_probe();
    flip_rows(&mut image);
    assert!(validate(&image).is_err());
}

#[test]
fn rejects_horizontal_reflection() {
    let mut image = synthetic_probe();
    let width = image.width;
    for row in image.pixels.chunks_exact_mut(width) {
        row.reverse();
    }
    assert!(validate(&image).is_err());
}

#[test]
fn mismatch_names_the_first_failing_sample_and_its_pixel() {
    let mut image = synthetic_probe();
    flip_rows(&mut image);
    assert_eq!(
        validate(&image),
        Err(OrientationError::Mismatch {
            sample: 0,
            actual: BOTTOM_LEFT,
        })
    );
}

#[test]
fn tiny_captures_are_refused() {
    let image = Capture {
        width: 9,
        height: 20,
        pixels: vec![BACKGROUND; 180],
    };
    assert_eq!(
        validate(&image),
        Err(OrientationError::TooSmall {
            width: 9,
            height: 20
        })
    );
}

#[test]
fn channels_may_differ_by_at_most_four() {
    assert!(approximately_equal([10, 10, 10, 255], [14, 6, 10, 251]));
    assert!(!approximately_equal([10, 10, 10, 255], [15, 10, 10, 255]));
    assert!(!approximately_equal([0, 0, 0, 0], [0, 0, 0, 5]));
}
