use mandelbrot::chunk::{Buffers, PixelRect};
use mandelbrot::config::{ColorWeights, RenderConfig};
use mandelbrot::histogram::{tally_chunk, Sample};
use mandelbrot::orbit::{Orbit, Round};
use mandelbrot::paint::color_chunk;

const RENDER_JSON: &str = r#"{"iterations":1000,"red":10,"green":15,"blue":0.5,"rectangle":{"start":{"x":-2.5,"y":-1},"end":{"x":1,"y":1},"width":3.5,"height":2}}"#;
const CHUNK_JSON: &str = r#"{"width":1920,"height":1080,"image":{"start":{"x":0,"y":0},"end":{"x":256,"y":256},"width":256,"height":256},"complex":{"start":{"x":-2.5,"y":-1},"end":{"x":-2.033333333333333,"y":-0.5259259259259259},"width":0.4666666666666668,"height":0.4740740740740741}}"#;

fn rescale(from: (f64, f64), value: f64, to: (f64, f64)) -> f64 {
    let from_size: f64 = (from.1 - from.0).abs();
    let to_size: f64 = (to.1 - to.0).abs();
    (from.1 * to.0 - from.0 * to.1 + value * to_size) / from_size
}

fn fixed(weight: f64) -> u32 {
    (weight * 65536.0) as u32
}

/// The escape-time iteration at one point, with the kernel deciding each
/// round; gives the sample and the squared radius at the end.
fn iterate_point(i0: f64, j0: f64, budget: u32) -> (Sample, f64) {
    let jj0: f64 = j0 * j0;
    let mut q: f64 = i0 - 0.25;
    q *= q;
    q += jj0;
    let inside: bool = q * (q + (i0 - 0.25)) < 0.25 * jj0;
    let (mut i, mut j, mut ii, mut jj) = (0.0f64, 0.0f64, 0.0f64, 0.0f64);
    let mut orbit = Orbit::begin(inside, budget);
    while orbit.settled().is_none() {
        let itemp: f64 = ii - jj + i0;
        let jtemp: f64 = 2.0 * i * j + j0;
        let round = Round { bailed_out: ii + jj >= 65536.0, repeated: i == itemp && j == jtemp };
        orbit = orbit.advance(budget, round);
        if orbit.settled().is_none() {
            i = itemp;
            j = jtemp;
            ii = i * i;
            jj = j * j;
        }
    }
    let iteration: u32 = orbit.settled().unwrap();
    let fractional: u16 = if orbit.escaped(budget) {
        let ln2: f64 = std::f64::consts::LN_2;
        let smooth: f64 = iteration as f64 + 1.0 - f64::ln(f64::ln(ii + jj) / 2.0 / ln2) / ln2;
        (smooth.rem_euclid(1.0) * 65536.0) as u16
    } else {
        0
    };
    (Sample { iteration, fractional }, ii + jj)
}

fn corner(rectangle: &serde_json::Value, which: &str) -> (f64, f64) {
    (rectangle[which]["x"].as_f64().unwrap(), rectangle[which]["y"].as_f64().unwrap())
}

#[test]
fn parse() {
    let render: serde_json::Value = serde_json::from_str(RENDER_JSON).unwrap();
    let chunk: serde_json::Value = serde_json::from_str(CHUNK_JSON).unwrap();
    let config = RenderConfig {
        iteration_budget: render["iterations"].as_f64().unwrap() as u32,
        weights: ColorWeights {
            red: fixed(render["red"].as_f64().unwrap()),
            green: fixed(render["green"].as_f64().unwrap()),
            blue: fixed(render["blue"].as_f64().unwrap()),
        },
    };
    assert_eq!(config.iteration_budget, 1000);
    assert_eq!(config.weights, ColorWeights { red: 655360, green: 983040, blue: 32768 });
    let image_start = corner(&chunk["image"], "start");
    let image_end = corner(&chunk["image"], "end");
    let rect = PixelRect::new(
        image_start.0 as u32,
        image_start.1 as u32,
        image_end.0 as u32,
        image_end.1 as u32,
    )
    .unwrap();
    assert_eq!(rect, PixelRect { start_x: 0, start_y: 0, end_x: 256, end_y: 256 });
    assert_eq!(rect.pixel_count(), Ok(65536));
    assert!(chunk["buffers"].is_null());
}

#[test]
fn the_origin_never_escapes() {
    let (sample, radius) = iterate_point(0.0, 0.0, 1000);
    assert_eq!(sample, Sample { iteration: 1000, fractional: 0 });
    assert_eq!(radius, 0.0);
}

#[test]
fn a_fixed_point_outside_the_bulbs_is_cut_short() {
    let mut orbit = Orbit::begin(false, 1000);
    orbit = orbit.advance(1000, Round { bailed_out: false, repeated: true });
    assert_eq!(orbit, Orbit::Settled { iteration: 1000 });
}

#[test]
fn a_far_point_escapes_at_once() {
    let (sample, radius) = iterate_point(300.0, 0.0, 1000);
    assert_eq!(sample.iteration, 1);
    assert!(radius >= 65536.0);
}

#[test]
fn a_chunk_left_of_the_set_escapes_everywhere() {
    let budget: u32 = 1000;
    let rect = PixelRect::new(0, 0, 256, 256).unwrap();
    let columns: (f64, f64) = (0.0, 256.0);
    let rows: (f64, f64) = (0.0, 256.0);
    let real: (f64, f64) = (-2.5, -2.033333333333333);
    let imaginary: (f64, f64) = (-1.0, -0.5259259259259259);
    let mut samples: Vec<Sample> = Vec::new();
    let mut beyond_radius: u32 = 0;
    for y in 0u32..256 {
        for x in 0u32..256 {
            assert_eq!(rect.index_of(x, y), Some(samples.len() as u32));
            let i0: f64 = rescale(columns, x as f64, real);
            let j0: f64 = rescale(rows, y as f64, imaginary);
            let (sample, radius) = iterate_point(i0, j0, budget);
            assert!(sample.iteration <= budget);
            if sample.iteration < budget {
                assert!(radius >= 65536.0);
            }
            if radius >= 65536.0 {
                beyond_radius += 1;
            }
            samples.push(sample);
        }
    }
    let chunk = tally_chunk(budget, &rect, &samples).unwrap();
    assert_eq!(chunk.total, beyond_radius);
    let sum: u32 = chunk.buffers.histogram.iter().sum();
    assert_eq!(sum, chunk.total);
    assert_eq!(chunk.buffers.iterations.len(), 65536);
    assert_eq!(chunk.buffers.histogram.len(), 1000);

    let config = RenderConfig {
        iteration_budget: budget,
        weights: ColorWeights { red: fixed(10.0), green: fixed(15.0), blue: fixed(0.5) },
    };
    let mut buffers = Buffers { pixels: Some(vec![0; 65536]), ..chunk.buffers };
    assert_eq!(color_chunk(&config, &rect, &mut buffers, chunk.total), Ok(()));
    let pixels = buffers.pixels.clone().unwrap();
    assert!(pixels.iter().all(|word| word >> 24 == 0xff));
    let again = buffers.clone();
    assert_eq!(color_chunk(&config, &rect, &mut buffers, chunk.total), Ok(()));
    assert_eq!(buffers, again);
}
