use mandelbrot::chunk::PixelRect;
use mandelbrot::error::KernelError;
use mandelbrot::histogram::{tally_chunk, Sample};

fn sample(iteration: u32, fractional: u16) -> Sample {
    Sample { iteration, fractional }
}

#[test]
fn tally_fills_the_buffers() {
    let rect = PixelRect { start_x: 0, start_y: 0, end_x: 2, end_y: 2 };
    let samples = vec![sample(0, 11), sample(4, 22), sample(2, 33), sample(2, 44)];
    let chunk = tally_chunk(4, &rect, &samples).unwrap();
    assert_eq!(chunk.buffers.iterations, vec![0, 4, 2, 2]);
    assert_eq!(chunk.buffers.histogram, vec![1, 0, 2, 0]);
    assert_eq!(chunk.buffers.fractionals, vec![11, 0, 33, 44]);
    assert_eq!(chunk.buffers.pixels, None);
    assert_eq!(chunk.total, 3);
}

#[test]
fn histogram_adds_up_to_the_escaped_count() {
    let rect = PixelRect { start_x: 7, start_y: 3, end_x: 17, end_y: 9 };
    let budget: u32 = 13;
    let mut samples: Vec<Sample> = Vec::new();
    let mut expected: u32 = 0;
    for i in 0u32..60 {
        let iteration: u32 = (i * 7 + 3) % 14;
        if iteration < budget {
            expected += 1;
        }
        samples.push(sample(iteration, (i * 1000) as u16));
    }
    let chunk = tally_chunk(budget, &rect, &samples).unwrap();
    let sum: u32 = chunk.buffers.histogram.iter().sum();
    assert_eq!(sum, chunk.total);
    assert_eq!(chunk.total, expected);
    assert_eq!(chunk.buffers.histogram.len(), 13);
    for k in 0u32..13 {
        let hits: usize = samples.iter().filter(|s| s.iteration == k).count();
        assert_eq!(chunk.buffers.histogram[k as usize] as usize, hits);
    }
}

#[test]
fn a_chunk_that_never_escapes_has_an_empty_histogram() {
    let rect = PixelRect { start_x: 0, start_y: 0, end_x: 3, end_y: 1 };
    let samples = vec![sample(5, 1), sample(5, 2), sample(5, 3)];
    let chunk = tally_chunk(5, &rect, &samples).unwrap();
    assert_eq!(chunk.buffers.histogram, vec![0, 0, 0, 0, 0]);
    assert_eq!(chunk.buffers.fractionals, vec![0, 0, 0]);
    assert_eq!(chunk.buffers.iterations, vec![5, 5, 5]);
    assert_eq!(chunk.total, 0);
}

#[test]
fn a_zero_budget_leaves_nothing_to_escape() {
    let rect = PixelRect { start_x: 0, start_y: 0, end_x: 1, end_y: 2 };
    let samples = vec![sample(0, 9), sample(0, 9)];
    let chunk = tally_chunk(0, &rect, &samples).unwrap();
    assert_eq!(chunk.buffers.histogram, Vec::<u32>::new());
    assert_eq!(chunk.buffers.fractionals, vec![0, 0]);
    assert_eq!(chunk.total, 0);
}

#[test]
fn tally_refuses_a_rectangle_that_is_no_chunk() {
    let flat = PixelRect { start_x: 2, start_y: 0, end_x: 2, end_y: 2 };
    assert_eq!(tally_chunk(4, &flat, &vec![]), Err(KernelError::DegenerateRectangle));
    let huge = PixelRect { start_x: 0, start_y: 0, end_x: 65536, end_y: 65536 };
    assert_eq!(tally_chunk(4, &huge, &vec![]), Err(KernelError::ChunkTooLarge));
}

#[test]
fn tally_wants_one_sample_per_pixel() {
    let rect = PixelRect { start_x: 0, start_y: 0, end_x: 2, end_y: 2 };
    let three = vec![sample(0, 0), sample(1, 0), sample(2, 0)];
    assert_eq!(tally_chunk(4, &rect, &three), Err(KernelError::IterationsLength));
    let five = vec![sample(0, 0); 5];
    assert_eq!(tally_chunk(4, &rect, &five), Err(KernelError::IterationsLength));
}

#[test]
fn tally_refuses_a_count_beyond_the_budget() {
    let rect = PixelRect { start_x: 0, start_y: 0, end_x: 2, end_y: 2 };
    let samples = vec![sample(0, 0), sample(1, 0), sample(5, 0), sample(2, 0)];
    assert_eq!(tally_chunk(4, &rect, &samples), Err(KernelError::IterationBeyondBudget));
    let wrong_length_too = vec![sample(9, 0)];
    assert_eq!(tally_chunk(4, &rect, &wrong_length_too), Err(KernelError::IterationsLength));
}

#[test]
fn tallied_buffers_fit_their_chunk() {
    let rect = PixelRect { start_x: 0, start_y: 0, end_x: 2, end_y: 2 };
    let samples = vec![sample(0, 11), sample(4, 22), sample(2, 33), sample(2, 44)];
    let chunk = tally_chunk(4, &rect, &samples).unwrap();
    assert_eq!(chunk.buffers.check_layout(4, &rect), Ok(4));
}
