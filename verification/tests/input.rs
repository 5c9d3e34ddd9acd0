//! The input on its grid of 16 kHz.
use rvc_realtime::input::{InputTimeline, OutputTaps};

/// The filter between two rates: its rows, one for each phase.
fn kernel(source: usize, target: usize) -> Vec<Vec<f32>> {
    let (mut a, mut b) = (source, target);
    while b != 0 {
        (a, b) = (b, a % b);
    }
    let (original, phases) = (source / a, target / a);
    let base = original.min(phases) as f64 * 0.99;
    let width = (6.0 * original as f64 / base).ceil() as usize;
    let taps = 2 * width + original;
    (0..phases)
        .map(|phase| {
            (0..taps)
                .map(|tap| {
                    let idx = (tap as f32 - width as f32) / original as f32;
                    let t =
                        ((-(phase as f32) / phases as f32 + idx) * base as f32).clamp(-6.0, 6.0);
                    let window = (t * std::f32::consts::PI / 6.0 / 2.0).cos().powi(2);
                    let angle = t * std::f32::consts::PI;
                    let sinc = if angle == 0.0 { 1.0 } else { angle.sin() / angle };
                    sinc * (window * (base / original as f64) as f32)
                })
                .collect()
        })
        .collect()
}

fn filtered(kernel: &[Vec<f32>], taps: &[OutputTaps]) -> Vec<f32> {
    taps.iter()
        .map(|t| {
            t.samples
                .iter()
                .zip(&kernel[t.phase])
                .fold(0.0, |sum, (s, c)| sum + f32::from_bits(*s) * c)
        })
        .collect()
}

fn bits(xs: &[f32]) -> Vec<u32> {
    xs.iter().map(|v| v.to_bits()).collect()
}

#[test]
fn delayed_input_is_independent_of_block_partition_and_resets() {
    // Equal source audio split into 50ms-ish and 160ms-ish blocks, with tones
    // and sparse impulses. Partitioning alone must not introduce edges in the signal.
    for rate in [48000, 44100] {
        let rows = kernel(rate, 16000);
        let input: Vec<f32> = (0..145920)
            .map(|i| {
                let tone =
                    (std::f64::consts::TAU * 173. * i as f64 / rate as f64).sin() as f32 * 0.2;
                tone + if i % 12997 == 0 { 0.5 } else { 0. }
            })
            .collect();
        let run = |block: usize, delayed: bool| {
            let mut resampler = if delayed {
                InputTimeline::new_delayed(rate, block).unwrap()
            } else {
                InputTimeline::new(rate, block).unwrap()
            };
            let mut out = Vec::new();
            for chunk in input.chunks_exact(block) {
                out.extend(filtered(&rows, &resampler.push(&bits(chunk)).unwrap()));
            }
            assert_eq!(out.len(), (input.len() * 16000).div_ceil(rate));
            assert_eq!(resampler.total_output(), out.len() as u64);
            resampler.reset();
            assert_eq!(resampler.total_output(), 0);
            let replay = filtered(&rows, &resampler.push(&bits(&input[..block])).unwrap());
            assert_eq!(replay, &out[..replay.len()]);
            out
        };
        let max_delta = |a: &[f32], b: &[f32]| {
            a.iter().zip(b).map(|(a, b)| (a - b).abs()).fold(0f32, f32::max)
        };
        let short = run(2432, true);
        let long = run(7680, true);
        assert!(short.iter().any(|v| v.abs() > 0.1));
        assert!(max_delta(&short, &long) < 1e-6);
        // The undelayed path remains different at block boundaries.
        assert!(max_delta(&run(2432, false), &run(7680, false)) > 0.01);
    }
}

#[test]
fn counts_follow_the_grid_and_bad_blocks_are_refused() {
    let mut t = InputTimeline::new(44100, 441).unwrap();
    assert_eq!(t.push(&[0; 441]).unwrap().len(), 160);
    assert_eq!(t.push(&[0; 440]).err().unwrap(), "invalid input block");
    let mut bad = [0u32; 441];
    bad[7] = f32::INFINITY.to_bits();
    assert_eq!(t.push(&bad).err().unwrap(), "invalid input block");
    assert_eq!(t.total_output(), 160);
    assert_eq!(InputTimeline::new(32000, 441).err().unwrap(), "unsupported input dimensions");
    assert_eq!(InputTimeline::new(48000, 0).err().unwrap(), "unsupported input dimensions");
    assert_eq!(InputTimeline::new(48000, 32769).err().unwrap(), "unsupported input dimensions");
    let mut odd = InputTimeline::new(48000, 100).unwrap();
    let counts: Vec<usize> = (0..3).map(|_| odd.push(&[0; 100]).unwrap().len()).collect();
    assert_eq!(counts, [34, 33, 33]);
}
