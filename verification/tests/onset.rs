//! The detector of utterances and their answers.
use rvc_realtime::onset::{Measurement, OnsetLatency};

/// A detector with the loudness of its windows, which is -45 dBFS or more.
struct Detector {
    onset: OnsetLatency,
    input_energy: f64,
    output_energy: f64,
    count: usize,
}

impl Detector {
    fn new(rate: u32) -> Detector {
        Detector { onset: OnsetLatency::new(rate), input_energy: 0.0, output_energy: 0.0, count: 0 }
    }

    fn reset(&mut self) {
        self.onset.reset();
        self.input_energy = 0.0;
        self.output_energy = 0.0;
        self.count = 0;
    }

    fn observe(&mut self, input: &[f32], output: &[f32], start: u64, end: u64) -> Option<Measurement> {
        let mut active = Vec::new();
        for (i, o) in input.iter().zip(output) {
            self.input_energy += (*i as f64).powi(2);
            self.output_energy += (*o as f64).powi(2);
            self.count += 1;
            if self.count == self.onset.window_frames {
                let power = 0.000031622776601683795;
                active.push((
                    self.input_energy / self.count as f64 >= power,
                    self.output_energy / self.count as f64 >= power,
                ));
                self.input_energy = 0.0;
                self.output_energy = 0.0;
                self.count = 0;
            }
        }
        let bits = |xs: &[f32]| xs.iter().map(|v| v.to_bits()).collect::<Vec<u32>>();
        self.onset.observe(
            &bits(input),
            &bits(output),
            &active,
            start as u128 * 1_000_000,
            end as u128 * 1_000_000,
        )
    }
}

fn elapsed_ms(m: Measurement) -> f32 {
    m.elapsed() as f32 / 1_000_000.0
}

fn observe(d: &mut Detector, input: &[f32], output: &[f32], start: u64, end: u64) -> Option<f32> {
    d.observe(input, output, start, end).map(elapsed_ms)
}

fn armed() -> Detector {
    let mut d = Detector::new(1000);
    assert!(observe(&mut d, &[0.0; 300], &[0.0; 300], 0, 20).is_none());
    d
}

#[test]
fn measures_real_elapsed_time_across_blocks_and_updates_on_next_utterance() {
    let mut d = armed();
    assert!(observe(&mut d, &[0.1; 50], &[0.0; 50], 300, 340).is_none());
    assert!(observe(&mut d, &[0.1; 50], &[0.0; 50], 350, 390).is_none());
    assert_eq!(observe(&mut d, &[0.1; 50], &[0.1; 50], 400, 440), Some(140.0));
    assert!(observe(&mut d, &[0.1; 50], &[0.1; 50], 450, 490).is_none());
    observe(&mut d, &[0.0; 300], &[0.0; 300], 500, 520);
    assert_eq!(observe(&mut d, &[0.1; 50], &[0.1; 50], 800, 825), Some(25.0));
}

#[test]
fn refuses_startup_sound_background_noise_and_old_output_tail() {
    let mut d = Detector::new(1000);
    assert!(observe(&mut d, &[0.1; 50], &[0.1; 50], 0, 20).is_none());
    assert!(observe(&mut d, &[0.001; 300], &[0.1; 300], 50, 70).is_none());
    assert!(observe(&mut d, &[0.1; 50], &[0.1; 50], 350, 370).is_none());
    observe(&mut d, &[0.001; 300], &[0.001; 300], 400, 420);
    assert_eq!(observe(&mut d, &[0.1; 50], &[0.1; 50], 700, 730), Some(30.0));
}

#[test]
fn rejects_clicks_and_output_that_precedes_input_in_the_same_block() {
    let mut d = armed();
    assert!(observe(&mut d, &[0.1; 1], &[0.1; 1], 300, 320).is_none());
    observe(&mut d, &[0.0; 300], &[0.0; 300], 301, 321);
    let mut input = [0.0; 50];
    input[20..].fill(0.1);
    assert!(observe(&mut d, &input, &[0.1; 50], 601, 621).is_none());
}

#[test]
fn confirmation_across_a_block_boundary_uses_first_output_ready_time() {
    let mut d = armed();
    observe(&mut d, &[0.1; 50], &[0.0; 50], 300, 330);
    observe(&mut d, &[0.1; 2], &[0.1; 2], 350, 380);
    assert_eq!(observe(&mut d, &[0.1; 10], &[0.1; 10], 352, 400), Some(80.0));
}

#[test]
fn missing_output_times_out_and_discontinuity_requires_new_silence() {
    let mut d = armed();
    observe(&mut d, &[0.1; 50], &[0.0; 50], 300, 330);
    assert!(observe(&mut d, &[0.1; 50], &[0.1; 50], 3400, 3430).is_none());
    d.reset();
    assert!(observe(&mut d, &[0.1; 50], &[0.1; 50], 3500, 3530).is_none());
}

#[test]
fn short_utterance_can_wait_through_silence_for_a_delayed_output() {
    let mut d = armed();
    observe(&mut d, &[0.1; 10], &[0.0; 10], 300, 330);
    observe(&mut d, &[0.0; 400], &[0.0; 400], 310, 340);
    assert_eq!(observe(&mut d, &[0.0; 50], &[0.1; 50], 710, 750), Some(450.0));
}

#[test]
fn detector_accepts_48k_and_44100_and_non_ms_blocks() {
    for sr in [48000, 44100] {
        let mut d = Detector::new(sr);
        let quiet = vec![0.0; sr as usize / 2];
        observe(&mut d, &quiet, &quiet, 0, 20);
        let sound = vec![0.1; 2176];
        assert_eq!(observe(&mut d, &sound, &sound, 500, 540), Some(40.0));
    }
}

#[test]
fn tracks_the_utterance_block_until_its_output_not_the_immediate_return() {
    let mut d = armed(); // block 0
    assert!(d.observe(&[0.1; 50], &[0.0; 50], 300, 320).is_none());
    let m = d.observe(&[0.1; 50], &[0.1; 50], 350, 370).unwrap();
    assert_eq!((m.input_block, m.output_block), (1, 2));
    assert_eq!(m.input_received, 300_000_000);
    assert_eq!(m.output_written, 370_000_000);
    assert_eq!(elapsed_ms(m), 70.0); // 50 ms arrival wait + 20 ms processing
    let packed = m.packed(elapsed_ms(m).to_bits());
    assert_eq!(packed >> 32, 1);
    assert_eq!(f32::from_bits(packed as u32), 70.0);
}

#[test]
fn records_first_output_block_even_when_confirmation_happens_later() {
    let mut d = armed();
    d.observe(&[0.1; 50], &[0.0; 50], 300, 320);
    d.observe(&[0.1; 2], &[0.1; 2], 350, 370);
    let m = d.observe(&[0.1; 10], &[0.1; 10], 400, 420).unwrap();
    assert_eq!((m.input_block, m.output_block), (1, 2));
    assert_eq!(elapsed_ms(m), 70.0);
}

#[test]
fn blocks_that_do_not_fit_or_are_not_finite_cancel() {
    let mut d = armed();
    assert!(d.onset.armed);
    assert!(d.onset.observe(&[0; 3], &[0; 2], &[], 0, 1).is_none());
    assert!(!d.onset.armed);
    let mut d = armed();
    assert!(d.onset.observe(&[0; 2], &[0; 2], &[(false, false); 2], 5, 4).is_none());
    assert!(!d.onset.armed);
    let mut d = armed();
    let nan = [0, f32::NAN.to_bits()];
    assert!(d.onset.observe(&nan, &[0; 2], &[(false, false); 2], 0, 1).is_none());
    assert!(!d.onset.armed);
    assert_eq!(d.onset.window, 301);
    assert_eq!(d.onset.next_block, 2);
}

#[test]
fn a_bad_block_asks_for_quiet_again() {
    let mut d = armed();
    d.observe(&[0.1; 50], &[0.0; 50], 300, 330);
    let bad = [f32::INFINITY; 10];
    assert!(d.observe(&bad, &[0.0; 10], 350, 360).is_none());
    d.input_energy = 0.0;
    d.output_energy = 0.0;
    d.count = 0;
    assert!(d.observe(&[0.1; 50], &[0.1; 50], 400, 430).is_none());
    assert!(d.observe(&[0.0; 299], &[0.0; 299], 450, 460).is_none());
    assert!(d.observe(&[0.1; 50], &[0.1; 50], 750, 760).is_none());
    assert!(d.observe(&[0.0; 300], &[0.0; 300], 800, 810).is_none());
    let m = d.observe(&[0.1; 50], &[0.1; 50], 1100, 1125).unwrap();
    assert_eq!((m.input_block, m.output_block), (7, 7));
    assert_eq!((m.input_received, m.output_written), (1_100_000_000, 1_125_000_000));
}

#[test]
fn a_reset_does_not_count_the_blocks_anew() {
    let mut d = armed();
    d.reset();
    d.observe(&[0.0; 300], &[0.0; 300], 300, 310);
    d.observe(&[0.1; 50], &[0.0; 50], 600, 620);
    let m = d.observe(&[0.0; 50], &[0.1; 50], 650, 690).unwrap();
    assert_eq!((m.input_block, m.output_block), (2, 3));
    assert_eq!((m.input_received, m.output_written), (600_000_000, 690_000_000));
}

#[test]
fn a_measurement_comes_once() {
    let mut d = armed();
    assert_eq!(observe(&mut d, &[0.1; 50], &[0.1; 50], 300, 340), Some(40.0));
    for i in 0..20 {
        assert!(observe(&mut d, &[0.1; 50], &[0.1; 50], 350 + i, 400 + i).is_none());
    }
}
