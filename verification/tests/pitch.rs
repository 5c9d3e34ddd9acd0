//! The pitch of a path between its windows.
use half::f16;
use rvc_realtime::pitch::{check_scaled, decode, Estimates, FramePitch, PitchState};

fn half(v: f32) -> u16 {
    f16::from_f32(v).to_bits()
}

fn halves(xs: &[f32]) -> Vec<u16> {
    xs.iter().map(|v| half(*v)).collect()
}

/// The estimates of a window: its pitch shifted by the difference of both shifts, in semitones, and the
/// step of the mel scale that it falls on.
fn estimates(raw: &[f32], tune: f64, formant: f64) -> Estimates {
    let factor = 2.0f64.powf((tune - formant) / 12.0) as f32;
    let mel_min = (1127.0f64 * (1.0 + 50.0 / 700.0f64).ln()) as f32;
    let mel_range = (1127.0f64 * (1.0 + 1100.0 / 700.0f64).ln()
        - 1127.0f64 * (1.0 + 50.0 / 700.0f64).ln()) as f32;
    let coarse = raw
        .iter()
        .map(|v| {
            let mel = 1127.0 * (1.0 + v * factor / 700.0).ln();
            let step = ((mel - mel_min) * 254.0 / mel_range + 1.0).clamp(1.0, 255.0);
            if step.is_nan() {
                1
            } else {
                step.round_ties_even() as i64
            }
        })
        .collect();
    Estimates {
        raw: raw.iter().map(|v| v.to_bits()).collect(),
        shifted: raw.iter().map(|v| half(v * factor)).collect(),
        coarse,
    }
}

fn update(state: &mut PitchState, raw: &[f32], tune: f64, formant: f64) -> Result<(), String> {
    state.update(&estimates(raw, tune, formant), tune.to_bits(), formant.to_bits())
}

fn update_aligned(
    state: &mut PitchState,
    raw: &[f32],
    tune: f64,
    formant: f64,
    hop: usize,
) -> Result<(), String> {
    state.update_aligned(&estimates(raw, tune, formant), tune.to_bits(), formant.to_bits(), hop)
}

/// The pitch for the generator: the kept one times the ratio.
fn generator_pitch(
    state: &PitchState,
    features: usize,
    ratio: f32,
) -> Result<(Vec<i64>, Vec<u16>), String> {
    let (coarse, pitchf) = state.generator_pitch(features, ratio.to_bits())?;
    let scaled: Vec<u16> =
        pitchf.iter().map(|v| half(f16::from_bits(*v).to_f32() * ratio)).collect();
    check_scaled(&scaled)?;
    Ok((coarse, scaled))
}

#[test]
fn elapsed_audio_hop_preserves_absolute_pitch_timestamps() {
    let mut aligned = PitchState::new(67).unwrap();
    let mut legacy = PitchState::new(67).unwrap();
    // One unique F0 value per absolute 10ms slot, overlapping estimates every 160ms.
    for end in [26usize, 42, 58, 74, 90] {
        let raw: Vec<_> = (end - 26..end).map(|slot| 100. + slot as f32).collect();
        update_aligned(&mut aligned, &raw, 0., 0., 16).unwrap();
        update(&mut legacy, &raw, 0., 0.).unwrap();
        let seen = end.min(68);
        let expected: Vec<_> = (end - seen..end).map(|slot| half(100. + slot as f32)).collect();
        assert_eq!(&aligned.continuous()[68 - seen..], expected);
        assert_eq!(&aligned.continuous()[42..], &legacy.continuous()[42..]); // newest window unchanged
        if end > 26 {
            assert_ne!(legacy.continuous(), aligned.continuous()); // reproduces old timeline defect
        }
    }
    let mut oracle = PitchState::new(67).unwrap();
    update(&mut oracle, &(22..90).map(|i| 100. + i as f32).collect::<Vec<_>>(), 0., 0.).unwrap();
    assert_eq!(aligned.coarse(), oracle.coarse());
    assert_eq!(
        generator_pitch(&aligned, 67, 1.).unwrap().1,
        generator_pitch(&oracle, 67, 1.).unwrap().1
    );
    aligned.reset();
    assert!(aligned.continuous().iter().all(|v| *v == 0));
}

#[test]
fn aligned_history_rejects_invalid_hop_or_pitch_without_mutation() {
    let mut state = PitchState::from_cache(vec![20; 4], halves(&[123.; 4])).unwrap();
    for (raw, hop) in [(vec![250.], 0), (vec![250.], 2), (vec![250., f32::NAN], 1)] {
        assert!(update_aligned(&mut state, &raw, 0., 0., hop).is_err());
        assert_eq!(state.coarse(), &[20; 4]);
        assert_eq!(state.continuous(), &halves(&[123.; 4]));
    }
}

#[test]
fn invalid_input_does_not_partially_advance_the_pitch_state() {
    let mut state = PitchState::from_cache(vec![20; 4], halves(&[123.; 4])).unwrap();
    assert!(update(&mut state, &[250., f32::NAN], 0., 0.).is_err());
    assert_eq!(state.coarse(), &[20; 4]);
    assert!(decode(&[f16::NAN.to_bits(); 360], 0.05f32.to_bits(), half(0.05)).is_err());
}

#[test]
fn empty_and_oversized_estimation_windows_follow_circular_write_contract() {
    let mut state = PitchState::new(4).unwrap();
    update(&mut state, &[0., 100., 200., 240., 250., 300., 440., 800.], 0., 0.).unwrap();
    assert_eq!(state.coarse(), &[67, 70, 84, 122, 202]);
    let expected = halves(&[240., 250., 300., 440., 800.]);
    assert_eq!(state.continuous(), &expected);
    update(&mut state, &[], 0., 0.).unwrap();
    assert_eq!(state.continuous(), &expected);
    let (coarse, pitchf) = generator_pitch(&state, 4, 1.5).unwrap();
    assert_eq!(coarse, &[70, 84, 122, 202]);
    assert_eq!(pitchf, halves(&[375., 450., 660., 1200.]));
    state.reset();
    assert_eq!(state.coarse(), &[0; 5]);
    assert_eq!(state.continuous(), &[0; 5]);
}

#[test]
fn refusals_of_the_pitch_say_why() {
    assert_eq!(PitchState::new(0).err().unwrap(), "invalid pitch feature length");
    assert_eq!(PitchState::new(100_000).err().unwrap(), "invalid pitch feature length");
    assert_eq!(
        PitchState::from_cache(vec![1], vec![]).err().unwrap(),
        "invalid pitch cache dimensions"
    );
    assert_eq!(
        PitchState::from_cache(vec![256], vec![0]).err().unwrap(),
        "invalid pitch cache values"
    );
    assert_eq!(
        PitchState::from_cache(vec![1], halves(&[-1.])).err().unwrap(),
        "invalid pitch cache values"
    );
    let mut state = PitchState::new(4).unwrap();
    assert_eq!(update(&mut state, &[100.], 49., 0.).unwrap_err(), "invalid pitch shift");
    assert_eq!(update(&mut state, &[100.], 0., -12.5).unwrap_err(), "invalid pitch shift");
    assert_eq!(update(&mut state, &[-1.], 0., 0.).unwrap_err(), "invalid raw F0");
    assert_eq!(update(&mut state, &[70000.], 0., 0.).unwrap_err(), "invalid raw F0");
    assert_eq!(
        update_aligned(&mut state, &[100.], 0., 0., 2).unwrap_err(),
        "invalid pitch history hop"
    );
    assert_eq!(generator_pitch(&state, 5, 1.).unwrap_err(), "invalid generator pitch slice");
    assert_eq!(generator_pitch(&state, 4, 0.).unwrap_err(), "invalid generator pitch slice");
    update(&mut state, &[60000.], 0., 0.).unwrap();
    assert_eq!(generator_pitch(&state, 4, 2.).unwrap_err(), "formant pitch overflow");
    let short = decode(&[0; 359], 0.05f32.to_bits(), half(0.05)).err().unwrap();
    assert_eq!(short, "invalid salience shape or threshold");
    let high = decode(&[0; 360], 1.5f32.to_bits(), half(1.5)).err().unwrap();
    assert_eq!(high, "invalid salience shape or threshold");
    let negative = decode(&[half(-1.); 360], 0.05f32.to_bits(), half(0.05)).err().unwrap();
    assert_eq!(negative, "non-finite or negative salience");
}

#[test]
fn the_first_largest_salience_counts_and_a_weak_one_is_unvoiced() {
    let mut frames = vec![0u16; 3 * 360];
    frames[100] = half(0.5);
    frames[200] = half(0.5);
    frames[360 + 2] = half(0.75);
    frames[720 + 7] = half(0.04);
    let decoded = decode(&frames, 0.05f32.to_bits(), half(0.05)).unwrap();
    assert!(matches!(decoded[0], FramePitch::Voiced { center: 100, from: 96, to: 105 }));
    assert!(matches!(decoded[1], FramePitch::Voiced { center: 2, from: 0, to: 7 }));
    assert!(matches!(decoded[2], FramePitch::Unvoiced));
}
