//! The lengths of the low-latency path.
use rvc_realtime::startup::{Counts, Dims, ResampleInputs, Startup};
use rvc_realtime::tg::Trial;

#[derive(Clone, Copy)]
struct Times {
    sample_rate: usize,
    chunk: usize,
    block_frames: Option<usize>,
    extra_ms: f64,
    crossfade_ms: f64,
    formant: f64,
}

impl Times {
    fn startup(&self) -> Startup {
        Startup {
            sample_rate: self.sample_rate,
            chunk: self.chunk,
            block_frames: self.block_frames,
            extra_ms: self.extra_ms.to_bits(),
            crossfade_ms: self.crossfade_ms.to_bits(),
            formant: self.formant.to_bits(),
        }
    }

    fn counts(&self) -> Counts {
        let to16 = |n: usize| (n as f64 / self.sample_rate as f64 * 16000.0) as usize;
        let crossfade = (self.crossfade_ms / 1000.0 * self.sample_rate as f64) as usize;
        let extra = (self.extra_ms / 1000.0 * self.sample_rate as f64) as usize;
        Counts {
            crossfade,
            block16: to16(self.block_frames.unwrap_or(self.chunk * 128)),
            crossfade16: to16(crossfade),
            extra16: to16(extra),
            search16: to16(self.sample_rate / 100),
        }
    }

    fn shifted(&self, model_rate: usize, ret: usize) -> (usize, usize) {
        let factor = 2.0f64.powf(self.formant / 12.0);
        (
            (ret as f64 * factor).ceil() as usize,
            (factor * (model_rate / 100) as f64).floor() as usize,
        )
    }

    fn tg_dims(&self, model_rate: usize) -> Result<Dims, String> {
        let (s, c) = (self.startup(), self.counts());
        s.validate(model_rate, true)?;
        let w = s.window(model_rate, &c, true);
        let (formant_length, scaled_window) = self.shifted(model_rate, w.ret);
        s.tg_dims(model_rate, &c, formant_length, scaled_window)
    }

    fn dimensions(&self, trial: Trial, model_rate: usize) -> Result<Dims, String> {
        let (s, c) = (self.startup(), self.counts());
        s.validate(model_rate, true)?;
        let w = s.window(model_rate, &c, true);
        let (formant_length, scaled_window) = self.shifted(model_rate, w.ret);
        trial.dimensions(&s, model_rate, &c, formant_length, scaled_window)
    }
}

#[test]
fn full_pitch_context_changes_analysis_only() {
    for rate in [44100, 48000] {
        let startup = Times {
            sample_rate: rate,
            chunk: 60,
            block_frames: None,
            extra_ms: 3000.,
            crossfade_ms: 30.,
            formant: -0.2,
        };
        let normal = startup.dimensions(Trial::default(), 40000).unwrap();
        let full = startup
            .dimensions(Trial { full_pitch_context: true, ..Trial::default() }, 40000)
            .unwrap();
        assert!(normal.silence_front > 0);
        assert_eq!(full.silence_front, 0);
        let mut expected = normal;
        expected.silence_front = 0;
        assert!(expected == full);
    }
}

#[test]
fn minimum_pitch_window_extends_context_not_returned_audio() {
    let startup = Times {
        sample_rate: 48000,
        chunk: 19,
        block_frames: None,
        extra_ms: 0.,
        crossfade_ms: 20.,
        formant: 0.,
    };
    let dims = startup.tg_dims(40000).unwrap();
    assert_eq!(
        (dims.block, dims.convert, dims.features, dims.skip, dims.ret, dims.silence_front),
        (2432, 3040, 19, 10, 9, 0)
    );
    let long = Times { crossfade_ms: 160., ..startup };
    let dims = long.tg_dims(40000).unwrap();
    assert_eq!((dims.convert, dims.skip, dims.ret, dims.silence_front), (3680, 0, 23, 0));
}

#[test]
fn supported_layouts_keep_generation_and_estimation_ranges_valid() {
    for rate in [44100, 48000] {
        for model_rate in [32000, 40000, 48000] {
            for extra in [0., 50., 500., 1000., 5000.] {
                for crossfade in [20., 40., 50., 70., 100.] {
                    for chunk in [19, 23, 24, 60] {
                        for formant in [-12., -0.2, 0., 12.] {
                            let startup = Times {
                                sample_rate: rate,
                                chunk,
                                block_frames: None,
                                extra_ms: extra,
                                crossfade_ms: crossfade,
                                formant,
                            };
                            let dims = startup.tg_dims(model_rate).unwrap();
                            assert!(dims.convert - dims.silence_front >= 3040);
                            assert_eq!(dims.features, dims.skip + dims.ret);
                            assert!(dims.generated >= dims.trimmed);
                        }
                    }
                }
            }
        }
    }
}

#[test]
fn aligned_history_poc_rejects_fractional_hops_before_loading_models() {
    let mut startup = Times {
        sample_rate: 48000,
        chunk: 60,
        block_frames: None,
        extra_ms: 3000.,
        crossfade_ms: 30.,
        formant: -0.2,
    };
    let trial = Trial { aligned_pitch_history: true, ..Trial::default() };
    assert!(startup.dimensions(trial, 40000).is_ok());
    startup.chunk = 19;
    assert!(startup.dimensions(trial, 40000).is_err());
    startup.sample_rate = 44100;
    startup.block_frames = Some(4410);
    assert!(startup.dimensions(trial, 40000).is_ok());
    startup.block_frames = None;
    assert!(startup.dimensions(trial, 40000).is_err());
    assert!(startup.dimensions(Trial::default(), 40000).is_ok());
}

#[test]
fn parameters_outside_their_ranges_are_refused() {
    let good = Times {
        sample_rate: 48000,
        chunk: 60,
        block_frames: None,
        extra_ms: 500.,
        crossfade_ms: 50.,
        formant: 0.,
    };
    let fault = |t: Times, rate: usize, tg: bool| t.startup().validate(rate, tg).err();
    assert_eq!(fault(good, 40000, true), None);
    let wrong = Times { sample_rate: 96000, ..good };
    assert_eq!(fault(wrong, 40000, true).unwrap(), "unsupported device rate");
    assert_eq!(fault(good, 44100, true).unwrap(), "unsupported model rate");
    for chunk in [0, 257] {
        assert_eq!(
            fault(Times { chunk, ..good }, 40000, true).unwrap(),
            "chunk out of supported range"
        );
    }
    for extra_ms in [-1., 5000.5, f64::NAN, f64::INFINITY] {
        assert_eq!(fault(Times { extra_ms, ..good }, 40000, true).unwrap(), "invalid extra context");
    }
    let short = Times { extra_ms: 49., ..good };
    assert_eq!(fault(short, 40000, true), None);
    assert_eq!(fault(short, 40000, false).unwrap(), "invalid extra context");
    for crossfade_ms in [0.5, 1000.5, f64::NAN] {
        assert_eq!(
            fault(Times { crossfade_ms, ..good }, 40000, true).unwrap(),
            "invalid crossfade"
        );
    }
    for formant in [-12.5, 12.5, f64::NAN] {
        assert_eq!(fault(Times { formant, ..good }, 40000, true).unwrap(), "invalid formant");
    }
    let tiny = Times { block_frames: Some(127), ..good };
    assert_eq!(fault(tiny, 40000, true).unwrap(), "invalid resolved block frames");
}

#[test]
fn a_window_that_is_not_generated_is_refused() {
    let t = Times {
        sample_rate: 48000,
        chunk: 60,
        block_frames: None,
        extra_ms: 500.,
        crossfade_ms: 50.,
        formant: 0.,
    };
    let w = t.startup().window(40000, &t.counts(), false);
    assert_eq!(
        w.dims(40000, w.ret - 1, 401).err().unwrap(),
        "invalid processing window"
    );
}

#[test]
fn resampling_tables_count_and_pad() {
    let same = ResampleInputs::new(48000, 48000, 5, 0).unwrap();
    assert_eq!((same.phases, same.taps, same.frames), (1, 1, 5));
    assert_eq!(same.indices, [1, 2, 3, 4, 5]);
    // three samples become one, with a reach of two
    let down = ResampleInputs::new(48000, 16000, 4, 2).unwrap();
    assert_eq!((down.phases, down.taps, down.frames), (1, 7, 2));
    assert_eq!(down.indices, [0, 0, 1, 2, 3, 4, 0, 2, 3, 4, 0, 0, 0, 0]);
    assert_eq!(
        ResampleInputs::new(0, 16000, 4, 2).err().unwrap(),
        "invalid resample dimensions"
    );
    assert_eq!(
        ResampleInputs::new(48000, 16000, 1_000_001, 2).err().unwrap(),
        "invalid resample dimensions"
    );
    assert_eq!(
        ResampleInputs::new(191999, 192000, 1000, 20).err().unwrap(),
        "resampling allocation exceeds bound"
    );
}
