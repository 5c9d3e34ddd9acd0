//! Waiting for a stream, and the set-up of its stages.
use rvc_realtime::gpu_runtime::{check, stage_dimensions, stage_options, GraphKind, Wait};

/// A stream whose calls are recorded.
struct Device {
    calls: Vec<&'static str>,
    record_error: i32,
    wait_error: i32,
}

impl Device {
    fn new(record_error: i32, wait_error: i32) -> Device {
        Device { calls: Vec::new(), record_error, wait_error }
    }

    fn wait_or_drain(&mut self) -> Result<(), String> {
        let mut step = Wait::begin();
        loop {
            let code = match &step {
                Wait::Record => {
                    self.calls.push("record");
                    self.record_error
                }
                Wait::Event => {
                    self.calls.push("wait");
                    self.wait_error
                }
                Wait::Drain(_) => {
                    self.calls.push("drain");
                    99 // a drain failure must not replace the original event error
                }
                Wait::Done(result) => return result.clone(),
            };
            step = step.next(code);
        }
    }

    fn finish(mut self) -> Vec<&'static str> {
        self.calls.push("destroy");
        self.calls
    }
}

#[test]
fn reusing_completed_event_records_again_before_each_wait() {
    let mut device = Device::new(0, 0);
    device.wait_or_drain().unwrap();
    device.wait_or_drain().unwrap();
    assert_eq!(device.finish(), ["record", "wait", "record", "wait", "destroy"]);
}

#[test]
fn failed_record_drains_without_waiting_on_stale_event() {
    let mut device = Device::new(7, 0);
    let error = device.wait_or_drain().unwrap_err();
    assert_eq!(error.to_string(), "record blocking completion event failed: 7");
    assert_eq!(device.finish(), ["record", "drain", "destroy"]);
}

#[test]
fn failed_wait_drains_and_preserves_original_error() {
    let mut device = Device::new(0, 8);
    let error = device.wait_or_drain().unwrap_err();
    assert_eq!(error.to_string(), "wait for blocking completion event failed: 8");
    assert_eq!(device.finish(), ["record", "wait", "drain", "destroy"]);
}

#[test]
fn statuses_are_reported_with_their_sign() {
    assert!(check(0, "cudaMemcpy").is_ok());
    assert_eq!(check(-17, "cufftPlan1d").unwrap_err(), "cufftPlan1d failed: -17");
    assert_eq!(check(i32::MIN, "x").unwrap_err(), "x failed: -2147483648");
    assert_eq!(check(i32::MAX, "x").unwrap_err(), "x failed: 2147483647");
}

#[test]
fn every_kind_of_stage_has_its_options() {
    let o = stage_options(GraphKind::Pitch);
    assert!(!o.thorough && o.norms_apart && !o.deterministic && !o.device_sync);
    let o = stage_options(GraphKind::ContentVec);
    assert!(o.thorough && !o.norms_apart && o.deterministic && !o.device_sync);
    let o = stage_options(GraphKind::Dsp);
    assert!(!o.thorough && !o.norms_apart && !o.deterministic && o.device_sync);
    let o = stage_options(GraphKind::Generator);
    assert!(o.thorough && !o.norms_apart && o.deterministic && !o.device_sync);
}

#[test]
fn an_analysis_has_whole_blocks_of_frames() {
    let d: Vec<(String, usize)> =
        stage_dimensions(3040).into_iter().map(|d| (d.name, d.size)).collect();
    assert_eq!(
        d,
        [
            ("audio_len".to_owned(), 3040),
            ("real_frames".to_owned(), 20),
            ("mel_frames".to_owned(), 32),
            ("audio_dynamic_axes_1".to_owned(), 3040),
        ]
    );
    assert_eq!(stage_dimensions(5120)[2].size, 64);
}
