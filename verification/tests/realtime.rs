//! Devices, the state of a stream and what is measured of it.
use rvc_realtime::onset::Measurement;
use rvc_realtime::owner::{check_output, OwnedProcessor};
use rvc_realtime::realtime::{
    list_devices, onset_latency, select_devices, Device, Devices, Health, Status, Step,
    StreamCounters, NOTHING_MEASURED, STREAM_STALL_MS,
};

#[test]
fn startup_completion_preserves_callback_error() {
    // the stream may deliver a failed first callback before it is started
    let mut health = Health::new();
    health.fail("inference: first callback failed".to_string());
    health.publish_running();
    assert!(matches!(health.status, Status::Error));
    assert_eq!(health.text, "inference: first callback failed");
}

#[test]
fn successful_startup_publishes_running() {
    let mut health = Health::new();
    assert!(matches!(health.status, Status::Loading));
    assert_eq!(health.text, "loading");
    health.publish_running();
    assert!(matches!(health.status, Status::Running));
    assert_eq!(health.text, "running");
}

#[test]
fn a_stream_without_callbacks_has_ended() {
    let mut health = Health::new();
    health.publish_running();
    health.last_callback_ms = 100;
    assert!(matches!(health.poll(100 + STREAM_STALL_MS), Status::Running));
    assert!(matches!(health.poll(101 + STREAM_STALL_MS), Status::Error));
    assert!(matches!(health.status, Status::Error));
}

fn device(name: &str, inputs: i32, outputs: i32) -> Device {
    Device {
        name: name.to_owned(),
        max_input_channels: inputs,
        max_output_channels: outputs,
        default_sample_rate: 48000,
    }
}

fn wanted(input: &str, output: &str, monitor: Option<&str>) -> Devices {
    Devices {
        input: input.to_owned(),
        output: output.to_owned(),
        monitor: monitor.map(str::to_owned),
        wasapi_exclusive: false,
    }
}

#[test]
fn devices_are_listed_by_their_channels() {
    let all = vec![device("mic", 1, 0), device("headset", 2, 2), device("speaker", 0, 2)];
    let list = list_devices(&all);
    let names = |xs: &[rvc_realtime::realtime::DeviceEntry]| {
        xs.iter().map(|d| d.name.clone()).collect::<Vec<_>>()
    };
    assert_eq!(names(&list.inputs), ["mic", "headset"]);
    assert_eq!(names(&list.outputs), ["headset", "speaker"]);
}

#[test]
fn devices_are_chosen_by_name() {
    let all = vec![device("mic", 1, 0), device("headset", 2, 2), device("speaker", 0, 8)];
    let s = select_devices(&all, &wanted("mic", "speaker", Some("headset"))).unwrap();
    assert_eq!((s.input, s.output), (0, 2));
    assert_eq!(s.monitor.unwrap().0, 1);
    assert!(select_devices(&all, &wanted("none", "speaker", None)).is_err());
    assert!(select_devices(&all, &wanted("mic", "mic", None)).is_err());
    assert!(select_devices(&all, &wanted("mic", "speaker", Some("mic"))).is_err());
}

#[test]
fn a_measured_latency_reads_back() {
    let m = Measurement {
        input_block: 3,
        output_block: 5,
        input_received: 1_000_000,
        output_written: 71_000_000,
    };
    let packed = m.packed(70.0f32.to_bits());
    let (ms, blocks) = onset_latency(packed).unwrap();
    assert_eq!(f32::from_bits(ms), 70.0);
    assert_eq!(blocks, 2);
    assert!(onset_latency(NOTHING_MEASURED).is_none());
}

#[test]
fn a_stream_counts_its_blocks() {
    let mut c = StreamCounters::new(48000, 480);
    assert!(matches!(c.begin(0, 10, 480, true), Step::Convert));
    c.finish(true);
    assert!(matches!(c.begin(0, 20, 480, false), Step::Silence));
    assert!(matches!(c.begin(0, 30, 100, true), Step::Silence));
    assert_eq!(c.last_callback_ms, 30);
    assert_eq!(c.late_blocks, 1);
}

#[test]
fn a_stream_has_a_detector_for_its_rate() {
    let c = StreamCounters::new(48000, 480);
    assert_eq!((c.block, c.measurement), (480, NOTHING_MEASURED));
    assert_eq!((c.onset.window_frames, c.onset.quiet_windows, c.onset.attack_windows), (48, 300, 5));
    let c = StreamCounters::new(44100, 441);
    assert_eq!((c.onset.window_frames, c.onset.quiet_windows, c.onset.attack_windows), (44, 301, 6));
    let c = StreamCounters::new(0, 1);
    assert_eq!((c.onset.window_frames, c.onset.quiet_windows, c.onset.attack_windows), (1, 0, 1));
}

#[test]
fn a_measurement_is_published_where_no_flag_is_set() {
    // blocks of 10 ms: 300 ms of silence, then a loud input whose output comes two blocks later
    let ms = |nanos: u128| (nanos as f32 / 1e6).to_bits();
    let block = [0u32; 480];
    let run = |flag: u32| {
        let mut c = StreamCounters::new(48000, 480);
        for i in 0..34u128 {
            let active = [(i == 31, i == 33); 10];
            let flags = if i == 32 { flag } else { 0 };
            assert!(matches!(c.begin(flags, 0, 480, true), Step::Convert));
            c.observe(flags, &block, &block, &active, i * 10_000_000, i * 10_000_000 + 1, ms);
            c.finish(false);
        }
        c.measurement
    };
    let (elapsed, blocks) = onset_latency(run(0)).unwrap();
    assert_eq!(blocks, 2);
    assert_eq!(f32::from_bits(elapsed).round(), 20.0);
    assert_eq!(run(2), NOTHING_MEASURED);
}

#[test]
fn an_owner_takes_nothing_after_a_failure() {
    let mut owner = OwnedProcessor::new(2);
    assert_eq!(owner.block_frames(), 2);
    assert!(owner.submit(3).is_err());
    assert!(owner.submit(2).is_ok());
    owner.complete(true);
    assert!(owner.submit(2).is_ok());
    owner.complete(false);
    assert!(owner.submit(2).is_err());
    assert!(check_output(2, &[0, 1.0f32.to_bits()]).is_ok());
    assert!(check_output(2, &[0]).is_err());
    assert!(check_output(1, &[f32::NAN.to_bits()]).is_err());
}
