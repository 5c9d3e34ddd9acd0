//! The queue that the monitor plays from.
use rvc_realtime::monitor::{MonitorBuffer, FADE};

/// The last sample that was played, from which an empty queue fades.
struct Player {
    last: f32,
}

impl Player {
    /// Fills `out` at `volume`; false when the queue ran dry.
    fn read(&mut self, buf: &mut MonitorBuffer, out: &mut [f32], volume: f32) -> bool {
        let d = buf.read(out.len());
        let have = d.samples.len();
        for (o, v) in out.iter_mut().zip(&d.samples) {
            *o = f32::from_bits(*v) * volume;
        }
        if have > 0 {
            self.last = out[have - 1];
        }
        if have == out.len() {
            return true;
        }
        assert_eq!(d.faded + d.silent, out.len() - have);
        for i in 0..d.faded {
            out[have + i] = self.last * (1.0 - (i + 1) as f32 / d.faded as f32);
        }
        for o in &mut out[have + d.faded..] {
            *o = 0.0;
        }
        self.last = 0.0;
        false
    }
}

fn bits(xs: &[f32]) -> Vec<u32> {
    xs.iter().map(|v| v.to_bits()).collect()
}

/// The two sides run at the same average rate but never line up: the monitor asks in its own chunk
/// size and sometimes before, sometimes after the conversion produced its block. Nothing may be lost.
#[test]
fn jitter_does_not_break_the_stream() {
    let block = 2880;
    let mut buf = MonitorBuffer::new(block);
    let mut player = Player { last: 0.0 };
    let mut next_in = 0f32;
    let mut expect = 0f32;
    let push = |buf: &mut MonitorBuffer, from: &mut f32| {
        let b: Vec<f32> = (0..block).map(|i| *from + i as f32).collect();
        *from += block as f32;
        buf.push(&bits(&b));
    };
    push(&mut buf, &mut next_in); // one block of head start, as the stream has when it opens
    for round in 0..60 {
        // the monitor asks for one block in three chunks, before or after the conversion callback
        let chunks = [1024usize, 1024, 832];
        if round % 2 == 0 {
            push(&mut buf, &mut next_in);
        }
        for n in chunks {
            let mut out = vec![0.0; n];
            assert!(player.read(&mut buf, &mut out, 1.0), "round {round}: ran dry");
            for v in &out {
                assert_eq!(*v, expect, "round {round}");
                expect += 1.0;
            }
        }
        if round % 2 == 1 {
            push(&mut buf, &mut next_in);
        }
    }
    assert_eq!(buf.counts(), (0, 0));
}

/// The queue never grows into a long delay: what the monitor plays stays close to the newest block.
#[test]
fn delay_stays_bounded() {
    let block = 2880;
    let mut buf = MonitorBuffer::new(block);
    let mut player = Player { last: 0.0 };
    for i in 0..100 {
        buf.push(&bits(&vec![i as f32; block]));
    }
    assert!(buf.stored() <= 2 * block, "{}", buf.stored());
    let mut out = vec![0.0; block];
    player.read(&mut buf, &mut out, 1.0);
    assert!(out[0] >= 98.0, "played {} while 99 was the newest", out[0]);
    let (_, dropped) = buf.counts();
    assert!(dropped > 0);
}

/// An empty queue fades out instead of stepping to zero, and the volume applies.
#[test]
fn underrun_fades_out() {
    let block = 480;
    let mut buf = MonitorBuffer::new(block);
    let mut player = Player { last: 0.0 };
    buf.push(&bits(&vec![1.0; block]));
    let mut out = vec![0.0; block + 200];
    assert!(!player.read(&mut buf, &mut out, 0.5));
    assert_eq!(out[block - 1], 0.5);
    assert!(out[block] < 0.5 && out[block] > 0.0, "{}", out[block]);
    assert_eq!(out[block + 150], 0.0);
    let (missing, _) = buf.counts();
    assert_eq!(missing, 200);
}

#[test]
fn a_short_gap_fades_over_all_of_it() {
    let mut buf = MonitorBuffer::new(4);
    buf.push(&[1, 2]);
    let d = buf.read(5);
    assert_eq!(d.samples, [1, 2]);
    assert_eq!((d.faded, d.silent), (3, 0));
    let d = buf.read(100);
    assert_eq!((d.faded, d.silent), (FADE, 4));
    assert_eq!(buf.counts(), (103, 0));
}
