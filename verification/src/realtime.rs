//! The audio side: the devices of a stream, what the stream reports of itself, and what each stream
//! callback has to do.
use crate::bits;
use crate::bits::is_finite_single;
use crate::error::{Error, ErrorValue};
use crate::onset::{Measurement, OnsetLatency};
use crate::{onset, text};
use crate::text::{join, join3, same};
use vstd::prelude::*;
use vstd::string::*;

verus! {

broadcast use vstd::string::group_string_axioms;

/// Options of an engine.
pub struct EngineOptions {
    /// The directory of the runtime libraries, which is put first on the search path.
    pub runtime_dir: String,
    /// The seed of the generator's noise.
    pub seed: u64,
}

pub struct RealtimeOptions {
    pub engine: EngineOptions,
}

/// The devices of a stream, by name.
pub struct Devices {
    pub input: String,
    pub output: String,
    /// A device that also plays the converted voice, at the monitor volume.
    pub monitor: Option<String>,
    pub wasapi_exclusive: bool,
}

pub struct DeviceEntry {
    pub name: String,
    pub default_sample_rate: u32,
}

pub struct DeviceList {
    pub inputs: Vec<DeviceEntry>,
    pub outputs: Vec<DeviceEntry>,
}

/// A device as the audio library lists it.
pub struct Device {
    pub name: String,
    pub max_input_channels: i32,
    pub max_output_channels: i32,
    pub default_sample_rate: u32,
}

/// The name and the rate of a device.
pub open spec fn entry_of(d: Device) -> (Seq<char>, u32) {
    (d.name@, d.default_sample_rate)
}

/// The names and rates of entries.
pub open spec fn entries(xs: Seq<DeviceEntry>) -> Seq<(Seq<char>, u32)> {
    Seq::new(xs.len(), |i: int| (xs[i].name@, xs[i].default_sample_rate))
}

/// The names and rates of the first `n` devices, of those with inputs or of those with outputs.
pub open spec fn listed(devices: Seq<Device>, n: int, inputs: bool) -> Seq<(Seq<char>, u32)>
    decreases n,
{
    if n <= 0 {
        Seq::empty()
    } else {
        let d = devices[n - 1];
        let known = listed(devices, n - 1, inputs);
        if (inputs && d.max_input_channels > 0) || (!inputs && d.max_output_channels > 0) {
            known.push(entry_of(d))
        } else {
            known
        }
    }
}

/// The devices with inputs and those with outputs, each in the order of the audio library.
pub fn list_devices(devices: &Vec<Device>) -> (r: DeviceList)
    ensures
        entries(r.inputs@) == listed(devices@, devices@.len() as int, true),
        entries(r.outputs@) == listed(devices@, devices@.len() as int, false),
{
    let mut inputs: Vec<DeviceEntry> = Vec::new();
    let mut outputs: Vec<DeviceEntry> = Vec::new();
    let mut i: usize = 0;
    assert(entries(inputs@) =~= Seq::empty());
    assert(entries(outputs@) =~= Seq::empty());
    while i < devices.len()
        invariant
            i <= devices@.len(),
            entries(inputs@) == listed(devices@, i as int, true),
            entries(outputs@) == listed(devices@, i as int, false),
        decreases devices@.len() - i,
    {
        let d = &devices[i];
        let ghost old_inputs = inputs@;
        let ghost old_outputs = outputs@;
        if d.max_input_channels > 0 {
            inputs.push(
                DeviceEntry { name: d.name.clone(), default_sample_rate: d.default_sample_rate },
            );
            assert(entries(inputs@) =~= entries(old_inputs).push(entry_of(*d)));
        }
        if d.max_output_channels > 0 {
            outputs.push(
                DeviceEntry { name: d.name.clone(), default_sample_rate: d.default_sample_rate },
            );
            assert(entries(outputs@) =~= entries(old_outputs).push(entry_of(*d)));
        }
        i += 1;
    }
    DeviceList { inputs, outputs }
}

/// The first device of that name, from `from` on, with inputs or with outputs.
pub open spec fn found(devices: Seq<Device>, name: Seq<char>, inputs: bool, from: int) -> Option<int>
    decreases devices.len() - from,
{
    if from < 0 || from >= devices.len() {
        None
    } else if ((inputs && devices[from].max_input_channels > 0) || (!inputs
        && devices[from].max_output_channels > 0)) && devices[from].name@ == name {
        Some(from)
    } else {
        found(devices, name, inputs, from + 1)
    }
}

fn find(devices: &Vec<Device>, name: &str, inputs: bool) -> (r: Option<usize>)
    ensures
        match found(devices@, name@, inputs, 0) {
            Some(i) => r matches Some(j) && i == j && i < devices@.len() && if inputs {
                devices@[i].max_input_channels > 0
            } else {
                devices@[i].max_output_channels > 0
            },
            None => r is None,
        },
{
    let mut i: usize = 0;
    while i < devices.len()
        invariant
            i <= devices@.len(),
            found(devices@, name@, inputs, 0) == found(devices@, name@, inputs, i as int),
        decreases devices@.len() - i,
    {
        let d = &devices[i];
        let usable: bool = if inputs {
            d.max_input_channels > 0
        } else {
            d.max_output_channels > 0
        };
        if usable && same(d.name.as_str(), name) {
            return Some(i);
        }
        i += 1;
    }
    None
}

/// The devices that a stream opens, by their places, and the channels of each side.
pub struct Selection {
    pub input: usize,
    pub output: usize,
    /// The channels of the full-duplex stream: those that both devices have, two at most.
    pub channels: i32,
    pub monitor: Option<(usize, i32)>,
}

/// The smaller of two numbers of channels.
pub open spec fn fewer(a: int, b: int) -> int {
    if a <= b {
        a
    } else {
        b
    }
}

/// The devices that a stream opens, or which one is missing.
pub open spec fn selected(all: Seq<Device>, wanted: Devices) -> Result<
    (int, int, int, Option<(int, int)>),
    ErrorValue,
> {
    match found(all, wanted.input@, true, 0) {
        None => Err(ErrorValue::Audio("input device not found: "@ + wanted.input@)),
        Some(i) => match found(all, wanted.output@, false, 0) {
            None => Err(ErrorValue::Audio("output device not found: "@ + wanted.output@)),
            Some(o) => {
                let channels = fewer(
                    fewer(
                        all[i].max_input_channels as int,
                        all[o].max_output_channels as int,
                    ),
                    2,
                );
                match wanted.monitor {
                    None => Ok((i, o, channels, None)),
                    Some(name) => match found(all, name@, false, 0) {
                        None => Err(ErrorValue::Audio("monitor device not found: "@ + name@)),
                        Some(m) => Ok(
                            (
                                i,
                                o,
                                channels,
                                Some((m, fewer(all[m].max_output_channels as int, 2))),
                            ),
                        ),
                    },
                }
            },
        },
    }
}

/// Finds the devices of a stream.
pub fn select_devices(all: &Vec<Device>, wanted: &Devices) -> (r: Result<Selection, Error>)
    ensures
        match selected(all@, *wanted) {
            Ok((i, o, c, m)) => {
                &&& r matches Ok(s)
                &&& s.input == i < all@.len()
                &&& s.output == o < all@.len()
                &&& s.channels == c
                &&& 1 <= c <= 2
                &&& match m {
                    Some((place, channels)) => s.monitor matches Some((p, k)) && p == place && k
                        == channels && 1 <= channels <= 2 && place < all@.len(),
                    None => s.monitor is None,
                }
            },
            Err(e) => r matches Err(f) && f@ == e,
        },
{
    let input: usize = match find(all, wanted.input.as_str(), true) {
        Some(i) => i,
        None => {
            return Err(Error::Audio(join("input device not found: ", wanted.input.as_str())));
        },
    };
    let output: usize = match find(all, wanted.output.as_str(), false) {
        Some(i) => i,
        None => {
            return Err(Error::Audio(join("output device not found: ", wanted.output.as_str())));
        },
    };
    let a: i32 = all[input].max_input_channels;
    let b: i32 = all[output].max_output_channels;
    let both: i32 = if a <= b {
        a
    } else {
        b
    };
    let channels: i32 = if both <= 2 {
        both
    } else {
        2
    };
    let monitor: Option<(usize, i32)> = match &wanted.monitor {
        Some(name) => match find(all, name.as_str(), false) {
            Some(m) => {
                let c: i32 = all[m].max_output_channels;
                Some((m, if c <= 2 {
                    c
                } else {
                    2
                }))
            },
            None => {
                return Err(Error::Audio(join("monitor device not found: ", name.as_str())));
            },
        },
        None => None,
    };
    Ok(Selection { input, output, channels, monitor })
}

#[derive(Debug, Clone, Copy, PartialEq, Eq, Structural)]
pub enum Status {
    Loading,
    Running,
    Error,
}

/// No callback for this long means that the stream has ended; it is longer than any block.
pub const STREAM_STALL_MS: u64 = 3000;

/// What a stream says of itself.
pub struct Health {
    pub status: Status,
    pub text: String,
    /// The time of the last callback in milliseconds.
    pub last_callback_ms: u64,
}

/// What is said when there was no callback for a while.
pub open spec fn stalled_text(silent_ms: int) -> Seq<char> {
    "audio: the stream stopped (no callback for "@ + text::decimal_of((silent_ms / 1000) as nat)
        + " s)"@
}

/// Whether a stream that was loading runs afterwards, and any other is as it was.
pub open spec fn runs(before: Health, after: Health) -> bool {
    &&& before.status == Status::Loading ==> after.status == Status::Running && after.text@ == "running"@
    &&& before.status != Status::Loading ==> after.status == before.status && after.text == before.text
    &&& after.last_callback_ms == before.last_callback_ms
}

/// Whether a look at a time leaves a stream so and tells that status.
pub open spec fn polled(before: Health, now_ms: u64, after: Health, r: Status) -> bool {
    &&& r == after.status
    &&& after.last_callback_ms == before.last_callback_ms
    &&& if before.status == Status::Running && now_ms - before.last_callback_ms > STREAM_STALL_MS {
        after.status == Status::Error && after.text@ == stalled_text(now_ms - before.last_callback_ms)
    } else {
        after.status == before.status && after.text == before.text
    }
}

impl Health {
    /// A stream that is being loaded.
    pub fn new() -> (r: Health)
        ensures
            r.status == Status::Loading,
            r.text@ == "loading"@,
            r.last_callback_ms == 0,
    {
        Health { status: Status::Loading, text: "loading".to_owned(), last_callback_ms: 0 }
    }

    /// Reports an error. The message and the status change together.
    pub fn fail(&mut self, text: String)
        ensures
            final(self).status == Status::Error,
            final(self).text == text,
            final(self).last_callback_ms == old(self).last_callback_ms,
    {
        self.text = text;
        self.status = Status::Error;
    }

    /// Reports that loading is over. A callback may have failed before that: then its error stays.
    pub fn publish_running(&mut self)
        ensures
            runs(*old(self), *final(self)),
    {
        if self.status == Status::Loading {
            self.status = Status::Running;
            self.text = "running".to_owned();
        }
    }

    /// The status at a time. A running stream without a callback for too long has failed.
    pub fn poll(&mut self, now_ms: u64) -> (r: Status)
        ensures
            polled(*old(self), now_ms, *final(self), r),
    {
        if self.status == Status::Running && now_ms > self.last_callback_ms {
            let silent: u64 = now_ms - self.last_callback_ms;
            if silent > STREAM_STALL_MS {
                let seconds = decimal_u64(silent / 1000);
                let text = join3(
                    "audio: the stream stopped (no callback for ",
                    seconds.as_str(),
                    " s)",
                );
                self.fail(text);
                return Status::Error;
            }
        }
        self.status
    }
}

fn decimal_u64(n: u64) -> (r: String)
    ensures
        r@ == text::decimal_of(n as nat),
    decreases n,
{
    let digit: char = (48 + (n % 10) as u8) as char;
    let mut out: String = if n < 10 {
        String::new()
    } else {
        decimal_u64(n / 10)
    };
    out.push(digit);
    assert(n < 10 ==> out@ =~= text::decimal_of(n as nat));
    out
}

/// The measurement slot while nothing was measured: no blocks, and milliseconds that are no number.
pub const NOTHING_MEASURED: u64 = 0x7fc0_0000;

/// What a stream callback has to do.
#[derive(Clone, Copy, PartialEq, Eq, Structural)]
pub enum Step {
    /// Write silence and go on.
    Silence,
    /// Convert the block.
    Convert,
}

/// The counters of a stream and its onset detector.
pub struct StreamCounters {
    pub onset: OnsetLatency,
    pub block: usize,
    /// The published measurement: distance in blocks above the bits of the milliseconds.
    pub measurement: u64,
    pub last_callback_ms: u64,
    pub blocks: u64,
    pub late_blocks: u64,
    pub input_overflow: u64,
    pub output_underflow: u64,
}

/// One more, or the same where the condition does not hold; counters wrap round.
pub open spec fn counted(n: u64, one_more: bool) -> u64 {
    if one_more {
        if n == u64::MAX {
            0
        } else {
            (n + 1) as u64
        }
    } else {
        n
    }
}

/// Whether the flag of that value is set.
pub open spec fn flagged(flags: u32, value: int) -> bool {
    flags as int / value % 2 == 1
}

fn count(n: u64, one_more: bool) -> (r: u64)
    ensures
        r == counted(n, one_more),
{
    if one_more {
        n.wrapping_add(1)
    } else {
        n
    }
}

/// A measurement as it is published: its distance in blocks, as far as that can be counted, above the bits
/// of its milliseconds.
pub open spec fn published(m: Measurement, elapsed_ms: u32) -> u64 {
    let distance = if m.output_block - m.input_block <= u32::MAX {
        m.output_block - m.input_block
    } else {
        u32::MAX as int
    };
    (distance * 0x1_0000_0000 + elapsed_ms) as u64
}

/// The counters after the beginning of a callback, and what is to be done with its block.
pub open spec fn begun(c: StreamCounters, flags: u32, now_ms: u64, frames: usize, has_input: bool) -> (
    StreamCounters,
    Step,
) {
    let convert = has_input && frames == c.block;
    let disturbed = flags != 0 || !convert;
    (
        StreamCounters {
            onset: if disturbed {
                c.onset.cancelled()
            } else {
                c.onset
            },
            measurement: if disturbed {
                NOTHING_MEASURED
            } else {
                c.measurement
            },
            last_callback_ms: now_ms,
            input_overflow: counted(c.input_overflow, flagged(flags, 2)),
            output_underflow: counted(c.output_underflow, flagged(flags, 4)),
            ..c
        },
        if convert {
            Step::Convert
        } else {
            Step::Silence
        },
    )
}

/// The counters after a block that was converted, in time or late.
pub open spec fn converted(c: StreamCounters, late: bool) -> StreamCounters {
    StreamCounters {
        blocks: counted(c.blocks, true),
        late_blocks: counted(c.late_blocks, late),
        ..c
    }
}

impl StreamCounters {
    /// The counters of a stream of `sample_rate` samples in a second that is handed blocks of `block`: all
    /// zero, with a detector for that rate.
    pub fn new(sample_rate: u32, block: usize) -> (r: StreamCounters)
        ensures
            onset::detects(r.onset, sample_rate),
            r.block == block,
            r.measurement == NOTHING_MEASURED,
            r.last_callback_ms == 0,
            r.blocks == 0,
            r.late_blocks == 0,
            r.input_overflow == 0,
            r.output_underflow == 0,
    {
        StreamCounters {
            onset: OnsetLatency::new(sample_rate),
            block,
            measurement: NOTHING_MEASURED,
            last_callback_ms: 0,
            blocks: 0,
            late_blocks: 0,
            input_overflow: 0,
            output_underflow: 0,
        }
    }

    /// A callback begins. Flags that say samples were lost, a missing input and a block of another
    /// size cancel the measurement; only an input of the right size is converted.
    pub fn begin(&mut self, flags: u32, now_ms: u64, frames: usize, has_input: bool) -> (r: Step)
        ensures
            (*final(self), r) == begun(*old(self), flags, now_ms, frames, has_input),
    {
        let convert: bool = has_input && frames == self.block;
        if flags != 0 || !convert {
            self.onset.reset();
            self.measurement = NOTHING_MEASURED;
        }
        self.input_overflow = count(self.input_overflow, flags / 2 % 2 == 1);
        self.output_underflow = count(self.output_underflow, flags / 4 % 2 == 1);
        self.last_callback_ms = now_ms;
        if convert {
            Step::Convert
        } else {
            Step::Silence
        }
    }

    /// A block was converted, and `late` says whether that took longer than the block lasts.
    pub fn finish(&mut self, late: bool)
        ensures
            *final(self) == converted(*old(self), late),
    {
        self.blocks = count(self.blocks, true);
        self.late_blocks = count(self.late_blocks, late);
    }

    /// Looks at a converted block, with the arguments of [`OnsetLatency::observe`], and publishes what is
    /// measured; `milliseconds` gives the bits of a time in nanoseconds. A block that came with flags is
    /// not looked at.
    pub fn observe<F: Fn(u128) -> u32>(
        &mut self,
        flags: u32,
        input: &[u32],
        output: &[u32],
        active: &[(bool, bool)],
        seen: u128,
        ready: u128,
        milliseconds: F,
    )
        requires
            forall|t: u128| call_requires(milliseconds, (t,)),
            flags == 0 ==> {
                &&& old(self).onset.valid()
                &&& old(self).onset.next_block < u64::MAX
                &&& old(self).onset.count + input@.len() <= usize::MAX
                &&& old(self).onset.window + old(self).onset.windows_in(input@.len() as int)
                    <= u64::MAX
                &&& input@.len() == output@.len() ==> active@.len() == old(self).onset.windows_in(
                    input@.len() as int,
                )
            },
        ensures
            flags != 0 ==> *final(self) == *old(self),
            flags == 0 ==> {
                let (after, news) = old(self).onset.observed(input@, output@, active@, seen, ready);
                &&& after.valid()
                &&& final(self).onset == after
                &&& match news {
                    None => final(self).measurement == old(self).measurement,
                    Some(m) => exists|ms: u32|
                        #![trigger published(m, ms)]
                        call_ensures(
                            milliseconds,
                            ((m.output_written - m.input_received) as u128,),
                            ms,
                        ) && final(self).measurement == published(m, ms),
                }
            },
            final(self).block == old(self).block,
            final(self).last_callback_ms == old(self).last_callback_ms,
            final(self).blocks == old(self).blocks,
            final(self).late_blocks == old(self).late_blocks,
            final(self).input_overflow == old(self).input_overflow,
            final(self).output_underflow == old(self).output_underflow,
    {
        if flags != 0 {
            return;
        }
        match self.onset.observe(input, output, active, seen, ready) {
            Some(m) => {
                let ms: u32 = milliseconds(m.elapsed());
                self.publish(m, ms);
            },
            None => {},
        }
    }

    /// Publishes a measurement, with the bits of its milliseconds.
    pub fn publish(&mut self, m: Measurement, elapsed_ms: u32)
        requires
            m.in_order(),
        ensures
            *final(self) == (StreamCounters { measurement: published(m, elapsed_ms), ..*old(self) }),
    {
        self.measurement = m.packed(elapsed_ms);
    }
}

/// What a published measurement says: the bits of its milliseconds and its distance in blocks.
pub open spec fn latency(packed: u64) -> Option<(u32, u32)> {
    let ms = (packed % 0x1_0000_0000) as u32;
    if bits::single_is_finite(ms) {
        Some((ms, (packed / 0x1_0000_0000) as u32))
    } else {
        None
    }
}

/// The last measurement, or nothing before there is one.
pub fn onset_latency(packed: u64) -> (r: Option<(u32, u32)>)
    ensures
        r == latency(packed),
        packed == NOTHING_MEASURED ==> r is None,
{
    let ms: u32 = (packed % 0x1_0000_0000) as u32;
    if is_finite_single(ms) {
        Some((ms, (packed / 0x1_0000_0000) as u32))
    } else {
        None
    }
}

/// What is published is what is read: the milliseconds of a measurement and its distance in blocks come
/// back.
pub proof fn law_latency_reads_back(m: Measurement, elapsed_ms: u32)
    requires
        m.in_order(),
        bits::single_is_finite(elapsed_ms),
    ensures
        latency(published(m, elapsed_ms)) == Some(
            (
                elapsed_ms,
                if m.output_block - m.input_block <= u32::MAX {
                    (m.output_block - m.input_block) as u32
                } else {
                    u32::MAX
                },
            ),
        ),
{
}

proof fn lemma_found(all: Seq<Device>, name: Seq<char>, inputs: bool, from: int)
    requires
        0 <= from,
    ensures
        match found(all, name, inputs, from) {
            Some(i) => {
                &&& from <= i < all.len()
                &&& all[i].name@ == name
                &&& inputs ==> all[i].max_input_channels > 0
                &&& !inputs ==> all[i].max_output_channels > 0
                &&& forall|j: int|
                    from <= j < i && (#[trigger] all[j]).name@ == name ==> if inputs {
                        all[j].max_input_channels <= 0
                    } else {
                        all[j].max_output_channels <= 0
                    }
            },
            None => forall|j: int|
                from <= j < all.len() && (#[trigger] all[j]).name@ == name ==> if inputs {
                    all[j].max_input_channels <= 0
                } else {
                    all[j].max_output_channels <= 0
                },
        },
    decreases all.len() - from,
{
    if from < all.len() {
        lemma_found(all, name, inputs, from + 1);
    }
}

/// A selected stream asks no device for more channels than it has, for two at most, and for no fewer than
/// that allows. Its devices are the first of their names that can do their part.
pub proof fn law_channels_are_there(all: Seq<Device>, wanted: Devices)
    requires
        selected(all, wanted) is Ok,
    ensures
        ({
            let (i, o, channels, monitor) = selected(all, wanted)->Ok_0;
            &&& 0 <= i < all.len()
            &&& 0 <= o < all.len()
            &&& all[i].name@ == wanted.input@
            &&& all[o].name@ == wanted.output@
            &&& 1 <= channels <= 2
            &&& channels <= all[i].max_input_channels
            &&& channels <= all[o].max_output_channels
            &&& channels == 2 || channels == all[i].max_input_channels || channels
                == all[o].max_output_channels
            &&& forall|j: int|
                0 <= j < i && (#[trigger] all[j]).name@ == wanted.input@
                    ==> all[j].max_input_channels <= 0
            &&& forall|j: int|
                0 <= j < o && (#[trigger] all[j]).name@ == wanted.output@
                    ==> all[j].max_output_channels <= 0
            &&& monitor is Some == wanted.monitor is Some
            &&& monitor matches Some((m, k)) ==> {
                &&& 0 <= m < all.len()
                &&& all[m].name@ == wanted.monitor->Some_0@
                &&& 1 <= k <= 2
                &&& k <= all[m].max_output_channels
                &&& k == 2 || k == all[m].max_output_channels
                &&& forall|j: int|
                    0 <= j < m && (#[trigger] all[j]).name@ == wanted.monitor->Some_0@
                        ==> all[j].max_output_channels <= 0
            }
        }),
{
    lemma_found(all, wanted.input@, true, 0);
    lemma_found(all, wanted.output@, false, 0);
    if let Some(name) = wanted.monitor {
        lemma_found(all, name@, false, 0);
    }
}

/// A device of the wanted name that can do its part is enough: a stream is refused only where one is
/// missing, and the first that is missing is named.
pub proof fn law_present_devices_are_selected(all: Seq<Device>, wanted: Devices, i: int, o: int, m: int)
    requires
        0 <= i < all.len() && all[i].name@ == wanted.input@ && all[i].max_input_channels > 0,
        0 <= o < all.len() && all[o].name@ == wanted.output@ && all[o].max_output_channels > 0,
        wanted.monitor matches Some(name) ==> 0 <= m < all.len() && all[m].name@ == name@
            && all[m].max_output_channels > 0,
    ensures
        selected(all, wanted) is Ok,
{
    lemma_found(all, wanted.input@, true, 0);
    lemma_found(all, wanted.output@, false, 0);
    if let Some(name) = wanted.monitor {
        lemma_found(all, name@, false, 0);
    }
}

/// The devices that are listed are those with channels in the direction, in their order, each with its name
/// and rate.
pub proof fn law_devices_with_channels_are_listed(devices: Seq<Device>, n: int)
    requires
        0 <= n <= devices.len(),
    ensures
        listed(devices, n, true) == devices.take(n).filter(
            |d: Device| d.max_input_channels > 0,
        ).map_values(|d: Device| (d.name@, d.default_sample_rate)),
        listed(devices, n, false) == devices.take(n).filter(
            |d: Device| d.max_output_channels > 0,
        ).map_values(|d: Device| (d.name@, d.default_sample_rate)),
    decreases n,
{
    reveal(Seq::filter);
    if n > 0 {
        law_devices_with_channels_are_listed(devices, n - 1);
        assert(devices.take(n).drop_last() =~= devices.take(n - 1));
        assert(devices.take(n).last() == devices[n - 1]);
    }
}

/// A flag is set where its bit is, whatever the other bits are.
pub proof fn law_flags_are_bits(higher: nat, lower: nat, value: nat, flags: u32)
    requires
        0 <= lower < value,
    ensures
        flags == higher * (2 * value) + value + lower ==> flagged(flags, value as int),
        flags == higher * (2 * value) + lower ==> !flagged(flags, value as int),
{
    let h = higher as int;
    let v = value as int;
    let l = lower as int;
    assert(h * (2 * v) == (2 * h) * v) by (nonlinear_arith);
    assert((2 * h + 1) * v == (2 * h) * v + v) by (nonlinear_arith);
    vstd::arithmetic::div_mod::lemma_fundamental_div_mod_converse(2 * h * v + l, v, 2 * h, l);
    vstd::arithmetic::div_mod::lemma_fundamental_div_mod_converse((2 * h + 1) * v + l, v, 2 * h + 1, l);
}

/// A counter goes up by one where there is something to count, and begins again behind the largest number.
pub proof fn law_counters_count(n: u64)
    ensures
        counted(n, false) == n,
        counted(n, true) as int == (n + 1) % 0x1_0000_0000_0000_0000,
{
}

/// Nothing is shown before something was measured, and nothing that is no number of milliseconds; whatever
/// is shown was packed as two halves.
pub proof fn law_only_numbers_are_shown(packed: u64)
    ensures
        latency(NOTHING_MEASURED) is None,
        latency(packed) matches Some((ms, blocks)) ==> packed == blocks * 0x1_0000_0000 + ms && ms
            % 0x8000_0000 < 0x7f80_0000,
        latency(packed) is None ==> packed % 0x8000_0000 >= 0x7f80_0000,
        STREAM_STALL_MS == 3 * 1000,
{
}

/// Only an input of the size of a block is converted.
pub proof fn law_only_whole_inputs_are_converted(
    c: StreamCounters,
    flags: u32,
    now_ms: u64,
    frames: usize,
    has_input: bool,
)
    ensures
        begun(c, flags, now_ms, frames, has_input).1 is Convert <==> has_input && frames == c.block,
{
}

/// A callback without flags whose block is converted leaves the measurement alone; every other one forgets it,
/// and the utterance that waited for it.
pub proof fn law_disturbances_forget_the_measurement(
    c: StreamCounters,
    flags: u32,
    now_ms: u64,
    frames: usize,
    has_input: bool,
)
    ensures
        ({
            let d = begun(c, flags, now_ms, frames, has_input).0;
            if flags == 0 && has_input && frames == c.block {
                d.onset == c.onset && d.measurement == c.measurement
            } else {
                latency(d.measurement) is None && d.onset.pending is None && !d.onset.armed
                    && d.onset.input_run == 0 && d.onset.output_run == 0
            }
        }),
{
}

/// Lost input and lost output are counted apart, by the second and the third flag; nothing else is counted at the
/// beginning, and the callback is dated.
pub proof fn law_lost_samples_are_counted(
    c: StreamCounters,
    lost_input: bool,
    lost_output: bool,
    higher: u32,
    lowest: bool,
    flags: u32,
    now_ms: u64,
    frames: usize,
    has_input: bool,
)
    requires
        flags == 8 * higher + (if lost_output { 4int } else { 0 }) + (if lost_input { 2int } else { 0 }) + (
        if lowest { 1int } else { 0 }),
    ensures
        ({
            let d = begun(c, flags, now_ms, frames, has_input).0;
            &&& d.input_overflow as int == (c.input_overflow + if lost_input {
                1int
            } else {
                0
            }) % 0x1_0000_0000_0000_0000
            &&& d.output_underflow as int == (c.output_underflow + if lost_output {
                1int
            } else {
                0
            }) % 0x1_0000_0000_0000_0000
            &&& d.blocks == c.blocks && d.late_blocks == c.late_blocks && d.block == c.block
            &&& d.last_callback_ms == now_ms
        }),
{
}

/// Every converted block is counted, and the late ones once more; nothing else changes.
pub proof fn law_converted_blocks_are_counted(c: StreamCounters, late: bool)
    ensures
        ({
            let d = converted(c, late);
            &&& d.blocks as int == (c.blocks + 1) % 0x1_0000_0000_0000_0000
            &&& d.late_blocks as int == (c.late_blocks + if late {
                1int
            } else {
                0
            }) % 0x1_0000_0000_0000_0000
            &&& d.onset == c.onset && d.measurement == c.measurement && d.block == c.block
            &&& d.last_callback_ms == c.last_callback_ms && d.input_overflow == c.input_overflow
                && d.output_underflow == c.output_underflow
        }),
{
}

/// A running stream fails exactly where there was no callback for more than three seconds; one that is loading
/// or has failed stays so.
pub proof fn law_silent_streams_fail(before: Health, now_ms: u64, after: Health, r: Status)
    requires
        polled(before, now_ms, after, r),
    ensures
        r == after.status,
        after.last_callback_ms == before.last_callback_ms,
        before.status is Running ==> (r is Error <==> now_ms > before.last_callback_ms + 3000),
        before.status is Running && now_ms <= before.last_callback_ms + 3000 ==> r is Running,
        !(before.status is Running) ==> r == before.status && after.text == before.text,
{
}

/// Only a stream that is being loaded starts to run.
pub proof fn law_errors_outlive_loading(before: Health, after: Health)
    requires
        runs(before, after),
    ensures
        before.status is Loading ==> after.status is Running,
        !(before.status is Loading) ==> after == before,
{
}

} // verus!
