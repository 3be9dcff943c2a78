//! The capture worker's state machine and the recorder handle built on
//! it.
//!
//! A capture worker is either idle or recording. A Start command
//! (re)starts a session in place: it clears the sample buffer and the
//! level window, stores whether a level sink is subscribed, and records
//! the start instant. While recording, each hardware block is appended
//! to the sample buffer; if a sink is subscribed, the block also feeds
//! the level window, and once at least [`EMIT_INTERVAL_MS`] have passed
//! since the last emission the window's level is emitted and the window
//! cleared. A Stop command returns the accumulated buffer (empty when no
//! session was active) and leaves the worker idle.
//!
//! The hardware stream, the command channel and the threads that drive
//! this machine live outside the crate; they hand blocks and command
//! timestamps in as plain values.
use vstd::prelude::*;
use crate::FULL_SCALE;
use crate::level::{compute_level, lemma_level_in_range, level_of};

verus! {

/// Minimum time between two level emissions, in milliseconds (about
/// 20 Hz): a fixed latency/overhead trade-off.
pub const EMIT_INTERVAL_MS: u64 = 50;

/// Mathematical model of a capture worker.
#[verifier::ext_equal]
pub struct WorkerModel {
    /// Whether a session is active (the hardware stream is open).
    pub recording: bool,
    /// Samples accumulated since the last Start.
    pub samples: Seq<i32>,
    /// Samples accumulated since the last level emission.
    pub window: Seq<i32>,
    /// Whether the active session has a level sink.
    pub subscribed: bool,
    /// Instant of the last level emission (or of the session start).
    pub last_emit_ms: u64,
}

/// A worker starts idle, with nothing accumulated.
pub open spec fn initial_worker() -> WorkerModel {
    WorkerModel {
        recording: false,
        samples: Seq::<i32>::empty(),
        window: Seq::<i32>::empty(),
        subscribed: false,
        last_emit_ms: 0,
    }
}

/// Well-formedness: an idle worker holds nothing, and without a
/// subscription no level window accumulates.
pub open spec fn worker_wf(w: WorkerModel) -> bool {
    &&& !w.recording ==> w.samples.len() == 0 && w.window.len() == 0 && !w.subscribed
    &&& !w.subscribed ==> w.window.len() == 0
}

/// Effect of a Start command: the session (re)starts in place with
/// empty buffers, whatever the previous state was.
pub open spec fn start_step(w: WorkerModel, subscribe_level: bool, now_ms: u64) -> WorkerModel {
    WorkerModel {
        recording: true,
        samples: Seq::<i32>::empty(),
        window: Seq::<i32>::empty(),
        subscribed: subscribe_level,
        last_emit_ms: now_ms,
    }
}

/// Effect of one hardware block arriving at `now_ms` while recording.
pub open spec fn ingest_step(w: WorkerModel, block: Seq<i32>, now_ms: u64) -> WorkerModel {
    let samples: Seq<i32> = w.samples + block;
    if w.subscribed {
        if now_ms - w.last_emit_ms >= EMIT_INTERVAL_MS {
            WorkerModel {
                recording: w.recording,
                samples: samples,
                window: Seq::<i32>::empty(),
                subscribed: w.subscribed,
                last_emit_ms: now_ms,
            }
        } else {
            WorkerModel {
                recording: w.recording,
                samples: samples,
                window: w.window + block,
                subscribed: w.subscribed,
                last_emit_ms: w.last_emit_ms,
            }
        }
    } else {
        WorkerModel {
            recording: w.recording,
            samples: samples,
            window: w.window,
            subscribed: w.subscribed,
            last_emit_ms: w.last_emit_ms,
        }
    }
}

/// The level value that arrival of `block` at `now_ms` emits, if any:
/// only a subscribed session emits, only once the emission interval has
/// passed, and only over a non-empty window.
pub open spec fn ingest_level(w: WorkerModel, block: Seq<i32>, now_ms: u64) -> Option<u32> {
    if w.subscribed && now_ms - w.last_emit_ms >= EMIT_INTERVAL_MS && (w.window + block).len()
        > 0 {
        Some((level_of(w.window + block) as u32))
    } else {
        None
    }
}

/// Effect of a Stop command: the worker goes idle and gives up
/// everything it accumulated.
pub open spec fn stop_step(w: WorkerModel) -> WorkerModel {
    WorkerModel {
        recording: false,
        samples: Seq::<i32>::empty(),
        window: Seq::<i32>::empty(),
        subscribed: false,
        last_emit_ms: w.last_emit_ms,
    }
}

/// The buffer a Stop command returns: exactly the samples captured
/// since the most recent Start.
pub open spec fn stop_output(w: WorkerModel) -> Seq<i32> {
    w.samples
}

/// A command sent from the recorder handle to the capture worker. The
/// channels that carry level values and the returned buffer live with
/// the caller; here only their presence is modelled.
#[derive(Debug, Clone, Copy, PartialEq, Eq, Structural)]
pub enum RecorderCommand {
    /// Begin (or restart) a session, with or without a level sink.
    Start { subscribe_level: bool },
    /// End the session and hand back the accumulated buffer.
    Stop,
}

/// The capture worker: processes commands one at a time and accumulates
/// the blocks the hardware delivers.
pub struct CaptureWorker {
    recording: bool,
    samples: Vec<i32>,
    window: Vec<i32>,
    subscribed: bool,
    last_emit_ms: u64,
}

impl View for CaptureWorker {
    type V = WorkerModel;

    closed spec fn view(&self) -> WorkerModel {
        WorkerModel {
            recording: self.recording,
            samples: self.samples@,
            window: self.window@,
            subscribed: self.subscribed,
            last_emit_ms: self.last_emit_ms,
        }
    }
}

impl CaptureWorker {
    /// A fresh, idle worker.
    pub fn new() -> (worker: CaptureWorker)
        ensures
            worker@ == initial_worker(),
    {
        let worker = CaptureWorker {
            recording: false,
            samples: Vec::new(),
            window: Vec::new(),
            subscribed: false,
            last_emit_ms: 0,
        };
        proof {
            assert(worker@ =~= initial_worker());
        }
        worker
    }

    /// Whether a session is active.
    pub fn is_recording(&self) -> (active: bool)
        ensures
            active == self@.recording,
    {
        self.recording
    }

    /// Number of samples accumulated since the last Start.
    pub fn recorded_len(&self) -> (count: usize)
        ensures
            count == self@.samples.len(),
    {
        self.samples.len()
    }

    /// Number of samples pending in the level window.
    pub fn window_len(&self) -> (count: usize)
        ensures
            count == self@.window.len(),
    {
        self.window.len()
    }

    /// Instant of the last level emission (or session start).
    pub fn last_emit_ms(&self) -> (instant: u64)
        ensures
            instant == self@.last_emit_ms,
    {
        self.last_emit_ms
    }

    /// Process a Start command: clear both buffers, store the
    /// subscription, record the start instant. A Start during an active
    /// session restarts it in place.
    pub fn handle_start(&mut self, subscribe_level: bool, now_ms: u64)
        ensures
            final(self)@ == start_step(old(self)@, subscribe_level, now_ms),
    {
        self.samples.clear();
        self.window.clear();
        self.recording = true;
        self.subscribed = subscribe_level;
        self.last_emit_ms = now_ms;
        proof {
            assert(self@ =~= start_step(old(self)@, subscribe_level, now_ms));
        }
    }

    /// Process one hardware block, delivered at `now_ms`: append it to
    /// the sample buffer and, for a subscribed session, feed the level
    /// window, emitting its level once the emission interval has
    /// passed. Returns the emitted level, if any; sending it to the
    /// sink is the caller's (best-effort) business.
    pub fn ingest_block(&mut self, block: &Vec<i32>, now_ms: u64) -> (level: Option<u32>)
        requires
            old(self)@.recording,
            old(self)@.last_emit_ms <= now_ms,
            old(self)@.samples.len() + block@.len() <= usize::MAX,
            old(self)@.window.len() + block@.len() <= usize::MAX,
        ensures
            final(self)@ == ingest_step(old(self)@, block@, now_ms),
            level == ingest_level(old(self)@, block@, now_ms),
    {
        let ghost orig = self@;
        let len: usize = block.len();
        let mut i: usize = 0;
        while i < len
            invariant
                i <= len,
                len == block@.len(),
                orig.samples.len() + block@.len() <= usize::MAX,
                self.samples@ == orig.samples + block@.take(i as int),
                self.recording == orig.recording,
                self.window@ == orig.window,
                self.subscribed == orig.subscribed,
                self.last_emit_ms == orig.last_emit_ms,
            decreases len - i,
        {
            self.samples.push(block[i]);
            proof {
                assert(orig.samples + block@.take(i as int + 1) =~= (orig.samples + block@.take(
                    i as int,
                )).push(block@[i as int]));
            }
            i = i + 1;
        }
        proof {
            assert(block@.take(len as int) =~= block@);
        }
        let mut emitted: Option<u32> = None;
        if self.subscribed {
            let mut j: usize = 0;
            while j < len
                invariant
                    j <= len,
                    len == block@.len(),
                    orig.window.len() + block@.len() <= usize::MAX,
                    self.window@ == orig.window + block@.take(j as int),
                    self.samples@ == orig.samples + block@,
                    self.recording == orig.recording,
                    self.subscribed == orig.subscribed,
                    self.last_emit_ms == orig.last_emit_ms,
                decreases len - j,
            {
                self.window.push(block[j]);
                proof {
                    assert(orig.window + block@.take(j as int + 1) =~= (orig.window + block@.take(
                        j as int,
                    )).push(block@[j as int]));
                }
                j = j + 1;
            }
            proof {
                assert(block@.take(len as int) =~= block@);
            }
            if now_ms - self.last_emit_ms >= EMIT_INTERVAL_MS {
                if self.window.len() > 0 {
                    let lvl: u32 = compute_level(&self.window);
                    proof {
                        lemma_level_in_range(self.window@);
                    }
                    emitted = Some(lvl);
                    self.window.clear();
                }
                self.last_emit_ms = now_ms;
            }
        }
        proof {
            assert(self@ =~= ingest_step(orig, block@, now_ms));
        }
        emitted
    }

    /// Process a Stop command: go idle and hand back the accumulated
    /// buffer, leaving an empty one behind. Stopping with no active
    /// session yields an empty buffer.
    pub fn handle_stop(&mut self) -> (recorded: Vec<i32>)
        ensures
            recorded@ == stop_output(old(self)@),
            final(self)@ == stop_step(old(self)@),
    {
        self.recording = false;
        self.subscribed = false;
        self.window.clear();
        let mut recorded: Vec<i32> = Vec::new();
        core::mem::swap(&mut recorded, &mut self.samples);
        proof {
            assert(self@ =~= stop_step(old(self)@));
        }
        recorded
    }

    /// Process one command: the worker's main dispatch. Only Stop
    /// produces a reply.
    pub fn handle_command(&mut self, command: RecorderCommand, now_ms: u64) -> (reply: Option<
        Vec<i32>,
    >)
        ensures
            (command matches RecorderCommand::Start { subscribe_level } ==> final(self)@
                == start_step(old(self)@, subscribe_level, now_ms) && reply is None),
            command is Stop ==> final(self)@ == stop_step(old(self)@) && (reply matches Some(
                recorded,
            ) && recorded@ == stop_output(old(self)@)),
    {
        match command {
            RecorderCommand::Start { subscribe_level } => {
                self.handle_start(subscribe_level, now_ms);
                None
            },
            RecorderCommand::Stop => Some(self.handle_stop()),
        }
    }
}

/// Mathematical model of a recorder handle: the immutable stream
/// configuration plus the worker it commands.
#[verifier::ext_equal]
pub struct RecorderModel {
    /// Native sample rate of the device, in Hz.
    pub sample_rate: u32,
    /// Native channel count of the device.
    pub channels: u16,
    /// The capture worker.
    pub worker: WorkerModel,
}

/// The recorder handle: owns the capture worker and the stream
/// configuration resolved when the device was opened. The caller that
/// resolves the device and runs the worker loop lives outside the
/// crate; it forwards commands and blocks to this type.
pub struct AudioRecorder {
    worker: CaptureWorker,
    sample_rate: u32,
    channels: u16,
}

impl View for AudioRecorder {
    type V = RecorderModel;

    closed spec fn view(&self) -> RecorderModel {
        RecorderModel {
            sample_rate: self.sample_rate,
            channels: self.channels,
            worker: self.worker@,
        }
    }
}

impl AudioRecorder {
    /// Build a recorder for a device whose native configuration has
    /// been resolved: a positive sample rate and at least one channel.
    /// Resolving the default device (and failing when there is none) is
    /// the caller's part.
    pub fn new(sample_rate: u32, channels: u16) -> (recorder: AudioRecorder)
        requires
            sample_rate >= 1,
            channels >= 1,
        ensures
            recorder@.sample_rate == sample_rate,
            recorder@.channels == channels,
            recorder@.worker == initial_worker(),
    {
        AudioRecorder { worker: CaptureWorker::new(), sample_rate: sample_rate, channels: channels }
    }

    /// Native sample rate of the device, in Hz.
    pub fn sample_rate(&self) -> (rate: u32)
        ensures
            rate == self@.sample_rate,
    {
        self.sample_rate
    }

    /// Native channel count of the device.
    pub fn channels(&self) -> (count: u16)
        ensures
            count == self@.channels,
    {
        self.channels
    }

    /// Start (or restart) a recording session, with or without a level
    /// subscription, at instant `now_ms`.
    pub fn start_recording(&mut self, subscribe_level: bool, now_ms: u64)
        ensures
            final(self)@.worker == start_step(old(self)@.worker, subscribe_level, now_ms),
            final(self)@.sample_rate == old(self)@.sample_rate,
            final(self)@.channels == old(self)@.channels,
    {
        self.worker.handle_start(subscribe_level, now_ms);
    }

    /// Stop the session and take the accumulated buffer: exactly the
    /// samples captured since the most recent Start, and empty when no
    /// session was active.
    pub fn stop_recording(&mut self) -> (recorded: Vec<i32>)
        ensures
            recorded@ == stop_output(old(self)@.worker),
            final(self)@.worker == stop_step(old(self)@.worker),
            final(self)@.sample_rate == old(self)@.sample_rate,
            final(self)@.channels == old(self)@.channels,
    {
        self.worker.handle_stop()
    }

    /// Feed one hardware block into the active session. Returns the
    /// level value to emit, if any.
    pub fn ingest_block(&mut self, block: &Vec<i32>, now_ms: u64) -> (level: Option<u32>)
        requires
            old(self)@.worker.recording,
            old(self)@.worker.last_emit_ms <= now_ms,
            old(self)@.worker.samples.len() + block@.len() <= usize::MAX,
            old(self)@.worker.window.len() + block@.len() <= usize::MAX,
        ensures
            final(self)@.worker == ingest_step(old(self)@.worker, block@, now_ms),
            level == ingest_level(old(self)@.worker, block@, now_ms),
            final(self)@.sample_rate == old(self)@.sample_rate,
            final(self)@.channels == old(self)@.channels,
    {
        self.worker.ingest_block(block, now_ms)
    }

    /// Whether a session is active.
    pub fn is_recording(&self) -> (active: bool)
        ensures
            active == self@.worker.recording,
    {
        self.worker.is_recording()
    }

    /// Number of samples accumulated since the last Start.
    pub fn recorded_len(&self) -> (count: usize)
        ensures
            count == self@.worker.samples.len(),
    {
        self.worker.recorded_len()
    }

    /// Number of samples pending in the level window.
    pub fn window_len(&self) -> (count: usize)
        ensures
            count == self@.worker.window.len(),
    {
        self.worker.window_len()
    }

    /// Instant of the last level emission (or session start).
    pub fn last_emit_ms(&self) -> (instant: u64)
        ensures
            instant == self@.worker.last_emit_ms,
    {
        self.worker.last_emit_ms()
    }
}

/// Stopping a well-formed worker with no active session yields the
/// empty buffer — an empty capture, never an error.
pub proof fn lemma_stop_when_idle_is_empty(w: WorkerModel)
    requires
        worker_wf(w),
        !w.recording,
    ensures
        stop_output(w) == Seq::<i32>::empty(),
{
    assert(stop_output(w) =~= Seq::<i32>::empty());
}

/// A second Start without an intervening Stop discards everything the
/// first session accumulated: the buffer restarts empty, and the blocks
/// arriving afterwards make up the entire recording.
pub proof fn lemma_restart_resets(
    w: WorkerModel,
    subscribe_level: bool,
    start_ms: u64,
    block: Seq<i32>,
    block_ms: u64,
)
    ensures
        start_step(w, subscribe_level, start_ms).samples == Seq::<i32>::empty(),
        stop_output(ingest_step(start_step(w, subscribe_level, start_ms), block, block_ms))
            == block,
{
    assert(stop_output(ingest_step(start_step(w, subscribe_level, start_ms), block, block_ms))
        =~= block);
}

/// Well-formedness is established by the initial worker and preserved
/// by every step of the protocol.
pub proof fn lemma_worker_wf_preserved(
    w: WorkerModel,
    subscribe_level: bool,
    block: Seq<i32>,
    now_ms: u64,
)
    requires
        worker_wf(w),
    ensures
        worker_wf(initial_worker()),
        worker_wf(start_step(w, subscribe_level, now_ms)),
        worker_wf(stop_step(w)),
        w.recording ==> worker_wf(ingest_step(w, block, now_ms)),
{
}

/// Whenever a block's arrival emits a level value, that value lies in
/// `[0, FULL_SCALE]` — on the amplitude scale, in `[0.0, 1.0]`.
pub proof fn lemma_emitted_level_in_range(w: WorkerModel, block: Seq<i32>, now_ms: u64)
    ensures
        ingest_level(w, block, now_ms) matches Some(level) ==> 0 <= level <= FULL_SCALE as u32,
{
    if ingest_level(w, block, now_ms) is Some {
        lemma_level_in_range(w.window + block);
    }
}

/// The device names that survive enumeration: devices whose name could
/// not be retrieved are silently skipped, in order.
pub open spec fn present_names(queried: Seq<Option<String>>) -> Seq<String>
    decreases queried.len(),
{
    if queried.len() == 0 {
        Seq::<String>::empty()
    } else {
        let rest: Seq<String> = present_names(queried.drop_last());
        match queried.last() {
            Some(name) => rest.push(name),
            None => rest,
        }
    }
}

/// Keep, in order, the names of the devices whose name could be
/// retrieved; a device without a readable name is skipped, not an
/// error. Enumerating the devices themselves is the caller's part, and
/// an empty enumeration simply yields an empty list.
pub fn named_devices(queried: Vec<Option<String>>) -> (names: Vec<String>)
    ensures
        names@ == present_names(queried@),
{
    let mut names: Vec<String> = Vec::new();
    let mut i: usize = 0;
    while i < queried.len()
        invariant
            i <= queried@.len(),
            names@ == present_names(queried@.take(i as int)),
        decreases queried@.len() - i,
    {
        let entry: &Option<String> = &queried[i];
        match entry {
            Some(name) => {
                names.push(name.clone());
            },
            None => {},
        }
        proof {
            assert(queried@.take(i as int + 1).drop_last() =~= queried@.take(i as int));
            assert(queried@.take(i as int + 1).last() == queried@[i as int]);
        }
        i = i + 1;
    }
    proof {
        assert(queried@.take(queried@.len() as int) =~= queried@);
    }
    names
}

} // verus!
