//! Activity segmenter: turns gate decisions and sample blocks into segment
//! events, bridging short pauses.
use vstd::prelude::*;
use crate::gate::{NoiseGate, elapsed, peak};

verus! {

/// Largest number of samples one WAVE payload can hold: four bytes each, plus
/// the header, must fit the container's 32-bit size field.
pub const MAX_SEGMENT_SAMPLES: usize = 1_073_741_808;

/// Name for the WAVE file that hound writes for 32-bit float samples (given
/// by their bits) with the given channel count and sample rate.
pub uninterp spec fn wav_float_file(samples: Seq<u32>, channels: u16, sample_rate: u32) -> Seq<u8>;

/// Encodes a segment as a self-contained WAVE payload of 32-bit float samples.
///
/// Relies on `hound::WavWriter` (`new`, `write_sample`, `finalize`) writing
/// into memory. A sample is handed over as the `i32` with the same bits: for
/// a 32-bit sample hound writes those four bytes little-endian, which are the
/// bytes of the float. Writing into memory cannot fail; `finalize` refuses a
/// sample count that is not a whole number of frames. The `requires` keep out
/// what makes hound panic: a zero rate (it divides by it), and header fields
/// that overflow 32 bits.
#[verifier::external_body]
fn encode_wav(samples: &Vec<u32>, channels: u16, sample_rate: u32) -> (r: Option<Vec<u8>>)
    requires
        channels > 0,
        sample_rate > 0,
        sample_rate * 4 * channels <= u32::MAX,
        samples.len() <= MAX_SEGMENT_SAMPLES,
    ensures
        r is Some <==> samples@.len() % (channels as nat) == 0,
        r is Some ==> r->Some_0@ == wav_float_file(samples@, channels, sample_rate),
{
    let spec = hound::WavSpec {
        channels,
        sample_rate,
        bits_per_sample: 32,
        sample_format: hound::SampleFormat::Float,
    };
    let mut bytes: Vec<u8> = Vec::new();
    let mut writer = hound::WavWriter::new(std::io::Cursor::new(&mut bytes), spec).ok()?;
    for s in samples.iter() {
        writer.write_sample(*s as i32).ok()?;
    }
    writer.finalize().ok()?;
    Some(bytes)
}

/// What the capture side hands to the consumer, in order.
pub enum AudioEvent {
    /// The noise gate opened and a segment began.
    StartRecording,
    /// A finished segment, encoded as a WAVE payload.
    AudioData(Vec<u8>),
    /// The segment is closed; capture is idle again.
    StopRecording,
}

/// The kind of an event, without its payload.
#[derive(PartialEq, Eq, Structural, Debug, Clone, Copy)]
pub enum EventKind {
    Started,
    Ended,
    Stopped,
}

impl AudioEvent {
    pub open spec fn kind_of(&self) -> EventKind {
        match self {
            AudioEvent::StartRecording => EventKind::Started,
            AudioEvent::AudioData(_) => EventKind::Ended,
            AudioEvent::StopRecording => EventKind::Stopped,
        }
    }

    pub fn kind(&self) -> (r: EventKind)
        ensures
            r == self.kind_of(),
    {
        match self {
            AudioEvent::StartRecording => EventKind::Started,
            AudioEvent::AudioData(_) => EventKind::Ended,
            AudioEvent::StopRecording => EventKind::Stopped,
        }
    }
}

/// Kinds of a list of events, in order.
pub open spec fn kinds(events: Seq<AudioEvent>) -> Seq<EventKind> {
    events.map_values(|e: AudioEvent| e.kind_of())
}

/// Abstract state of the segmenter.
pub struct SegState {
    pub recording: bool,
    pub silent_frames: u32,
    pub buffer: Seq<u32>,
}

/// One transition: the noise gate's decision for a block, the block, and whether
/// the closing segment (if one closes) was encoded.
pub open spec fn seg_step(s: SegState, threshold: u32, active: bool, block: Seq<u32>, encoded: bool) -> (
    SegState,
    Seq<EventKind>,
) {
    if active {
        (
            SegState { recording: true, silent_frames: 0, buffer: s.buffer + block },
            if s.recording { Seq::empty() } else { seq![EventKind::Started] },
        )
    } else if s.recording {
        if s.silent_frames + 1 >= threshold {
            (
                SegState { recording: false, silent_frames: 0, buffer: Seq::empty() },
                if encoded { seq![EventKind::Ended, EventKind::Stopped] } else { seq![EventKind::Stopped] },
            )
        } else {
            (
                SegState { recording: true, silent_frames: (s.silent_frames + 1) as u32, buffer: s.buffer + block },
                Seq::empty(),
            )
        }
    } else {
        (s, Seq::empty())
    }
}

/// Whether a step with this decision closes the open segment.
pub open spec fn closes(s: SegState, threshold: u32, active: bool) -> bool {
    !active && s.recording && s.silent_frames + 1 >= threshold
}

/// Whether a closing segment is handed out: it is non-empty, fits a WAVE
/// payload, and holds whole frames.
pub open spec fn encodable(buffer: Seq<u32>, channels: u16) -> bool {
    0 < buffer.len() <= MAX_SEGMENT_SAMPLES && buffer.len() % (channels as nat) == 0
}

/// Segmenter with its own noise gate and the open segment's samples.
pub struct Segmenter {
    pub gate: NoiseGate,
    pub recording: bool,
    pub silent_frames: u32,
    /// Consecutive quiet blocks that close a segment.
    pub silence_threshold: u32,
    pub buffer: Vec<u32>,
    pub channels: u16,
    pub sample_rate: u32,
}

impl Segmenter {
    pub open spec fn state(self) -> SegState {
        SegState { recording: self.recording, silent_frames: self.silent_frames, buffer: self.buffer@ }
    }

    pub open spec fn wf(self) -> bool {
        &&& self.channels > 0
        &&& self.sample_rate > 0
        &&& self.sample_rate * 4 * self.channels <= u32::MAX
        &&& !self.recording ==> self.buffer@.len() == 0 && self.silent_frames == 0
        &&& self.silent_frames < self.silence_threshold || self.silent_frames == 0
    }

    pub fn new(gate: NoiseGate, silence_threshold: u32, channels: u16, sample_rate: u32) -> (r: Segmenter)
        requires
            channels > 0,
            sample_rate > 0,
            sample_rate * 4 * channels <= u32::MAX,
        ensures
            r.wf(),
            r.gate == gate,
            r.silence_threshold == silence_threshold,
            r.channels == channels,
            r.sample_rate == sample_rate,
            r.state() == (SegState { recording: false, silent_frames: 0, buffer: Seq::empty() }),
    {
        let r = Segmenter {
            gate,
            recording: false,
            silent_frames: 0,
            silence_threshold,
            buffer: Vec::new(),
            channels,
            sample_rate,
        };
        assert(r.buffer@ =~= Seq::<u32>::empty());
        r
    }

    fn append(&mut self, samples: &[u32])
        ensures
            final(self).buffer@ == old(self).buffer@ + samples@,
            final(self).gate == old(self).gate,
            final(self).recording == old(self).recording,
            final(self).silent_frames == old(self).silent_frames,
            final(self).silence_threshold == old(self).silence_threshold,
            final(self).channels == old(self).channels,
            final(self).sample_rate == old(self).sample_rate,
    {
        let mut i: usize = 0;
        while i < samples.len()
            invariant
                i <= samples@.len(),
                self.buffer@ == old(self).buffer@ + samples@.subrange(0, i as int),
                self.gate == old(self).gate,
                self.recording == old(self).recording,
                self.silent_frames == old(self).silent_frames,
                self.silence_threshold == old(self).silence_threshold,
                self.channels == old(self).channels,
                self.sample_rate == old(self).sample_rate,
            decreases samples@.len() - i,
        {
            self.buffer.push(samples[i]);
            assert(samples@.subrange(0, i + 1) =~= samples@.subrange(0, i as int).push(samples@[i as int]));
            i = i + 1;
        }
        assert(samples@.subrange(0, samples@.len() as int) =~= samples@);
    }

    /// Advances the segment state by one block, given the noise gate's decision
    /// for it. A segment that closes is encoded and handed out, unless it is
    /// empty or too long for a WAVE payload, or encoding fails: then it is
    /// dropped and only the stop is reported.
    pub fn on_decision(&mut self, active: bool, samples: &[u32]) -> (events: Vec<AudioEvent>)
        requires
            old(self).wf(),
        ensures
            final(self).wf(),
            final(self).gate == old(self).gate,
            final(self).silence_threshold == old(self).silence_threshold,
            final(self).channels == old(self).channels,
            final(self).sample_rate == old(self).sample_rate,
            (final(self).state(), kinds(events@)) == seg_step(
                old(self).state(),
                old(self).silence_threshold,
                active,
                samples@,
                events@.len() == 2,
            ),
            events@.len() == 2 <==> closes(old(self).state(), old(self).silence_threshold, active)
                && encodable(old(self).buffer@, old(self).channels),
            events@.len() == 2 ==> events@[0]->AudioData_0@ == wav_float_file(
                old(self).buffer@,
                old(self).channels,
                old(self).sample_rate,
            ),
    {
        let mut events: Vec<AudioEvent> = Vec::new();
        if active {
            if !self.recording {
                self.recording = true;
                events.push(AudioEvent::StartRecording);
            }
            self.append(samples);
            self.silent_frames = 0;
        } else if self.recording {
            if self.silent_frames + 1 >= self.silence_threshold {
                self.recording = false;
                self.silent_frames = 0;
                let n = self.buffer.len();
                if n > 0 && n <= MAX_SEGMENT_SAMPLES {
                    let encoded = encode_wav(&self.buffer, self.channels, self.sample_rate);
                    if let Some(bytes) = encoded {
                        events.push(AudioEvent::AudioData(bytes));
                    }
                }
                self.buffer = Vec::new();
                events.push(AudioEvent::StopRecording);
            } else {
                self.silent_frames = self.silent_frames + 1;
                self.append(samples);
            }
        }
        proof {
            let s = seg_step(old(self).state(), old(self).silence_threshold, active, samples@, events@.len() == 2);
            assert(kinds(events@) =~= s.1);
            assert(self.state().buffer =~= s.0.buffer);
        }
        events
    }

    /// Runs one block through the noise gate and then the segment state.
    pub fn process_block(&mut self, samples: &[u32], now_ms: u64) -> (events: Vec<AudioEvent>)
        requires
            old(self).wf(),
        ensures
            final(self).wf(),
            final(self).gate == old(self).gate.next(peak(samples@), now_ms),
            final(self).silence_threshold == old(self).silence_threshold,
            final(self).channels == old(self).channels,
            final(self).sample_rate == old(self).sample_rate,
            (final(self).state(), kinds(events@)) == seg_step(
                old(self).state(),
                old(self).silence_threshold,
                final(self).gate.is_active,
                samples@,
                events@.len() == 2,
            ),
            events@.len() == 2 <==> closes(old(self).state(), old(self).silence_threshold, final(self).gate.is_active)
                && encodable(old(self).buffer@, old(self).channels),
            events@.len() == 2 ==> events@[0]->AudioData_0@ == wav_float_file(
                old(self).buffer@,
                old(self).channels,
                old(self).sample_rate,
            ),
    {
        let active = self.gate.process(samples, now_ms);
        self.on_decision(active, samples)
    }
}

/// State and event kinds after a run of steps, each a gate decision, a
/// block, and whether a segment closed at that step was encoded.
pub open spec fn run_seg(s: SegState, threshold: u32, steps: Seq<(bool, Seq<u32>, bool)>) -> (
    SegState,
    Seq<EventKind>,
)
    decreases steps.len(),
{
    if steps.len() == 0 {
        (s, Seq::empty())
    } else {
        let (prev, ks) = run_seg(s, threshold, steps.drop_last());
        let last = steps.last();
        let (next, more) = seg_step(prev, threshold, last.0, last.1, last.2);
        (next, ks + more)
    }
}

/// The idle state.
pub open spec fn idle() -> SegState {
    SegState { recording: false, silent_frames: 0, buffer: Seq::empty() }
}

/// Quiet blocks in a row that close a segment (a threshold of 0 acts as 1).
pub open spec fn closing_run(threshold: u32) -> nat {
    if threshold == 0 { 1 } else { threshold as nat }
}

/// Samples of all blocks of a run, in order.
pub open spec fn samples_of(steps: Seq<(bool, Seq<u32>, bool)>) -> Seq<u32> {
    steps.map_values(|t: (bool, Seq<u32>, bool)| t.1).flatten()
}

proof fn lemma_samples_of_push(steps: Seq<(bool, Seq<u32>, bool)>)
    requires
        steps.len() > 0,
    ensures
        samples_of(steps) == samples_of(steps.drop_last()) + steps.last().1,
{
    let f = |t: (bool, Seq<u32>, bool)| t.1;
    assert(steps.map_values(f) =~= steps.drop_last().map_values(f).push(steps.last().1));
    steps.drop_last().map_values(f).lemma_flatten_push(steps.last().1);
}

/// A burst: the first `a` steps are active, the rest quiet.
pub open spec fn burst_then_quiet(steps: Seq<(bool, Seq<u32>, bool)>, a: nat) -> bool {
    forall|i: int| 0 <= i < steps.len() ==> (#[trigger] steps[i]).0 == (i < a)
}

/// While the quiet blocks after a burst are fewer than the closing run, the
/// segment stays open and holds every block.
proof fn lemma_open_prefix(threshold: u32, steps: Seq<(bool, Seq<u32>, bool)>, a: nat)
    requires
        1 <= a <= steps.len() < a + closing_run(threshold),
        burst_then_quiet(steps, a),
    ensures
        run_seg(idle(), threshold, steps).0 == (SegState {
            recording: true,
            silent_frames: (steps.len() - a) as u32,
            buffer: samples_of(steps),
        }),
        run_seg(idle(), threshold, steps).1 == seq![EventKind::Started],
    decreases steps.len(),
{
    lemma_samples_of_push(steps);
    if steps.len() == 1 {
        assert(steps.drop_last() =~= Seq::empty());
        assert(run_seg(idle(), threshold, steps.drop_last()) == (idle(), Seq::<EventKind>::empty()));
        assert(samples_of(Seq::<(bool, Seq<u32>, bool)>::empty()) =~= Seq::empty());
        assert(Seq::<u32>::empty() + steps.last().1 =~= steps.last().1);
        assert(run_seg(idle(), threshold, steps).1 =~= seq![EventKind::Started]);
        assert(run_seg(idle(), threshold, steps).0.buffer =~= samples_of(steps));
    } else {
        let pre = steps.drop_last();
        if steps.len() == a {
            assert(burst_then_quiet(pre, (a - 1) as nat));
            lemma_open_prefix(threshold, pre, (a - 1) as nat);
        } else {
            assert(burst_then_quiet(pre, a));
            lemma_open_prefix(threshold, pre, a);
        }
        assert(run_seg(idle(), threshold, steps).1 =~= seq![EventKind::Started]);
    }
}

/// One burst then silence: a run that starts idle with a burst of active
/// blocks, followed only by quiet blocks, at least as many as the closing
/// run, emits exactly a start, then the payload (when the step that closed
/// the segment encoded it), then a stop, and ends idle.
pub proof fn lemma_burst_then_silence(threshold: u32, steps: Seq<(bool, Seq<u32>, bool)>, a: nat)
    requires
        a >= 1,
        steps.len() >= a + closing_run(threshold),
        burst_then_quiet(steps, a),
    ensures
        run_seg(idle(), threshold, steps).0 == idle(),
        run_seg(idle(), threshold, steps).1 == if steps[a + closing_run(threshold) - 1].2 {
            seq![EventKind::Started, EventKind::Ended, EventKind::Stopped]
        } else {
            seq![EventKind::Started, EventKind::Stopped]
        },
    decreases steps.len(),
{
    let c = closing_run(threshold);
    let pre = steps.drop_last();
    assert(burst_then_quiet(pre, a));
    if steps.len() == a + c {
        lemma_open_prefix(threshold, pre, a);
        assert(run_seg(idle(), threshold, steps).0.buffer =~= Seq::empty());
        assert(run_seg(idle(), threshold, steps).1 =~= if steps[a + c - 1].2 {
            seq![EventKind::Started, EventKind::Ended, EventKind::Stopped]
        } else {
            seq![EventKind::Started, EventKind::Stopped]
        });
    } else {
        lemma_burst_then_silence(threshold, pre, a);
        assert(run_seg(idle(), threshold, steps).1 =~= run_seg(idle(), threshold, pre).1);
    }
}

/// A short dip does not split a segment: a burst, fewer quiet blocks than
/// the closing run, then renewed activity, leave one segment open that holds
/// every block, with a single start and nothing else.
pub proof fn lemma_short_dip_keeps_segment(threshold: u32, steps: Seq<(bool, Seq<u32>, bool)>, a: nat)
    requires
        1 <= a < steps.len() <= a + closing_run(threshold),
        burst_then_quiet(steps.drop_last(), a),
        steps.last().0,
    ensures
        run_seg(idle(), threshold, steps).0 == (SegState {
            recording: true,
            silent_frames: 0,
            buffer: samples_of(steps),
        }),
        run_seg(idle(), threshold, steps).1 == seq![EventKind::Started],
{
    lemma_open_prefix(threshold, steps.drop_last(), a);
    lemma_samples_of_push(steps);
    assert(run_seg(idle(), threshold, steps).1 =~= seq![EventKind::Started]);
}

/// Noise gate, segment state and event kinds after a run of blocks, each
/// given with its arrival time and whether a segment closed at it was encoded.
pub open spec fn run_blocks(g: NoiseGate, s: SegState, threshold: u32, blocks: Seq<(Seq<u32>, u64, bool)>) -> (
    NoiseGate,
    SegState,
    Seq<EventKind>,
)
    decreases blocks.len(),
{
    if blocks.len() == 0 {
        (g, s, Seq::empty())
    } else {
        let (pg, ps, ks) = run_blocks(g, s, threshold, blocks.drop_last());
        let last = blocks.last();
        let ng = pg.next(peak(last.0), last.1);
        let (ns, more) = seg_step(ps, threshold, ng.is_active, last.0, last.2);
        (ng, ns, ks + more)
    }
}

/// A loud first block, then quiet blocks: those before index `a` arrive
/// within the hold time of the first, those from `a` on after it.
pub open spec fn loud_then_fading(g: NoiseGate, blocks: Seq<(Seq<u32>, u64, bool)>, a: nat) -> bool {
    &&& 1 <= a <= blocks.len()
    &&& peak(blocks[0].0) > g.threshold
    &&& forall|i: int| 1 <= i < blocks.len() ==> peak((#[trigger] blocks[i]).0) <= g.threshold
    &&& forall|i: int| 1 <= i < a ==> elapsed(blocks[0].1, (#[trigger] blocks[i]).1) <= g.hold_ms
    &&& forall|i: int| a <= i < blocks.len() ==> elapsed(blocks[0].1, (#[trigger] blocks[i]).1) > g.hold_ms
}

/// The noise gate's decisions for such a run, as segmenter steps.
pub open spec fn fading_steps(blocks: Seq<(Seq<u32>, u64, bool)>, a: nat) -> Seq<(bool, Seq<u32>, bool)> {
    Seq::new(blocks.len(), |i: int| (i < a, blocks[i].0, blocks[i].2))
}

proof fn lemma_fading_prefix(g: NoiseGate, threshold: u32, blocks: Seq<(Seq<u32>, u64, bool)>, a: nat, k: nat)
    requires
        loud_then_fading(g, blocks, a),
        1 <= k <= blocks.len(),
    ensures
        ({
            let r = run_blocks(g, idle(), threshold, blocks.take(k as int));
            &&& r.0 == (NoiseGate { last_active_ms: blocks[0].1, is_active: k <= a, ..g })
            &&& (r.1, r.2) == run_seg(idle(), threshold, fading_steps(blocks, a).take(k as int))
        }),
    decreases k,
{
    let bk = blocks.take(k as int);
    let sk = fading_steps(blocks, a).take(k as int);
    assert(bk.drop_last() =~= blocks.take(k - 1));
    assert(sk.drop_last() =~= fading_steps(blocks, a).take(k - 1));
    if k == 1 {
        assert(blocks.take(0) =~= Seq::empty());
        assert(fading_steps(blocks, a).take(0) =~= Seq::empty());
        assert(run_blocks(g, idle(), threshold, blocks.take(0)) == (g, idle(), Seq::<EventKind>::empty()));
        assert(run_seg(idle(), threshold, fading_steps(blocks, a).take(0)) == (idle(), Seq::<EventKind>::empty()));
    } else {
        lemma_fading_prefix(g, threshold, blocks, a, (k - 1) as nat);
        assert(peak(blocks[k - 1].0) <= g.threshold);
    }
}

/// One burst then silence, through the noise gate: a loud block followed by
/// quiet blocks, of which at least the closing run arrive after the hold
/// time, emits exactly a start, the payload (when the closing step encoded
/// it), and a stop, and leaves the segmenter idle.
pub proof fn lemma_loud_block_then_silence(g: NoiseGate, threshold: u32, blocks: Seq<(Seq<u32>, u64, bool)>, a: nat)
    requires
        loud_then_fading(g, blocks, a),
        blocks.len() >= a + closing_run(threshold),
    ensures
        run_blocks(g, idle(), threshold, blocks).1 == idle(),
        run_blocks(g, idle(), threshold, blocks).2 == if blocks[a + closing_run(threshold) - 1].2 {
            seq![EventKind::Started, EventKind::Ended, EventKind::Stopped]
        } else {
            seq![EventKind::Started, EventKind::Stopped]
        },
{
    let n = blocks.len();
    lemma_fading_prefix(g, threshold, blocks, a, n);
    assert(blocks.take(n as int) =~= blocks);
    let steps = fading_steps(blocks, a);
    assert(steps.take(n as int) =~= steps);
    assert(burst_then_quiet(steps, a));
    lemma_burst_then_silence(threshold, steps, a);
}

} // verus!
