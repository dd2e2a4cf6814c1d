//! Decisions of the consumer side: whether a segment is worth transcribing,
//! what counts as a usable transcription, and the text that is sent on.
use vstd::prelude::*;
use vstd::string::StringExecFns;
use crate::segmenter::AudioEvent;

verus! {

/// Name for what hound reads from a WAVE payload's header: its duration in
/// frames and its sample rate, or nothing when it refuses the payload.
pub uninterp spec fn wav_header_of(bytes: Seq<u8>) -> Option<(u32, u32)>;

/// Reads the duration and rate of a WAVE payload.
///
/// Relies on `hound::WavReader::new` to parse the header, and on its
/// `duration` (frames: samples per channel) and `spec().sample_rate`.
#[verifier::external_body]
fn read_wav_header(bytes: &Vec<u8>) -> (r: Option<(u32, u32)>)
    ensures
        r == wav_header_of(bytes@),
{
    let reader = hound::WavReader::new(std::io::Cursor::new(bytes.as_slice())).ok()?;
    Some((reader.duration(), reader.spec().sample_rate))
}

/// Length of a payload: frames at a sample rate.
#[derive(PartialEq, Eq, Structural, Debug, Clone, Copy)]
pub struct AudioDuration {
    pub frames: u32,
    pub sample_rate: u32,
}

/// Duration of an encoded segment, or `None` if it is no readable WAVE payload.
pub fn calculate_audio_duration(audio: &Vec<u8>) -> (r: Option<AudioDuration>)
    ensures
        r is Some <==> wav_header_of(audio@) is Some,
        r is Some ==> r->Some_0.frames == wav_header_of(audio@)->Some_0.0
            && r->Some_0.sample_rate == wav_header_of(audio@)->Some_0.1,
{
    match read_wav_header(audio) {
        Some((frames, sample_rate)) => Some(AudioDuration { frames, sample_rate }),
        None => None,
    }
}

/// `frames / rate` seconds is at least `min_ms` milliseconds; a zero rate
/// never is.
pub open spec fn lasts_at_least(d: AudioDuration, min_ms: u64) -> bool {
    d.sample_rate > 0 && d.frames * 1000 >= min_ms * d.sample_rate
}

pub fn is_long_enough(d: AudioDuration, min_ms: u64) -> (r: bool)
    ensures
        r == lasts_at_least(d, min_ms),
{
    if d.sample_rate == 0 {
        return false;
    }
    proof {
        assert(min_ms * d.sample_rate <= u64::MAX * u32::MAX) by (nonlinear_arith)
            requires
                min_ms <= u64::MAX,
                d.sample_rate <= u32::MAX,
        ;
    }
    let lhs: u128 = d.frames as u128 * 1000;
    let rhs: u128 = min_ms as u128 * d.sample_rate as u128;
    lhs >= rhs
}

/// What to do with a finished segment.
#[derive(PartialEq, Eq, Structural, Debug, Clone, Copy)]
pub enum SegmentPlan {
    /// The payload cannot be read: report the error and go on.
    Unreadable,
    /// Shorter than the minimum: do not transcribe, just clear the typing signal.
    TooShort,
    /// Send it for transcription.
    Transcribe,
}

pub open spec fn plan_of(audio: Seq<u8>, min_ms: u64) -> SegmentPlan {
    match wav_header_of(audio) {
        None => SegmentPlan::Unreadable,
        Some((frames, sample_rate)) => if lasts_at_least(AudioDuration { frames, sample_rate }, min_ms) {
            SegmentPlan::Transcribe
        } else {
            SegmentPlan::TooShort
        },
    }
}

/// Decides the fate of a segment from its header alone.
pub fn plan_segment(audio: &Vec<u8>, min_ms: u64) -> (r: SegmentPlan)
    ensures
        r == plan_of(audio@, min_ms),
{
    match calculate_audio_duration(audio) {
        None => SegmentPlan::Unreadable,
        Some(d) => if is_long_enough(d, min_ms) {
            SegmentPlan::Transcribe
        } else {
            SegmentPlan::TooShort
        },
    }
}

/// What the consumer does with one event.
pub enum ConsumerAction {
    /// Send the typing signal, and nothing else.
    SetTyping(bool),
    /// Send the payload for transcription, translation and dispatch.
    Transcribe(Vec<u8>),
    /// Report an unreadable payload and go on.
    Unreadable,
}

/// Decides the consumer's reaction to an event. A segment shorter than
/// `min_ms` only clears the typing signal: it is never transcribed.
pub fn consume_event(event: AudioEvent, min_ms: u64) -> (r: ConsumerAction)
    ensures
        event is StartRecording ==> r == ConsumerAction::SetTyping(true),
        event is StopRecording ==> r == ConsumerAction::SetTyping(false),
        event is AudioData ==> match plan_of(event->AudioData_0@, min_ms) {
            SegmentPlan::Unreadable => r is Unreadable,
            SegmentPlan::TooShort => r == ConsumerAction::SetTyping(false),
            SegmentPlan::Transcribe => r is Transcribe && r->Transcribe_0@ == event->AudioData_0@,
        },
{
    match event {
        AudioEvent::StartRecording => ConsumerAction::SetTyping(true),
        AudioEvent::StopRecording => ConsumerAction::SetTyping(false),
        AudioEvent::AudioData(audio) => match plan_segment(&audio, min_ms) {
            SegmentPlan::Unreadable => ConsumerAction::Unreadable,
            SegmentPlan::TooShort => ConsumerAction::SetTyping(false),
            SegmentPlan::Transcribe => ConsumerAction::Transcribe(audio),
        },
    }
}

/// Why a transcription produced no text.
#[derive(PartialEq, Eq, Structural, Debug, Clone, Copy)]
pub enum TranscriptionError {
    EmptyInput,
    Network,
    NonSuccessStatus,
    EmptyResult,
}

/// An empty payload is not sent for transcription.
pub fn check_audio_payload(audio: &Vec<u8>) -> (r: Result<(), TranscriptionError>)
    ensures
        r is Err <==> audio@.len() == 0,
        r is Err ==> r->Err_0 == TranscriptionError::EmptyInput,
{
    if audio.len() == 0 {
        Err(TranscriptionError::EmptyInput)
    } else {
        Ok(())
    }
}

/// The outcome of a transcription request, from whether the service
/// answered, whether it reported success, and the text it returned.
pub fn transcription_outcome(answered: bool, success: bool, text: String) -> (r: Result<String, TranscriptionError>)
    ensures
        !answered ==> r == Err::<String, TranscriptionError>(TranscriptionError::Network),
        answered && !success ==> r == Err::<String, TranscriptionError>(TranscriptionError::NonSuccessStatus),
        answered && success && text@.len() == 0 ==> r == Err::<String, TranscriptionError>(
            TranscriptionError::EmptyResult,
        ),
        answered && success && text@.len() > 0 ==> r is Ok && r->Ok_0@ == text@,
{
    if !answered {
        return Err(TranscriptionError::Network);
    }
    if !success {
        return Err(TranscriptionError::NonSuccessStatus);
    }
    let empty = text.as_str().is_empty();
    if empty {
        Err(TranscriptionError::EmptyResult)
    } else {
        Ok(text)
    }
}

pub open spec fn prompt_head() -> Seq<char> {
    "You are a language translation app for VRChat. Answer only in the target language. Do not quote the translation. target_language="@
}

pub open spec fn prompt_sep() -> Seq<char> {
    " Text:\n\n"@
}

/// The request sent to the translation service.
pub fn translation_prompt(target_language: &str, text: &str) -> (r: String)
    ensures
        r@ == prompt_head() + target_language@ + prompt_sep() + text@,
{
    let mut r = String::from_str(
        "You are a language translation app for VRChat. Answer only in the target language. Do not quote the translation. target_language=",
    );
    r.append(target_language);
    r.append(" Text:\n\n");
    r.append(text);
    r
}

/// The text sent on: the translation, followed on a new line by the
/// original when asked for.
pub fn compose_reply(translation: String, original: &str, include_original: bool) -> (r: String)
    ensures
        include_original ==> r@ == translation@ + seq!['\n'] + original@,
        !include_original ==> r@ == translation@,
{
    if include_original {
        let mut r = translation;
        r.append("\n");
        proof {
            reveal_strlit("\n");
        }
        r.append(original);
        r
    } else {
        translation
    }
}

} // verus!
