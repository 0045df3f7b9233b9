use vstd::prelude::*;
use vstd::string::StringSliceAdditionalSpecFns;
use vstd::utf8::{decode_utf8, valid_utf8};
use crate::text::{lead_ws, utf8_string};
use crate::tts::bundle::BundledAudio;
use crate::tts::timing::{word_end, StitchedResult, WordTiming};
use crate::tts::wav::{canonical_wav, wav_wrap};
use base64::Engine;

verus! {

/// The standard, padded base64 text of `data`.
pub uninterp spec fn base64_of(data: Seq<u8>) -> Seq<char>;

/// Relies on `base64::engine::general_purpose::STANDARD.encode`: padded
/// standard base64, four characters per started group of three bytes. The
/// encoder panics only when that length overflows `usize`.
#[verifier::external_body]
fn base64_encode(data: &[u8]) -> (r: String)
    requires
        data@.len() <= usize::MAX / 2,
    ensures
        r@ == base64_of(data@),
        r@.len() == 4 * ((data@.len() + 2) / 3),
{
    base64::engine::general_purpose::STANDARD.encode(data)
}

/// What the caller receives: one event per timed word, then the audio.
pub enum TTSEvent {
    WordBoundary { word: String, word_index: usize, char_offset: usize, start_us: u64, end_us: u64 },
    AudioReady { audio_base64: String, duration_us: u64 },
}

/// The byte span of the first whitespace-delimited word at or after `offset`.
pub open spec fn word_span_at(b: Seq<u8>, offset: int) -> (int, int) {
    let s = offset + lead_ws(b, offset, b.len() as int);
    (s, word_end(b, s))
}

/// The word text at `offset`: empty where there is none, or where the
/// offset lies past the end or splits a character.
pub open spec fn word_at(b: Seq<u8>, offset: int) -> Seq<char> {
    let sp = word_span_at(b, offset);
    if offset <= b.len() && valid_utf8(b.subrange(sp.0, sp.1)) {
        decode_utf8(b.subrange(sp.0, sp.1))
    } else {
        Seq::empty()
    }
}

proof fn lemma_lead_ws_bound(b: Seq<u8>, s: int, e: int)
    requires
        s <= e,
    ensures
        0 <= lead_ws(b, s, e) <= e - s,
    decreases e - s,
{
    if s < e && crate::text::ws_len_at(b, s) > 0 && s + crate::text::ws_len_at(b, s) <= e {
        lemma_lead_ws_bound(b, s + crate::text::ws_len_at(b, s), e);
    }
}

proof fn lemma_word_end_bound(b: Seq<u8>, i: int)
    requires
        0 <= i <= b.len(),
    ensures
        i <= word_end(b, i) <= b.len(),
    decreases b.len() - i,
{
    if i < b.len() && crate::text::ws_len_at(b, i) == 0 {
        lemma_word_end_bound(b, i + 1);
    }
}

/// The word of `text` at byte `offset`, as the caller sees it.
pub fn text_word_at(text: &str, offset: usize) -> (r: String)
    ensures
        r@ == word_at(text.spec_bytes(), offset as int),
{
    let b = text.as_bytes();
    let len = b.len();
    if offset > len {
        return String::new();
    }
    let (s, n) = crate::text::trim_span_exec(b, offset, len);
    proof {
        lemma_lead_ws_bound(b@, offset as int, len as int);
        lemma_word_end_bound(b@, s as int);
    }
    let mut e = s;
    while e < len && crate::text::ws_len_at_exec(b, e) == 0
        invariant
            len == b@.len(),
            s <= e <= len,
            word_end(b@, s as int) == word_end(b@, e as int),
        decreases len - e,
    {
        e = e + 1;
    }
    let bytes = vstd::slice::slice_to_vec(&b[s..e]);
    match utf8_string(bytes) {
        Some(w) => w,
        None => String::new(),
    }
}

/// The word events of `timings` against `text`, then the audio event.
pub open spec fn events_match(
    text: Seq<u8>,
    timings: Seq<WordTiming>,
    wav: Seq<u8>,
    duration_us: u64,
    events: Seq<TTSEvent>,
) -> bool {
    &&& events.len() == timings.len() + 1
    &&& forall|k: int|
        0 <= k < timings.len() ==> (#[trigger] events[k] matches TTSEvent::WordBoundary {
            word,
            word_index,
            char_offset,
            start_us,
            end_us,
        } && word@ == word_at(text, timings[k].char_offset as int) && word_index
            == timings[k].word_index && char_offset == timings[k].char_offset && start_us
            == timings[k].start_us && end_us == timings[k].end_us)
    &&& events[timings.len() as int] matches TTSEvent::AudioReady { audio_base64, duration_us: d }
        && audio_base64@ == base64_of(wav) && d == duration_us
}

fn push_events(text: &str, timings: &Vec<WordTiming>, wav: &[u8], duration_us: u64) -> (r: Vec<TTSEvent>)
    requires
        wav@.len() <= usize::MAX / 2,
    ensures
        events_match(text.spec_bytes(), timings@, wav@, duration_us, r@),
{
    let mut out: Vec<TTSEvent> = Vec::new();
    let mut k: usize = 0;
    while k < timings.len()
        invariant
            k <= timings@.len(),
            out@.len() == k,
            forall|j: int|
                0 <= j < k ==> (#[trigger] out@[j] matches TTSEvent::WordBoundary {
                    word,
                    word_index,
                    char_offset,
                    start_us,
                    end_us,
                } && word@ == word_at(text.spec_bytes(), timings@[j].char_offset as int)
                    && word_index == timings@[j].word_index && char_offset
                    == timings@[j].char_offset && start_us == timings@[j].start_us && end_us
                    == timings@[j].end_us),
        decreases timings@.len() - k,
    {
        let t = timings[k];
        out.push(
            TTSEvent::WordBoundary {
                word: text_word_at(text, t.char_offset),
                word_index: t.word_index,
                char_offset: t.char_offset,
                start_us: t.start_us,
                end_us: t.end_us,
            },
        );
        k = k + 1;
    }
    out.push(TTSEvent::AudioReady { audio_base64: base64_encode(wav), duration_us });
    out
}

/// The events for a bundle hit: its timings against the text, then its
/// WAVE bytes as they are stored.
pub fn bundle_events(text: &str, bundled: &BundledAudio) -> (r: Option<Vec<TTSEvent>>)
    ensures
        bundled.wav_bytes@.len() <= usize::MAX / 2 ==> (r matches Some(ev) && events_match(
            text.spec_bytes(),
            bundled.timings@,
            bundled.wav_bytes@,
            bundled.duration_us,
            ev@,
        )),
        bundled.wav_bytes@.len() > usize::MAX / 2 ==> r is None,
{
    if bundled.wav_bytes.len() > usize::MAX / 2 {
        return None;
    }
    Some(push_events(text, &bundled.timings, bundled.wav_bytes.as_slice(), bundled.duration_us))
}

#[verifier::spinoff_prover]
/// The events for a stitched narration: its timings against the text, then
/// its PCM in the canonical WAVE form. `None` where the PCM or the sample
/// rate does not fit the WAVE header's 32-bit fields, or the file is too
/// large to encode.
pub fn stitched_events(text: &str, stitched: &StitchedResult) -> (r: Option<Vec<TTSEvent>>)
    ensures
        (stitched.pcm@.len() + 36 <= u32::MAX && 2 * stitched.sample_rate <= u32::MAX
            && stitched.pcm@.len() + 44 <= usize::MAX / 2) ==> (r matches Some(ev) && events_match(
            text.spec_bytes(),
            stitched.timings@,
            canonical_wav(stitched.pcm@, stitched.sample_rate as int),
            stitched.duration_us,
            ev@,
        )),
        !(stitched.pcm@.len() + 36 <= u32::MAX && 2 * stitched.sample_rate <= u32::MAX
            && stitched.pcm@.len() + 44 <= usize::MAX / 2) ==> r is None,
{
    if stitched.pcm.len() > (u32::MAX - 36) as usize || stitched.sample_rate > u32::MAX / 2 {
        return None;
    }
    let wav = wav_wrap(stitched.pcm.as_slice(), stitched.sample_rate);
    if wav.len() > usize::MAX / 2 {
        return None;
    }
    Some(push_events(text, &stitched.timings, wav.as_slice(), stitched.duration_us))
}

} // verus!
