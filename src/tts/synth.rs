use vstd::prelude::*;
use vstd::string::StringSliceAdditionalSpecFns;
use crate::num::push_text;
use crate::text::same_text;
use crate::tts::cache::{hash_bytes, le_u64, sha256_of, CachedSentence};
use crate::text::pair_view;
use crate::tts::split::{sentences_of, split_sentences};
use crate::tts::wav::{decode_spec, wav_to_int16_pcm, DecodedWav, WavError};

verus! {

/// The voice asked for when no override is set.
pub const DEFAULT_VOICE: &'static str = "am_michael";

/// The voice tried once more after the primary voice fails.
pub const FALLBACK_VOICE: &'static str = "bf_emma";

/// The primary voice: the override where one is set, else [`DEFAULT_VOICE`].
pub fn primary_voice(voice_override: Option<String>) -> (r: String)
    ensures
        voice_override matches Some(v) ==> r@ == v@,
        voice_override is None ==> r@ == DEFAULT_VOICE@,
{
    match voice_override {
        Some(v) => v,
        None => DEFAULT_VOICE.to_owned(),
    }
}

/// Why a sentence could not be synthesized.
pub enum SentenceError {
    /// The engine failed with the one voice there was to try.
    Engine { voice: String, message: String },
    /// The primary voice failed, and so did the fallback voice.
    BothVoices { primary: String, primary_error: String, fallback_error: String },
}

impl SentenceError {
    /// The error as text, naming each voice that failed and how.
    pub fn message(&self) -> (r: String)
        ensures
            self matches SentenceError::Engine { message, .. } ==> r@ == message@,
            self matches SentenceError::BothVoices { primary, primary_error, fallback_error } ==> r@
                == "koko failed for voice \""@ + primary@ + "\": "@ + primary_error@ + ". Fallback \""@
                + FALLBACK_VOICE@ + "\" also failed: "@ + fallback_error@,
    {
        match self {
            SentenceError::Engine { message, .. } => message.clone(),
            SentenceError::BothVoices { primary, primary_error, fallback_error } => {
                let mut s = String::new();
                push_text(&mut s, "koko failed for voice \"");
                push_text(&mut s, primary.as_str());
                push_text(&mut s, "\": ");
                push_text(&mut s, primary_error.as_str());
                push_text(&mut s, ". Fallback \"");
                push_text(&mut s, FALLBACK_VOICE);
                push_text(&mut s, "\" also failed: ");
                push_text(&mut s, fallback_error.as_str());
                s
            },
        }
    }
}

/// Where the synthesis of one sentence stands.
pub enum VoiceState {
    /// The primary voice is running.
    Primary { primary: String },
    /// The primary voice failed with `primary_error`; the fallback is running.
    Fallback { primary: String, primary_error: String },
}

/// What to do next for one sentence.
pub enum VoiceAction {
    /// Run the engine with this voice, then report with [`after_attempt`].
    Run { voice: String, state: VoiceState },
    /// The sentence is synthesized.
    Done { sentence: CachedSentence },
    /// The sentence failed for good.
    Failed { error: SentenceError },
}

/// The first step for a sentence: run the primary voice.
pub fn first_attempt(primary: String) -> (r: VoiceAction)
    ensures
        r matches VoiceAction::Run { voice, state: VoiceState::Primary { primary: p } } && voice@
            == primary@ && p@ == primary@,
{
    let kept = primary.clone();
    VoiceAction::Run { voice: primary, state: VoiceState::Primary { primary: kept } }
}

/// The step after an engine run: success ends the sentence; a failure of the
/// primary voice retries once with [`FALLBACK_VOICE`] unless that is the
/// primary; a failure of the fallback ends it with both errors.
pub fn after_attempt(state: VoiceState, outcome: Result<CachedSentence, String>) -> (r: VoiceAction)
    ensures
        outcome is Ok ==> (r matches VoiceAction::Done { sentence } && sentence
            == outcome->Ok_0),
        (outcome is Err && state is Primary && state->Primary_primary@ == FALLBACK_VOICE@) ==> (r matches VoiceAction::Failed {
            error: SentenceError::Engine { voice, message },
        } && voice@ == FALLBACK_VOICE@ && message@ == outcome->Err_0@),
        (outcome is Err && state is Primary && state->Primary_primary@ != FALLBACK_VOICE@) ==> (r matches VoiceAction::Run {
            voice,
            state: VoiceState::Fallback { primary, primary_error },
        } && voice@ == FALLBACK_VOICE@ && primary@ == state->Primary_primary@ && primary_error@
            == outcome->Err_0@),
        (outcome is Err && state is Fallback) ==> (r matches VoiceAction::Failed {
            error: SentenceError::BothVoices { primary, primary_error, fallback_error },
        } && primary@ == state->Fallback_primary@ && primary_error@ == state->Fallback_primary_error@
            && fallback_error@ == outcome->Err_0@),
{
    match outcome {
        Ok(sentence) => VoiceAction::Done { sentence },
        Err(e) => match state {
            VoiceState::Primary { primary } => {
                if same_text(primary.as_str(), FALLBACK_VOICE) {
                    VoiceAction::Failed { error: SentenceError::Engine { voice: primary, message: e } }
                } else {
                    VoiceAction::Run {
                        voice: FALLBACK_VOICE.to_owned(),
                        state: VoiceState::Fallback { primary, primary_error: e },
                    }
                }
            },
            VoiceState::Fallback { primary, primary_error } => VoiceAction::Failed {
                error: SentenceError::BothVoices { primary, primary_error, fallback_error: e },
            },
        },
    }
}

/// Why the engine's output is no sentence audio.
#[derive(Clone, Copy, Debug, PartialEq, Eq, Structural)]
pub enum OutputError {
    /// The engine wrote an empty audio file.
    NoAudio,
    /// The audio file does not decode.
    Decode(WavError),
}

/// Decodes the audio file the engine wrote; an empty file is a failure.
pub fn engine_output(wav_bytes: &[u8]) -> (r: Result<DecodedWav, OutputError>)
    ensures
        wav_bytes@.len() == 0 ==> r == Err::<DecodedWav, OutputError>(OutputError::NoAudio),
        wav_bytes@.len() > 0 ==> match decode_spec(wav_bytes@) {
            Ok(v) => r matches Ok(d) && d@ == v,
            Err(e) => r == Err::<DecodedWav, OutputError>(OutputError::Decode(e)),
        },
{
    if wav_bytes.len() == 0 {
        return Err(OutputError::NoAudio);
    }
    match wav_to_int16_pcm(wav_bytes) {
        Ok(d) => Ok(d),
        Err(e) => Err(OutputError::Decode(e)),
    }
}


/// The cache key of the sentence at span `sp` of `text`.
pub open spec fn sentence_key(text: Seq<u8>, sp: (int, int)) -> int {
    le_u64(sha256_of(text.subrange(sp.0, sp.0 + sp.1)))
}

/// The sentences of one narration, resolved one after the other through the
/// cache and, on a miss, the engine. The engine's context is resolved at the
/// first miss and only then.
pub struct SentenceBatch {
    sentences: Vec<(usize, usize)>,
    keys: Vec<u64>,
    results: Vec<(usize, CachedSentence)>,
    context_resolved: bool,
    text: Ghost<Seq<u8>>,
}

/// The next thing to do for a [`SentenceBatch`].
#[derive(Clone, Copy, Debug, PartialEq, Eq, Structural)]
pub enum BatchAction {
    /// Look sentence `index` up in the cache under `key`; report with `on_lookup`.
    LookUp { index: usize, key: u64 },
    /// Resolve the engine's context; report with `on_context_resolved`.
    ResolveContext,
    /// Synthesize sentence `index`; report with `on_synthesized`.
    Synthesize { index: usize },
    /// Every sentence has its audio.
    Done,
}

impl SentenceBatch {
    pub closed spec fn wf(&self) -> bool {
        &&& pair_view(self.sentences@) == sentences_of(self.text@)
        &&& self.keys@.len() == self.sentences@.len()
        &&& forall|k: int|
            0 <= k < self.keys@.len() ==> #[trigger] self.keys@[k] as int == sentence_key(
                self.text@,
                pair_view(self.sentences@)[k],
            )
        &&& self.results@.len() <= self.sentences@.len()
        &&& forall|k: int|
            0 <= k < self.results@.len() ==> #[trigger] self.results@[k].0 == self.sentences@[k].0
    }

    /// The text's bytes.
    pub closed spec fn text(&self) -> Seq<u8> {
        self.text@
    }

    /// The sentences, as `(offset, length)` spans.
    pub closed spec fn spans(&self) -> Seq<(usize, usize)> {
        self.sentences@
    }

    /// The sentences resolved so far, in order.
    pub closed spec fn resolved(&self) -> Seq<(usize, CachedSentence)> {
        self.results@
    }

    /// Whether the engine's context has been resolved.
    pub closed spec fn has_context(&self) -> bool {
        self.context_resolved
    }

    /// The action that the state calls for, without a pending lookup.
    pub open spec fn next_spec(&self) -> BatchAction {
        if self.resolved().len() == self.spans().len() {
            BatchAction::Done
        } else {
            BatchAction::LookUp {
                index: self.resolved().len() as usize,
                key: sentence_key(self.text(), pair_view(self.spans())[self.resolved().len() as int]) as u64,
            }
        }
    }

    /// A batch over the sentences of `text`, none resolved, no context.
    pub fn new(text: &str) -> (r: Self)
        ensures
            r.wf(),
            r.text() == text.spec_bytes(),
            pair_view(r.spans()) == sentences_of(text.spec_bytes()),
            r.resolved().len() == 0,
            !r.has_context(),
    {
        let sentences = split_sentences(text);
        let b = text.as_bytes();
        let blen = b.len();
        let mut keys: Vec<u64> = Vec::new();
        let mut k: usize = 0;
        while k < sentences.len()
            invariant
                b@ == text.spec_bytes(),
                blen == b@.len(),
                pair_view(sentences@) == sentences_of(b@),
                forall|j: int| 0 <= j < sentences@.len() ==> #[trigger] sentences@[j].0 + sentences@[j].1 <= b@.len(),
                k <= sentences@.len(),
                keys@.len() == k,
                forall|j: int| 0 <= j < k ==> #[trigger] keys@[j] as int == sentence_key(b@, pair_view(sentences@)[j]),
            decreases sentences@.len() - k,
        {
            let (s, n) = sentences[k];
            assert(sentences@[k as int].0 + sentences@[k as int].1 <= b@.len());
            let key = hash_bytes(&b[s..s + n]);
            keys.push(key);
            k = k + 1;
        }
        SentenceBatch { sentences, keys, results: Vec::new(), context_resolved: false, text: Ghost(b@) }
    }

    /// What to do next: look the next sentence up, or stop when all are resolved.
    pub fn next(&self) -> (r: BatchAction)
        requires
            self.wf(),
        ensures
            r == self.next_spec(),
    {
        let i = self.results.len();
        if i == self.sentences.len() {
            BatchAction::Done
        } else {
            BatchAction::LookUp { index: i, key: self.keys[i] }
        }
    }

    /// Takes the cache's answer for the next sentence. A hit resolves it; a
    /// miss asks for the engine, resolving its context first if that is
    /// still to do.
    pub fn on_lookup(&mut self, hit: Option<CachedSentence>) -> (r: BatchAction)
        requires
            old(self).wf(),
            old(self).resolved().len() < old(self).spans().len(),
        ensures
            final(self).wf(),
            final(self).text() == old(self).text(),
            final(self).spans() == old(self).spans(),
            final(self).has_context() == old(self).has_context(),
            hit is Some ==> final(self).resolved() == old(self).resolved().push(
                (old(self).spans()[old(self).resolved().len() as int].0, hit->Some_0),
            ) && r == final(self).next_spec(),
            hit is None ==> final(self).resolved() == old(self).resolved(),
            hit is None && old(self).has_context() ==> r == (BatchAction::Synthesize {
                index: old(self).resolved().len() as usize,
            }),
            hit is None && !old(self).has_context() ==> r == BatchAction::ResolveContext,
    {
        match hit {
            Some(c) => {
                let i = self.results.len();
                let start = self.sentences[i].0;
                self.results.push((start, c));
                self.next()
            },
            None => {
                if self.context_resolved {
                    BatchAction::Synthesize { index: self.results.len() }
                } else {
                    BatchAction::ResolveContext
                }
            },
        }
    }

    /// Records that the engine's context is resolved; the pending sentence
    /// goes to the engine.
    pub fn on_context_resolved(&mut self) -> (r: BatchAction)
        requires
            old(self).wf(),
        ensures
            final(self).wf(),
            final(self).text() == old(self).text(),
            final(self).spans() == old(self).spans(),
            final(self).resolved() == old(self).resolved(),
            final(self).has_context(),
            r == (BatchAction::Synthesize { index: old(self).resolved().len() as usize }),
    {
        self.context_resolved = true;
        BatchAction::Synthesize { index: self.results.len() }
    }

    /// Takes the engine's audio for the pending sentence.
    pub fn on_synthesized(&mut self, sentence: CachedSentence) -> (r: BatchAction)
        requires
            old(self).wf(),
            old(self).resolved().len() < old(self).spans().len(),
        ensures
            final(self).wf(),
            final(self).text() == old(self).text(),
            final(self).spans() == old(self).spans(),
            final(self).has_context() == old(self).has_context(),
            final(self).resolved() == old(self).resolved().push(
                (old(self).spans()[old(self).resolved().len() as int].0, sentence),
            ),
            r == final(self).next_spec(),
    {
        let i = self.results.len();
        let start = self.sentences[i].0;
        self.results.push((start, sentence));
        self.next()
    }

    /// The sentences and their audio, once every sentence is resolved.
    pub fn finish(self) -> (r: (Vec<(usize, usize)>, Vec<(usize, CachedSentence)>))
        requires
            self.wf(),
        ensures
            r.0@ == self.spans(),
            r.1@ == self.resolved(),
            pair_view(r.0@) == sentences_of(self.text()),
    {
        (self.sentences, self.results)
    }
}

/// Whether `h` is among `hs`.
pub open spec fn has_hash(hs: Seq<u64>, h: u64) -> bool {
    exists|j: int| 0 <= j < hs.len() && hs[j] == h
}

/// Indices of the texts among the first `k` that an export synthesizes: a
/// text is skipped when its bundle exists, either before the export or
/// because an earlier text of the same hash was just exported.
pub open spec fn export_plan(hashes: Seq<u64>, existing: Seq<u64>, k: int) -> Seq<int>
    decreases k,
{
    if k <= 0 {
        Seq::empty()
    } else {
        let prev = export_plan(hashes, existing, k - 1);
        if has_hash(existing, hashes[k - 1]) || has_hash(prev.map_values(|j: int| hashes[j]), hashes[k - 1]) {
            prev
        } else {
            prev.push(k - 1)
        }
    }
}

/// The texts (by index) that an export synthesizes and bundles, given the
/// text hashes and the hashes whose bundle already exists.
pub fn plan_export(hashes: &[u64], existing: &[u64]) -> (r: Vec<usize>)
    ensures
        r@.map_values(|j: usize| j as int) == export_plan(hashes@, existing@, hashes@.len() as int),
{
    let mut out: Vec<usize> = Vec::new();
    let mut done: Vec<u64> = Vec::new();
    let mut k: usize = 0;
    while k < hashes.len()
        invariant
            k <= hashes@.len(),
            out@.map_values(|j: usize| j as int) == export_plan(hashes@, existing@, k as int),
            done@ == export_plan(hashes@, existing@, k as int).map_values(|j: int| hashes@[j]),
            forall|i: int| 0 <= i < out@.len() ==> #[trigger] out@[i] < k,
        decreases hashes@.len() - k,
    {
        let h = hashes[k];
        let skip = contains_hash(existing, h) || contains_hash(done.as_slice(), h);
        let ghost prev = export_plan(hashes@, existing@, k as int);
        if !skip {
            out.push(k);
            done.push(h);
            assert(out@.map_values(|j: usize| j as int) =~= prev.push(k as int));
            assert(done@ =~= prev.push(k as int).map_values(|j: int| hashes@[j]));
        }
        k = k + 1;
    }
    out
}

fn contains_hash(hs: &[u64], h: u64) -> (r: bool)
    ensures
        r == has_hash(hs@, h),
{
    let mut j: usize = 0;
    while j < hs.len()
        invariant
            j <= hs@.len(),
            forall|i: int| 0 <= i < j ==> hs@[i] != h,
        decreases hs@.len() - j,
    {
        if hs[j] == h {
            return true;
        }
        j = j + 1;
    }
    false
}

proof fn lemma_plan_covers(hashes: Seq<u64>, existing: Seq<u64>, k: int)
    requires
        0 <= k <= hashes.len(),
    ensures
        forall|i: int|
            0 <= i < k ==> has_hash(existing, #[trigger] hashes[i]) || has_hash(
                export_plan(hashes, existing, k).map_values(|j: int| hashes[j]),
                hashes[i],
            ),
        forall|i: int| 0 <= i < export_plan(hashes, existing, k).len() ==> 0 <= #[trigger] export_plan(hashes, existing, k)[i] < k,
    decreases k,
{
    if k > 0 {
        lemma_plan_covers(hashes, existing, k - 1);
        let prev = export_plan(hashes, existing, k - 1);
        let cur = export_plan(hashes, existing, k);
        let pm = prev.map_values(|j: int| hashes[j]);
        let cm = cur.map_values(|j: int| hashes[j]);
        assert forall|i: int| 0 <= i < k implies has_hash(existing, #[trigger] hashes[i]) || has_hash(cm, hashes[i]) by {
            if !has_hash(existing, hashes[i]) {
                if i < k - 1 {
                    let w = choose|w: int| 0 <= w < pm.len() && pm[w] == hashes[i];
                    assert(cm[w] == pm[w]);
                } else if !has_hash(pm, hashes[i]) {
                    assert(cm[cm.len() - 1] == hashes[k - 1]);
                }
            }
        }
    }
}

/// Exporting again, with every bundle the first export wrote in place,
/// synthesizes nothing.
pub proof fn lemma_export_idempotent(hashes: Seq<u64>, existing: Seq<u64>)
    ensures
        export_plan(
            hashes,
            existing + export_plan(hashes, existing, hashes.len() as int).map_values(|j: int| hashes[j]),
            hashes.len() as int,
        ).len() == 0,
{
    let first = export_plan(hashes, existing, hashes.len() as int).map_values(|j: int| hashes[j]);
    let all = existing + first;
    lemma_plan_covers(hashes, existing, hashes.len() as int);
    assert forall|i: int| 0 <= i < hashes.len() implies has_hash(all, #[trigger] hashes[i]) by {
        if has_hash(existing, hashes[i]) {
            let w = choose|w: int| 0 <= w < existing.len() && existing[w] == hashes[i];
            assert(all[w] == existing[w]);
        } else {
            let w = choose|w: int| 0 <= w < first.len() && first[w] == hashes[i];
            assert(all[existing.len() + w] == first[w]);
        }
    }
    lemma_plan_empty(hashes, all, hashes.len() as int);
}

proof fn lemma_plan_empty(hashes: Seq<u64>, existing: Seq<u64>, k: int)
    requires
        0 <= k <= hashes.len(),
        forall|i: int| 0 <= i < hashes.len() ==> has_hash(existing, #[trigger] hashes[i]),
    ensures
        export_plan(hashes, existing, k).len() == 0,
    decreases k,
{
    if k > 0 {
        lemma_plan_empty(hashes, existing, k - 1);
        assert(has_hash(existing, hashes[k - 1]));
    }
}

} // verus!
