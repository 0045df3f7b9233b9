use vstd::prelude::*;
use vstd::string::StringSliceAdditionalSpecFns;
use vstd::utf8::encode_utf8;
use crate::num::{parse_scaled, parse_scaled_exec};
use crate::tts::cache::CachedSentence;
use crate::text::{
    ws_len_at, ws_len_at_exec, fields_from, line_spans, line_spans_exec, field_spans_exec,
    pair_view,
};

verus! {

/// One whitespace-delimited word of the narration text: its number, counted
/// from 0 over the whole text, and its byte offset.
#[derive(Clone, Copy, Debug, PartialEq, Eq, Structural)]
pub struct InputWord {
    pub index: usize,
    pub char_offset: usize,
}

/// End of the word that starts at `i`.
pub open spec fn word_end(b: Seq<u8>, i: int) -> int
    decreases b.len() - i,
{
    if 0 <= i < b.len() && ws_len_at(b, i) == 0 {
        word_end(b, i + 1)
    } else {
        i
    }
}

proof fn lemma_word_end(b: Seq<u8>, i: int)
    requires
        0 <= i <= b.len(),
    ensures
        i <= word_end(b, i) <= b.len(),
    decreases b.len() - i,
{
    if i < b.len() && ws_len_at(b, i) == 0 {
        lemma_word_end(b, i + 1);
    }
}

/// Byte offsets of the words of `b` from `i` on.
pub open spec fn word_starts_from(b: Seq<u8>, i: int) -> Seq<int>
    decreases b.len() + 1 - i
    via word_starts_decreases
{
    if i < 0 || i >= b.len() {
        Seq::empty()
    } else if ws_len_at(b, i) > 0 {
        word_starts_from(b, i + ws_len_at(b, i))
    } else {
        seq![i] + word_starts_from(b, word_end(b, i))
    }
}

#[via_fn]
proof fn word_starts_decreases(b: Seq<u8>, i: int) {
    if 0 <= i < b.len() && ws_len_at(b, i) == 0 {
        lemma_word_end(b, i + 1);
    }
}

/// The words of `b`, numbered from 0.
pub open spec fn input_words(b: Seq<u8>) -> Seq<InputWord> {
    let starts = word_starts_from(b, 0);
    Seq::new(starts.len(), |k: int| InputWord { index: k as usize, char_offset: starts[k] as usize })
}

proof fn lemma_word_starts_bounded(b: Seq<u8>, i: int)
    requires
        0 <= i,
    ensures
        word_starts_from(b, i).len() <= b.len(),
        forall|k: int| 0 <= k < word_starts_from(b, i).len() ==> i <= #[trigger] word_starts_from(b, i)[k] < b.len(),
        word_starts_from(b, i).len() + i <= b.len() || word_starts_from(b, i).len() == 0,
    decreases b.len() + 1 - i,
{
    if 0 <= i < b.len() {
        if ws_len_at(b, i) > 0 {
            lemma_word_starts_bounded(b, i + ws_len_at(b, i));
        } else {
            lemma_word_end(b, i + 1);
            lemma_word_starts_bounded(b, word_end(b, i));
        }
    }
}

/// The whitespace-delimited words of the whole text, numbered left to right,
/// each with its byte offset.
pub fn extract_input_words(text: &str) -> (r: Vec<InputWord>)
    ensures
        r@ == input_words(text.spec_bytes()),
{
    let b = text.as_bytes();
    let len = b.len();
    let ghost starts = word_starts_from(b@, 0);
    let mut out: Vec<InputWord> = Vec::new();
    let mut i: usize = 0;
    proof {
        lemma_word_starts_bounded(b@, 0);
    }
    while i < len
        invariant
            len == b@.len(),
            i <= len,
            starts == word_starts_from(b@, 0),
            starts.len() <= len,
            out@.len() <= starts.len(),
            starts == starts.subrange(0, out@.len() as int) + word_starts_from(b@, i as int),
            forall|k: int| 0 <= k < out@.len() ==> #[trigger] out@[k] == (InputWord { index: k as usize, char_offset: starts[k] as usize }),
        decreases len - i,
    {
        let w = ws_len_at_exec(b, i);
        if w > 0 {
            i = i + w;
        } else {
            proof {
                lemma_word_end(b@, i as int);
                lemma_word_starts_bounded(b@, word_end(b@, i as int));
                assert(starts.subrange(0, out@.len() as int + 1) =~= starts.subrange(0, out@.len() as int) + seq![i as int]);
                assert(starts =~= starts.subrange(0, out@.len() as int + 1) + word_starts_from(b@, word_end(b@, i as int)));
            }
            let ghost k0 = out@.len();
            out.push(InputWord { index: out.len(), char_offset: i });
            let mut j = i + 1;
            while j < len && ws_len_at_exec(b, j) == 0
                invariant
                    len == b@.len(),
                    i < j <= len,
                    word_end(b@, i as int) == word_end(b@, j as int),
                decreases len - j,
            {
                j = j + 1;
            }
            i = j;
        }
    }
    assert(out@ =~= input_words(b@));
    out
}


/// `u8::is_ascii_punctuation`.
pub open spec fn is_ascii_punct(c: u8) -> bool {
    (0x21 <= c <= 0x2F) || (0x3A <= c <= 0x40) || (0x5B <= c <= 0x60) || (0x7B <= c <= 0x7E)
}

pub open spec fn all_punct(b: Seq<u8>, s: int, e: int) -> bool {
    forall|k: int| s <= k < e ==> is_ascii_punct(#[trigger] b[k])
}

/// One row of the engine's alignment output: when a word starts and ends
/// within its sentence, in microseconds.
#[derive(Clone, Copy, Debug, PartialEq, Eq, Structural)]
pub struct AlignmentRow {
    pub start_us: u64,
    pub end_us: u64,
}

/// A seconds field in microseconds; text that is no non-negative decimal counts as 0.
pub open spec fn seconds_us(b: Seq<u8>, span: (int, int)) -> int {
    match parse_scaled(b, span.0, span.1, 6) {
        Some(v) => v,
        None => 0,
    }
}

/// The row of one line `word \t start \t end`, unless it has fewer than
/// three fields or its word is punctuation only.
pub open spec fn row_of_line(b: Seq<u8>, line: (int, int)) -> Seq<AlignmentRow> {
    let f = fields_from(b, line.0, line.1, 0x09);
    if f.len() < 3 || all_punct(b, f[0].0, f[0].1) {
        Seq::empty()
    } else {
        seq![AlignmentRow { start_us: seconds_us(b, f[1]) as u64, end_us: seconds_us(b, f[2]) as u64 }]
    }
}

/// Rows of lines `1..k`; line 0 is the header.
pub open spec fn rows_upto(b: Seq<u8>, lines: Seq<(int, int)>, k: int) -> Seq<AlignmentRow>
    decreases k,
{
    if k <= 1 {
        Seq::empty()
    } else {
        rows_upto(b, lines, k - 1) + row_of_line(b, lines[k - 1])
    }
}

/// The rows of the engine's tab-separated alignment output.
pub open spec fn alignment_rows(b: Seq<u8>) -> Seq<AlignmentRow> {
    rows_upto(b, line_spans(b), line_spans(b).len() as int)
}

fn seconds_us_exec(b: &[u8], s: usize, e: usize) -> (r: u64)
    requires
        s <= e <= b@.len(),
    ensures
        r == seconds_us(b@, (s as int, e as int)),
{
    match parse_scaled_exec(b, s, e, 6) {
        Some(v) => v,
        None => 0,
    }
}

/// Parses the engine's alignment output: a header line, then one
/// `word \t start_seconds \t end_seconds` line per word. Lines with fewer
/// than three fields and words made of punctuation only are skipped.
pub fn parse_tsv_words(tsv_content: &str) -> (r: Vec<AlignmentRow>)
    ensures
        r@ == alignment_rows(tsv_content.spec_bytes()),
{
    let b = tsv_content.as_bytes();
    let lines = line_spans_exec(b);
    let mut out: Vec<AlignmentRow> = Vec::new();
    let mut k: usize = 1;
    if lines.len() == 0 {
        return out;
    }
    while k < lines.len()
        invariant
            pair_view(lines@) == line_spans(b@),
            forall|j: int| 0 <= j < lines@.len() ==> #[trigger] lines@[j].0 <= lines@[j].1 <= b@.len(),
            1 <= k <= lines@.len(),
            out@ == rows_upto(b@, pair_view(lines@), k as int),
        decreases lines@.len() - k,
    {
        let (s, e) = lines[k];
        let f = field_spans_exec(b, s, e, 0x09);
        let ghost line = pair_view(lines@)[k as int];
        assert(line == (s as int, e as int));
        if f.len() >= 3 {
            let (ws, we) = f[0];
            let mut p = ws;
            let mut punct = true;
            while p < we
                invariant
                    s <= ws <= p <= we <= e <= b@.len(),
                    punct == all_punct(b@, ws as int, p as int),
                decreases we - p,
            {
                let c = b[p];
                if !((0x21 <= c && c <= 0x2F) || (0x3A <= c && c <= 0x40) || (0x5B <= c && c <= 0x60) || (0x7B <= c && c <= 0x7E)) {
                    punct = false;
                }
                p = p + 1;
            }
            if !punct {
                let (s1, e1) = f[1];
                let (s2, e2) = f[2];
                let row = AlignmentRow { start_us: seconds_us_exec(b, s1, e1), end_us: seconds_us_exec(b, s2, e2) };
                out.push(row);
            }
        }
        k = k + 1;
        assert(out@ =~= rows_upto(b@, pair_view(lines@), k as int));
    }
    out
}


/// One word's interval on the stitched timeline, in microseconds.
#[derive(Clone, Copy, Debug, PartialEq, Eq, Structural)]
pub struct WordTiming {
    pub word_index: usize,
    pub char_offset: usize,
    pub start_us: u64,
    pub end_us: u64,
}

/// `x`, saturated at `u64::MAX`.
pub open spec fn sat(x: int) -> int {
    if x > u64::MAX {
        u64::MAX as int
    } else {
        x
    }
}

/// Duration in microseconds of `pcm_len` bytes of mono 16-bit PCM at
/// `rate` samples per second (rounded down; 0 at rate 0).
pub open spec fn duration_us(pcm_len: int, rate: int) -> int {
    if rate == 0 {
        0
    } else {
        sat(pcm_len * 1000000 / (2 * rate))
    }
}

/// End of the sentence that starts at `st`: its start plus its length, from
/// the first sentence with that start, else the end of the text.
pub open spec fn sentence_end(spans: Seq<(int, int)>, st: int, text_len: int) -> int
    decreases spans.len(),
{
    if spans.len() == 0 {
        text_len
    } else if spans[0].0 == st {
        st + spans[0].1
    } else {
        sentence_end(spans.drop_first(), st, text_len)
    }
}

/// The words among the first `k` of `words` whose offset lies in `st..end`.
pub open spec fn local_words(words: Seq<InputWord>, st: int, end: int, k: int) -> Seq<InputWord>
    decreases k,
{
    if k <= 0 {
        Seq::empty()
    } else {
        local_words(words, st, end, k - 1) + if st <= words[k - 1].char_offset < end {
            seq![words[k - 1]]
        } else {
            Seq::empty()
        }
    }
}

pub open spec fn min(a: int, b: int) -> int {
    if a <= b {
        a
    } else {
        b
    }
}

/// Timings of one sentence's words: from the alignment rows index for
/// index where there are any, else the sentence's duration shared evenly
/// among its words; all shifted by `offset`.
pub open spec fn sentence_timings(
    local: Seq<InputWord>,
    rows: Seq<AlignmentRow>,
    dur: int,
    offset: int,
) -> Seq<WordTiming> {
    if rows.len() > 0 {
        Seq::new(
            min(rows.len() as int, local.len() as int) as nat,
            |t: int|
                WordTiming {
                    word_index: local[t].index,
                    char_offset: local[t].char_offset,
                    start_us: sat(offset + rows[t].start_us) as u64,
                    end_us: sat(offset + rows[t].end_us) as u64,
                },
        )
    } else {
        Seq::new(
            local.len(),
            |t: int|
                WordTiming {
                    word_index: local[t].index,
                    char_offset: local[t].char_offset,
                    start_us: sat(offset + t * dur / (local.len() as int)) as u64,
                    end_us: sat(offset + (t + 1) * dur / (local.len() as int)) as u64,
                },
        )
    }
}

pub open spec fn result_duration(r: (usize, CachedSentence)) -> int {
    duration_us(r.1.pcm@.len() as int, r.1.sample_rate as int)
}

/// Start of sentence result `k` on the stitched timeline.
pub open spec fn offset_upto(results: Seq<(usize, CachedSentence)>, k: int) -> int
    decreases k,
{
    if k <= 0 {
        0
    } else {
        sat(offset_upto(results, k - 1) + result_duration(results[k - 1]))
    }
}

/// The timings of sentence result `k`.
pub open spec fn result_timings(
    text: Seq<u8>,
    spans: Seq<(int, int)>,
    results: Seq<(usize, CachedSentence)>,
    k: int,
) -> Seq<WordTiming> {
    let st = results[k].0 as int;
    let words = input_words(text);
    sentence_timings(
        local_words(words, st, sentence_end(spans, st, text.len() as int), words.len() as int),
        alignment_rows(encode_utf8(results[k].1.tsv_content@)),
        result_duration(results[k]),
        offset_upto(results, k),
    )
}

/// Timings of the first `k` sentence results, in order.
pub open spec fn timings_upto(
    text: Seq<u8>,
    spans: Seq<(int, int)>,
    results: Seq<(usize, CachedSentence)>,
    k: int,
) -> Seq<WordTiming>
    decreases k,
{
    if k <= 0 {
        Seq::empty()
    } else {
        timings_upto(text, spans, results, k - 1) + result_timings(text, spans, results, k - 1)
    }
}

/// PCM of the first `k` sentence results, concatenated.
pub open spec fn pcm_upto(results: Seq<(usize, CachedSentence)>, k: int) -> Seq<u8>
    decreases k,
{
    if k <= 0 {
        Seq::empty()
    } else {
        pcm_upto(results, k - 1) + results[k - 1].1.pcm@
    }
}

/// The stitched narration: PCM, sample rate, word timings and duration in microseconds.
pub struct StitchedResult {
    pub pcm: Vec<u8>,
    pub sample_rate: u32,
    pub timings: Vec<WordTiming>,
    pub duration_us: u64,
}

/// Why stitching produced nothing.
#[derive(Clone, Copy, Debug, PartialEq, Eq, Structural)]
pub enum StitchError {
    /// No sentence produced any audio.
    NoAudio,
}

pub(crate) fn duration_us_exec(pcm_len: usize, rate: u32) -> (r: u64)
    ensures
        r == duration_us(pcm_len as int, rate as int),
{
    if rate == 0 {
        0
    } else {
        let d: u128 = (pcm_len as u128) * 1000000 / (2 * rate as u128);
        assert((pcm_len as u128) * 1000000 <= u128::MAX) by (nonlinear_arith)
            requires
                pcm_len <= u64::MAX,
        ;
        if d > u64::MAX as u128 {
            u64::MAX
        } else {
            d as u64
        }
    }
}

fn sat_add(a: u64, b: u64) -> (r: u64)
    ensures
        r == sat(a + b),
{
    if a > u64::MAX - b {
        u64::MAX
    } else {
        a + b
    }
}

fn sentence_end_exec(sentences: &[(usize, usize)], st: usize, text_len: usize) -> (r: usize)
    requires
        forall|k: int| 0 <= k < sentences@.len() ==> #[trigger] sentences@[k].0 + sentences@[k].1 <= text_len,
    ensures
        r == sentence_end(pair_view(sentences@), st as int, text_len as int),
{
    let mut k: usize = 0;
    assert(pair_view(sentences@).subrange(0, sentences@.len() as int) =~= pair_view(sentences@));
    while k < sentences.len()
        invariant
            k <= sentences@.len(),
            forall|j: int| 0 <= j < sentences@.len() ==> #[trigger] sentences@[j].0 + sentences@[j].1 <= text_len,
            sentence_end(pair_view(sentences@), st as int, text_len as int) == sentence_end(pair_view(sentences@).subrange(k as int, sentences@.len() as int), st as int, text_len as int),
        decreases sentences@.len() - k,
    {
        let ghost rest = pair_view(sentences@).subrange(k as int, sentences@.len() as int);
        if sentences[k].0 == st {
            return st + sentences[k].1;
        }
        assert(rest.drop_first() =~= pair_view(sentences@).subrange(k + 1, sentences@.len() as int));
        k = k + 1;
    }
    text_len
}

fn local_words_exec(words: &Vec<InputWord>, st: usize, end: usize) -> (r: Vec<InputWord>)
    ensures
        r@ == local_words(words@, st as int, end as int, words@.len() as int),
{
    let mut out: Vec<InputWord> = Vec::new();
    let mut k: usize = 0;
    while k < words.len()
        invariant
            k <= words@.len(),
            out@ == local_words(words@, st as int, end as int, k as int),
        decreases words@.len() - k,
    {
        let w = words[k];
        if st <= w.char_offset && w.char_offset < end {
            out.push(w);
        }
        k = k + 1;
        assert(out@ =~= local_words(words@, st as int, end as int, k as int));
    }
    out
}

fn push_sentence_timings(
    out: &mut Vec<WordTiming>,
    local: &Vec<InputWord>,
    rows: &Vec<AlignmentRow>,
    dur: u64,
    offset: u64,
)
    ensures
        final(out)@ == old(out)@ + sentence_timings(local@, rows@, dur as int, offset as int),
{
    let ghost target = sentence_timings(local@, rows@, dur as int, offset as int);
    let ghost before = out@;
    let n = if rows.len() > 0 && rows.len() < local.len() {
        rows.len()
    } else {
        local.len()
    };
    assert(n == target.len());
    let mut t: usize = 0;
    while t < n
        invariant
            n == target.len(),
            t <= n,
            n <= local@.len(),
            rows@.len() > 0 ==> n <= rows@.len(),
            target == sentence_timings(local@, rows@, dur as int, offset as int),
            out@ == before + target.subrange(0, t as int),
        decreases n - t,
    {
        let w = local[t];
        let timing = if rows.len() > 0 {
            WordTiming {
                word_index: w.index,
                char_offset: w.char_offset,
                start_us: sat_add(offset, rows[t].start_us),
                end_us: sat_add(offset, rows[t].end_us),
            }
        } else {
            let wc = local.len() as u128;
            assert((t as u128) * (dur as u128) <= u128::MAX && ((t + 1) as u128) * (dur as u128) <= u128::MAX) by (nonlinear_arith)
                requires
                    t < u64::MAX,
                    dur <= u64::MAX,
            ;
            assert((t as int) * (dur as int) / (wc as int) <= dur && ((t + 1) as int) * (dur as int) / (wc as int) <= dur) by (nonlinear_arith)
                requires
                    t < wc,
                    wc >= 1,
                    dur >= 0,
            ;
            let a = ((t as u128) * (dur as u128) / wc) as u64;
            let z = (((t + 1) as u128) * (dur as u128) / wc) as u64;
            WordTiming {
                word_index: w.index,
                char_offset: w.char_offset,
                start_us: sat_add(offset, a),
                end_us: sat_add(offset, z),
            }
        };
        out.push(timing);
        t = t + 1;
        assert(out@ =~= before + target.subrange(0, t as int));
    }
    assert(target.subrange(0, n as int) =~= target);
}

/// Concatenates the sentences' PCM in order and places every word of the
/// text on the stitched timeline. Fails only when no sentence has audio.
pub fn stitch_sentences(
    text: &str,
    sentences: &[(usize, usize)],
    sentence_results: &[(usize, CachedSentence)],
) -> (r: Result<StitchedResult, StitchError>)
    requires
        forall|k: int| 0 <= k < sentences@.len() ==> #[trigger] sentences@[k].0 + sentences@[k].1 <= text.spec_bytes().len(),
    ensures
        pcm_upto(sentence_results@, sentence_results@.len() as int).len() == 0 ==> r == Err::<StitchedResult, StitchError>(StitchError::NoAudio),
        pcm_upto(sentence_results@, sentence_results@.len() as int).len() > 0 ==> (r matches Ok(s) && s.pcm@ == pcm_upto(sentence_results@, sentence_results@.len() as int)
            && s.sample_rate == sentence_results@[0].1.sample_rate
            && s.timings@ == timings_upto(text.spec_bytes(), pair_view(sentences@), sentence_results@, sentence_results@.len() as int)
            && s.duration_us == offset_upto(sentence_results@, sentence_results@.len() as int)),
{
    let ghost tb = text.spec_bytes();
    let ghost spans = pair_view(sentences@);
    let words = extract_input_words(text);
    let text_len = text.as_bytes().len();
    let mut pcm: Vec<u8> = Vec::new();
    let mut timings: Vec<WordTiming> = Vec::new();
    let mut offset: u64 = 0;
    let mut k: usize = 0;
    while k < sentence_results.len()
        invariant
            tb == text.spec_bytes(),
            text_len == tb.len(),
            spans == pair_view(sentences@),
            words@ == input_words(tb),
            forall|j: int| 0 <= j < sentences@.len() ==> #[trigger] sentences@[j].0 + sentences@[j].1 <= text_len,
            k <= sentence_results@.len(),
            pcm@ == pcm_upto(sentence_results@, k as int),
            timings@ == timings_upto(tb, spans, sentence_results@, k as int),
            offset == offset_upto(sentence_results@, k as int),
        decreases sentence_results@.len() - k,
    {
        let st = sentence_results[k].0;
        let c = &sentence_results[k].1;
        let dur = duration_us_exec(c.pcm.len(), c.sample_rate);
        let rows = parse_tsv_words(c.tsv_content.as_str());
        let end = sentence_end_exec(sentences, st, text_len);
        let local = local_words_exec(&words, st, end);
        push_sentence_timings(&mut timings, &local, &rows, dur, offset);
        let ghost before = pcm@;
        let mut i: usize = 0;
        while i < c.pcm.len()
            invariant
                i <= c.pcm@.len(),
                pcm@ == before + c.pcm@.subrange(0, i as int),
            decreases c.pcm@.len() - i,
        {
            pcm.push(c.pcm[i]);
            i = i + 1;
            assert(pcm@ =~= before + c.pcm@.subrange(0, i as int));
        }
        assert(c.pcm@.subrange(0, c.pcm@.len() as int) =~= c.pcm@);
        offset = sat_add(offset, dur);
        k = k + 1;
    }
    if pcm.len() == 0 {
        return Err(StitchError::NoAudio);
    }
    let sample_rate = sentence_results[0].1.sample_rate;
    Ok(StitchedResult { pcm, sample_rate, timings, duration_us: offset })
}


/// Every interval is well ordered and starts never go back.
pub open spec fn timings_ordered(ts: Seq<WordTiming>) -> bool {
    &&& forall|k: int| 0 <= k < ts.len() ==> #[trigger] ts[k].start_us <= ts[k].end_us
    &&& forall|k: int| 0 <= k < ts.len() - 1 ==> #[trigger] ts[k].start_us <= ts[k + 1].start_us
}

/// Alignment rows that are well ordered, start in order, and start within
/// the sentence's `dur` microseconds.
pub open spec fn rows_well_formed(rows: Seq<AlignmentRow>, dur: int) -> bool {
    &&& forall|t: int| 0 <= t < rows.len() ==> #[trigger] rows[t].start_us <= rows[t].end_us
    &&& forall|t: int| 0 <= t < rows.len() - 1 ==> #[trigger] rows[t].start_us <= rows[t + 1].start_us
    &&& forall|t: int| 0 <= t < rows.len() ==> #[trigger] rows[t].start_us <= dur
}

/// Every sentence result's alignment rows are well formed.
pub open spec fn results_well_formed(results: Seq<(usize, CachedSentence)>) -> bool {
    forall|k: int|
        0 <= k < results.len() ==> rows_well_formed(
            alignment_rows(encode_utf8(#[trigger] results[k].1.tsv_content@)),
            result_duration(results[k]),
        )
}

proof fn lemma_div_mono(a: int, b: int, d: int, n: int)
    requires
        0 <= a <= b,
        d >= 0,
        n >= 1,
    ensures
        a * d / n <= b * d / n,
{
    assert(a * d <= b * d) by (nonlinear_arith)
        requires
            0 <= a <= b,
            d >= 0,
    ;
    vstd::arithmetic::div_mod::lemma_div_is_ordered(a * d, b * d, n);
}

proof fn lemma_sentence_ordered(local: Seq<InputWord>, rows: Seq<AlignmentRow>, dur: int, offset: int)
    requires
        0 <= offset <= u64::MAX,
        0 <= dur <= u64::MAX,
        rows_well_formed(rows, dur),
    ensures
        timings_ordered(sentence_timings(local, rows, dur, offset)),
        forall|t: int|
            0 <= t < sentence_timings(local, rows, dur, offset).len() ==> offset <= #[trigger] sentence_timings(local, rows, dur, offset)[t].start_us <= sat(offset + dur),
{
    let ts = sentence_timings(local, rows, dur, offset);
    if rows.len() == 0 {
        let n = local.len() as int;
        assert forall|t: int| 0 <= t < ts.len() implies offset <= #[trigger] ts[t].start_us <= sat(offset + dur) && ts[t].start_us <= ts[t].end_us by {
            lemma_div_mono(t, t + 1, dur, n);
            lemma_div_mono(t, n, dur, n);
            assert(n * dur / n == dur) by (nonlinear_arith)
                requires
                    n >= 1,
            ;
            assert(t * dur / n >= 0) by (nonlinear_arith)
                requires
                    t >= 0,
                    dur >= 0,
                    n >= 1,
            ;
        }
        assert forall|t: int| 0 <= t < ts.len() - 1 implies #[trigger] ts[t].start_us <= ts[t + 1].start_us by {
            lemma_div_mono(t, t + 1, dur, n);
        }
    }
}

proof fn lemma_timings_upto_ordered(
    text: Seq<u8>,
    spans: Seq<(int, int)>,
    results: Seq<(usize, CachedSentence)>,
    k: int,
)
    requires
        0 <= k <= results.len(),
        results_well_formed(results),
    ensures
        timings_ordered(timings_upto(text, spans, results, k)),
        0 <= offset_upto(results, k) <= u64::MAX,
        forall|j: int|
            0 <= j < timings_upto(text, spans, results, k).len() ==> #[trigger] timings_upto(text, spans, results, k)[j].start_us <= offset_upto(results, k),
    decreases k,
{
    if k > 0 {
        lemma_timings_upto_ordered(text, spans, results, k - 1);
        let a = timings_upto(text, spans, results, k - 1);
        let st = results[k - 1].0 as int;
        let words = input_words(text);
        let local = local_words(words, st, sentence_end(spans, st, text.len() as int), words.len() as int);
        let rows = alignment_rows(encode_utf8(results[k - 1].1.tsv_content@));
        let dur = result_duration(results[k - 1]);
        let o = offset_upto(results, k - 1);
        assert(rows_well_formed(rows, dur));
        if results[k - 1].1.sample_rate > 0 {
            let len = results[k - 1].1.pcm@.len() as int;
            let rate = results[k - 1].1.sample_rate as int;
            assert(0 <= len * 1000000 / (2 * rate)) by (nonlinear_arith)
                requires
                    rate > 0,
                    len >= 0,
            ;
        }
        lemma_sentence_ordered(local, rows, dur, o);
        let b = sentence_timings(local, rows, dur, o);
        let c = timings_upto(text, spans, results, k);
        assert(c == a + b);
        assert forall|j: int| 0 <= j < c.len() - 1 implies #[trigger] c[j].start_us <= c[j + 1].start_us by {
            if j + 1 < a.len() {
                assert(c[j] == a[j] && c[j + 1] == a[j + 1]);
            } else if j + 1 == a.len() {
                assert(c[j] == a[j] && c[j + 1] == b[0]);
            } else {
                assert(c[j] == b[j - a.len()] && c[j + 1] == b[j + 1 - a.len()]);
            }
        }
        assert forall|j: int| 0 <= j < c.len() implies #[trigger] c[j].start_us <= c[j].end_us && c[j].start_us <= offset_upto(results, k) by {
            if j < a.len() {
                assert(c[j] == a[j]);
            } else {
                assert(c[j] == b[j - a.len()]);
            }
        }
    }
}

/// The stitched timings are well ordered and their starts never go back,
/// for sentence results whose alignment rows are themselves well formed
/// (rows that go back in time would be copied as they are).
pub proof fn lemma_stitched_timings_ordered(
    text: Seq<u8>,
    spans: Seq<(int, int)>,
    results: Seq<(usize, CachedSentence)>,
)
    requires
        results_well_formed(results),
    ensures
        timings_ordered(timings_upto(text, spans, results, results.len() as int)),
{
    lemma_timings_upto_ordered(text, spans, results, results.len() as int);
}

} // verus!
