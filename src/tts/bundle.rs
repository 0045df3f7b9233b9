use vstd::prelude::*;
use vstd::utf8::encode_utf8;
use crate::num::{
    decimal, digit_char, parse_scaled, parse_scaled_exec, parse_uint, parse_uint_exec,
    push_char, push_decimal,
};
use crate::text::{fields_from, line_spans, line_spans_exec, field_spans_exec, pair_view};
use crate::tts::cache::{key_file_name, key_file_name_exec};
use crate::tts::timing::{duration_us, WordTiming};
use crate::tts::wav::{parse_chunks_spec, parse_wav_chunks};

verus! {

/// A ready narration: its canonical WAVE bytes, its word timings, and its
/// duration in microseconds as the WAVE data chunk gives it.
pub struct BundledAudio {
    pub wav_bytes: Vec<u8>,
    pub timings: Vec<WordTiming>,
    pub duration_us: u64,
}

/// The fraction digits of `f` thousandths, without trailing zeros.
pub open spec fn thousandths(f: int) -> Seq<char> {
    if f % 100 == 0 {
        seq![digit_char(f / 100)]
    } else if f % 10 == 0 {
        seq![digit_char(f / 100), digit_char((f / 10) % 10)]
    } else {
        seq![digit_char(f / 100), digit_char((f / 10) % 10), digit_char(f % 10)]
    }
}

/// Milliseconds of `us` microseconds as decimal text, with a fraction only
/// where one is left.
pub open spec fn ms_text(us: nat) -> Seq<char> {
    if us % 1000 == 0 {
        decimal(us / 1000)
    } else {
        decimal(us / 1000) + seq!['.'] + thousandths((us % 1000) as int)
    }
}

/// One line of the timings file.
pub open spec fn timing_line(t: WordTiming) -> Seq<char> {
    decimal(t.word_index as nat) + seq!['\t'] + decimal(t.char_offset as nat) + seq!['\t']
        + ms_text(t.start_us as nat) + seq!['\t'] + ms_text(t.end_us as nat) + seq!['\n']
}

/// The timings file for the first `k` timings.
pub open spec fn timings_text(ts: Seq<WordTiming>, k: int) -> Seq<char>
    decreases k,
{
    if k <= 0 {
        Seq::empty()
    } else {
        timings_text(ts, k - 1) + timing_line(ts[k - 1])
    }
}

fn push_ms(s: &mut String, us: u64)
    ensures
        final(s)@ == old(s)@ + ms_text(us as nat),
{
    push_decimal(s, us / 1000);
    let f = us % 1000;
    if f != 0 {
        push_char(s, '.');
        push_char(s, digit_of(f / 100));
        if f % 100 != 0 {
            push_char(s, digit_of((f / 10) % 10));
            if f % 10 != 0 {
                push_char(s, digit_of(f % 10));
            }
        }
    }
    assert(final(s)@ =~= old(s)@ + ms_text(us as nat));
}

fn digit_of(d: u64) -> (c: char)
    requires
        d < 10,
    ensures
        c == digit_char(d as int),
{
    ((48 + d) as u8) as char
}

/// The timings file: one `word_index \t char_offset \t start_ms \t end_ms`
/// line per timing, no header.
pub fn timings_file_text(timings: &[WordTiming]) -> (r: String)
    ensures
        r@ == timings_text(timings@, timings@.len() as int),
{
    let mut s = String::new();
    let mut k: usize = 0;
    while k < timings.len()
        invariant
            k <= timings@.len(),
            s@ == timings_text(timings@, k as int),
        decreases timings@.len() - k,
    {
        let t = timings[k];
        push_decimal(&mut s, t.word_index as u64);
        push_char(&mut s, '\t');
        push_decimal(&mut s, t.char_offset as u64);
        push_char(&mut s, '\t');
        push_ms(&mut s, t.start_us);
        push_char(&mut s, '\t');
        push_ms(&mut s, t.end_us);
        push_char(&mut s, '\n');
        k = k + 1;
        assert(s@ =~= timings_text(timings@, k as int));
    }
    s
}

/// The timing a line holds: `Some(empty)` for a line of fewer than four
/// fields, which is skipped, and `None` where a field does not parse.
pub open spec fn timing_of_line(b: Seq<u8>, line: (int, int)) -> Option<Seq<WordTiming>> {
    let f = fields_from(b, line.0, line.1, 0x09);
    if f.len() < 4 {
        Some(Seq::empty())
    } else {
        match (
            parse_uint(b, f[0].0, f[0].1, usize::MAX as int),
            parse_uint(b, f[1].0, f[1].1, usize::MAX as int),
            parse_scaled(b, f[2].0, f[2].1, 3),
            parse_scaled(b, f[3].0, f[3].1, 3),
        ) {
            (Some(wi), Some(co), Some(st), Some(en)) => Some(
                seq![WordTiming { word_index: wi as usize, char_offset: co as usize, start_us: st as u64, end_us: en as u64 }],
            ),
            _ => None,
        }
    }
}

/// The timings of lines `0..k`, or `None` if one of them does not parse.
pub open spec fn timings_of_lines(b: Seq<u8>, lines: Seq<(int, int)>, k: int) -> Option<
    Seq<WordTiming>,
>
    decreases k,
{
    if k <= 0 {
        Some(Seq::empty())
    } else {
        match (timings_of_lines(b, lines, k - 1), timing_of_line(b, lines[k - 1])) {
            (Some(a), Some(t)) => Some(a + t),
            _ => None,
        }
    }
}

/// The timings a timings file holds.
pub open spec fn bundle_timings(text: Seq<char>) -> Option<Seq<WordTiming>> {
    let b = encode_utf8(text);
    timings_of_lines(b, line_spans(b), line_spans(b).len() as int)
}

/// The bundle two files make: none if either is missing, the timings do
/// not parse or the WAVE bytes have no format and data; else the WAVE bytes,
/// the timings and the data chunk's duration.
pub open spec fn bundle_entry(wav: Option<Seq<u8>>, text: Option<Seq<char>>) -> Option<
    (Seq<u8>, Seq<WordTiming>, int),
> {
    match (wav, text) {
        (Some(w), Some(t)) => match (bundle_timings(t), parse_chunks_spec(w)) {
            (Some(ts), Ok((f, span))) => Some(
                (w, ts, duration_us(span.1 - span.0, f.sample_rate as int)),
            ),
            _ => None,
        },
        _ => None,
    }
}

fn parse_timings(text: &String) -> (r: Option<Vec<WordTiming>>)
    ensures
        match bundle_timings(text@) {
            Some(ts) => r matches Some(v) && v@ == ts,
            None => r is None,
        },
{
    let b = text.as_str().as_bytes();
    let lines = line_spans_exec(b);
    let mut out: Vec<WordTiming> = Vec::new();
    let mut k: usize = 0;
    while k < lines.len()
        invariant
            b@ == encode_utf8(text@),
            pair_view(lines@) == line_spans(b@),
            forall|j: int| 0 <= j < lines@.len() ==> #[trigger] lines@[j].0 <= lines@[j].1 <= b@.len(),
            k <= lines@.len(),
            timings_of_lines(b@, pair_view(lines@), k as int) == Some(out@),
        decreases lines@.len() - k,
    {
        let (s, e) = lines[k];
        let ghost line = pair_view(lines@)[k as int];
        assert(line == (s as int, e as int));
        let f = field_spans_exec(b, s, e, 0x09);
        if f.len() >= 4 {
            let wi = parse_uint_exec(b, f[0].0, f[0].1, usize::MAX as u64);
            let co = parse_uint_exec(b, f[1].0, f[1].1, usize::MAX as u64);
            let st = parse_scaled_exec(b, f[2].0, f[2].1, 3);
            let en = parse_scaled_exec(b, f[3].0, f[3].1, 3);
            match (wi, co, st, en) {
                (Some(wi), Some(co), Some(st), Some(en)) => {
                    out.push(WordTiming { word_index: wi as usize, char_offset: co as usize, start_us: st, end_us: en });
                },
                _ => {
                    proof {
                        let kk = k as int + 1;
                        assert(timing_of_line(b@, pair_view(lines@)[kk - 1]) is None);
                        assert(timings_of_lines(b@, pair_view(lines@), kk) is None);
                        lemma_failed_stays(b@, pair_view(lines@), kk, lines@.len() as int);
                    }
                    return None;
                },
            }
        }
        k = k + 1;
        assert(timings_of_lines(b@, pair_view(lines@), k as int) =~= Some(out@));
    }
    Some(out)
}

proof fn lemma_failed_stays(b: Seq<u8>, lines: Seq<(int, int)>, k: int, n: int)
    requires
        1 <= k <= n,
        timings_of_lines(b, lines, k) is None,
    ensures
        timings_of_lines(b, lines, n) is None,
    decreases n - k,
{
    if k < n {
        lemma_failed_stays(b, lines, k + 1, n);
    }
}

/// Rebuilds a bundle from its two files as read (`None` where one could not be read).
pub fn bundle_hit(wav_bytes: Option<Vec<u8>>, timings_text: Option<String>) -> (r: Option<
    BundledAudio,
>)
    ensures
        match bundle_entry(crate::tts::cache::bytes_of(wav_bytes), crate::tts::cache::text_of(timings_text)) {
            Some((w, ts, d)) => r matches Some(a) && a.wav_bytes@ == w && a.timings@ == ts
                && a.duration_us == d,
            None => r is None,
        },
{
    let wav_bytes = match wav_bytes {
        Some(w) => w,
        None => {
            return None;
        },
    };
    let text = match timings_text {
        Some(t) => t,
        None => {
            return None;
        },
    };
    let timings = match parse_timings(&text) {
        Some(t) => t,
        None => {
            return None;
        },
    };
    let (f, data) = match parse_wav_chunks(wav_bytes.as_slice()) {
        Ok(p) => p,
        Err(_) => {
            return None;
        },
    };
    let duration_us = crate::tts::timing::duration_us_exec(data.len(), f.sample_rate);
    Some(BundledAudio { wav_bytes, timings, duration_us })
}

/// The two files of a bundle: file name and content of the WAVE bytes and of the timings.
pub struct BundleFiles {
    pub wav_name: String,
    pub wav: Vec<u8>,
    pub timings_name: String,
    pub timings: String,
}

/// The files to store for a narration whose whole text hashes to `text_hash`.
pub fn bundle_write(text_hash: u64, wav: &[u8], timings: &[WordTiming]) -> (r: BundleFiles)
    ensures
        r.wav_name@ == key_file_name(text_hash, "wav"@),
        r.timings_name@ == key_file_name(text_hash, "timings"@),
        r.wav@ == wav@,
        r.timings@ == timings_text(timings@, timings@.len() as int),
{
    BundleFiles {
        wav_name: key_file_name_exec(text_hash, "wav"),
        wav: vstd::slice::slice_to_vec(wav),
        timings_name: key_file_name_exec(text_hash, "timings"),
        timings: timings_file_text(timings),
    }
}

} // verus!
