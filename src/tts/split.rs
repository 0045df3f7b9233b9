use vstd::prelude::*;
use vstd::string::StringSliceAdditionalSpecFns;
use crate::text::{is_ascii_ws, pair_view, trim_span, trim_span_exec};

verus! {

/// `.`, `!` or `?`.
pub open spec fn is_terminator(c: u8) -> bool {
    c == 0x2E || c == 0x21 || c == 0x3F
}

/// Last index of the run of terminators that starts at `i`.
pub open spec fn run_end(b: Seq<u8>, i: int) -> int
    decreases b.len() - i,
{
    if 0 <= i && i + 1 < b.len() && is_terminator(b[i + 1]) {
        run_end(b, i + 1)
    } else {
        i
    }
}

/// First index at or after `i` that is not ASCII whitespace.
pub open spec fn skip_ascii_ws(b: Seq<u8>, i: int) -> int
    decreases b.len() - i,
{
    if 0 <= i < b.len() && is_ascii_ws(b[i]) {
        skip_ascii_ws(b, i + 1)
    } else {
        i
    }
}

/// The sentence `b[s..e]` as its trimmed span, or nothing where it is blank.
pub open spec fn emit(b: Seq<u8>, s: int, e: int) -> Seq<(int, int)> {
    if trim_span(b, s, e).1 > 0 {
        seq![trim_span(b, s, e)]
    } else {
        Seq::empty()
    }
}

/// Sentences of `b` from scan position `i`, the current one starting at `start`.
/// A boundary is a run of terminators followed by ASCII whitespace or the end.
pub open spec fn split_from(b: Seq<u8>, start: int, i: int) -> Seq<(int, int)>
    decreases b.len() - i
    via split_from_decreases
{
    if i < 0 || i >= b.len() {
        emit(b, start, b.len() as int)
    } else if is_terminator(b[i]) {
        let j = run_end(b, i);
        if j + 1 >= b.len() || is_ascii_ws(b[j + 1]) {
            let next = skip_ascii_ws(b, j + 1);
            emit(b, start, j + 1) + split_from(b, next, next)
        } else {
            split_from(b, start, j + 1)
        }
    } else {
        split_from(b, start, i + 1)
    }
}

#[via_fn]
proof fn split_from_decreases(b: Seq<u8>, start: int, i: int) {
    if 0 <= i < b.len() && is_terminator(b[i]) {
        lemma_run_end(b, i);
        lemma_skip_ws(b, run_end(b, i) + 1);
    }
}

/// The sentences of `b`, each as `(byte offset, byte length)`.
pub open spec fn sentences_of(b: Seq<u8>) -> Seq<(int, int)> {
    split_from(b, 0, 0)
}

proof fn lemma_run_end(b: Seq<u8>, i: int)
    requires
        0 <= i < b.len(),
    ensures
        i <= run_end(b, i) < b.len(),
    decreases b.len() - i,
{
    if i + 1 < b.len() && is_terminator(b[i + 1]) {
        lemma_run_end(b, i + 1);
    }
}

proof fn lemma_skip_ws(b: Seq<u8>, i: int)
    requires
        0 <= i <= b.len(),
    ensures
        i <= skip_ascii_ws(b, i) <= b.len(),
    decreases b.len() - i,
{
    if i < b.len() && is_ascii_ws(b[i]) {
        lemma_skip_ws(b, i + 1);
    }
}

fn push_sentence(out: &mut Vec<(usize, usize)>, b: &[u8], s: usize, e: usize)
    requires
        s <= e <= b@.len(),
    ensures
        pair_view(final(out)@) == pair_view(old(out)@) + emit(b@, s as int, e as int),
        forall|k: int|
            old(out)@.len() <= k < final(out)@.len() ==> s <= #[trigger] final(out)@[k].0 && final(out)@[k].0 + final(out)@[k].1 <= e,
        forall|k: int| 0 <= k < old(out)@.len() ==> #[trigger] final(out)@[k] == old(out)@[k],
{
    let ghost before = out@;
    let t = trim_span_exec(b, s, e);
    if t.1 > 0 {
        out.push(t);
        assert(pair_view(out@) =~= pair_view(before) + emit(b@, s as int, e as int));
    } else {
        assert(pair_view(out@) =~= pair_view(before) + emit(b@, s as int, e as int));
    }
}

/// Splits narration text into sentences, each as `(byte offset, byte length)`
/// of its trimmed text. Runs of `.`, `!`, `?` followed by ASCII whitespace or
/// the end close a sentence; a non-blank remainder is the last sentence.
pub fn split_sentences(text: &str) -> (r: Vec<(usize, usize)>)
    ensures
        pair_view(r@) == sentences_of(text.spec_bytes()),
        forall|k: int| 0 <= k < r@.len() ==> #[trigger] r@[k].0 + r@[k].1 <= text.spec_bytes().len(),
{
    let b = text.as_bytes();
    let len = b.len();
    let mut out: Vec<(usize, usize)> = Vec::new();
    let mut start: usize = 0;
    let mut i: usize = 0;
    while i < len
        invariant
            b@ == text.spec_bytes(),
            len == b@.len(),
            start <= i <= len,
            sentences_of(b@) == pair_view(out@) + split_from(b@, start as int, i as int),
            forall|k: int| 0 <= k < out@.len() ==> #[trigger] out@[k].0 + out@[k].1 <= len,
        decreases len - i,
    {
        let c = b[i];
        if c == 0x2E || c == 0x21 || c == 0x3F {
            let ghost i0 = i as int;
            proof {
                lemma_run_end(b@, i0);
            }
            while i + 1 < len && (b[i + 1] == 0x2E || b[i + 1] == 0x21 || b[i + 1] == 0x3F)
                invariant
                    len == b@.len(),
                    i0 <= i < len,
                    run_end(b@, i0) == run_end(b@, i as int),
                decreases len - i,
            {
                i = i + 1;
            }
            if i + 1 >= len || (b[i + 1] == 0x20 || b[i + 1] == 0x09 || b[i + 1] == 0x0A || b[i
                + 1] == 0x0C || b[i + 1] == 0x0D) {
                let end = i + 1;
                push_sentence(&mut out, b, start, end);
                i = i + 1;
                let ghost j1 = i as int;
                proof {
                    lemma_skip_ws(b@, j1);
                }
                while i < len && (b[i] == 0x20 || b[i] == 0x09 || b[i] == 0x0A || b[i] == 0x0C
                    || b[i] == 0x0D)
                    invariant
                        len == b@.len(),
                        j1 <= i <= len,
                        skip_ascii_ws(b@, j1) == skip_ascii_ws(b@, i as int),
                    decreases len - i,
                {
                    i = i + 1;
                }
                start = i;
                continue;
            }
        }
        i = i + 1;
    }
    push_sentence(&mut out, b, start, len);
    out
}


proof fn lemma_no_terminator_scan(b: Seq<u8>, i: int)
    requires
        0 <= i <= b.len(),
        forall|k: int| 0 <= k < b.len() ==> !is_terminator(#[trigger] b[k]),
    ensures
        split_from(b, 0, i) == emit(b, 0, b.len() as int),
    decreases b.len() - i,
{
    if i < b.len() {
        lemma_no_terminator_scan(b, i + 1);
    }
}

/// Text without `.`, `!` or `?` that is not blank is one sentence: the whole
/// text trimmed, at the offset just past its leading whitespace.
pub proof fn lemma_single_sentence(b: Seq<u8>)
    requires
        forall|k: int| 0 <= k < b.len() ==> !is_terminator(#[trigger] b[k]),
        trim_span(b, 0, b.len() as int).1 > 0,
    ensures
        sentences_of(b) == seq![trim_span(b, 0, b.len() as int)],
        sentences_of(b)[0].0 == crate::text::lead_ws(b, 0, b.len() as int),
{
    lemma_no_terminator_scan(b, 0);
}

} // verus!
