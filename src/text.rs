use vstd::prelude::*;
use vstd::string::StringSliceAdditionalSpecFns;
use vstd::utf8::{decode_utf8, valid_utf8};

verus! {

/// `u8::is_ascii_whitespace`: space, tab, line feed, form feed, carriage return.
pub open spec fn is_ascii_ws(c: u8) -> bool {
    c == 0x20 || c == 0x09 || c == 0x0A || c == 0x0C || c == 0x0D
}

/// The one-byte characters that `char::is_whitespace` accepts.
pub open spec fn is_ws_byte(c: u8) -> bool {
    is_ascii_ws(c) || c == 0x0B
}

/// Length in bytes of the UTF-8 whitespace character (in the sense of
/// `char::is_whitespace`) that starts at `i`, or 0 where none starts there.
/// Multi-byte ones: U+0085, U+00A0, U+1680, U+2000..=U+200A, U+2028, U+2029,
/// U+202F, U+205F, U+3000.
pub open spec fn ws_len_at(b: Seq<u8>, i: int) -> int {
    if i < 0 || i >= b.len() {
        0
    } else if is_ws_byte(b[i]) {
        1
    } else if i + 2 <= b.len() && b[i] == 0xC2 && (b[i + 1] == 0x85 || b[i + 1] == 0xA0) {
        2
    } else if i + 3 <= b.len() && ((b[i] == 0xE1 && b[i + 1] == 0x9A && b[i + 2] == 0x80) || (
    b[i] == 0xE2 && b[i + 1] == 0x80 && ((0x80 <= b[i + 2] <= 0x8A) || b[i + 2] == 0xA8
        || b[i + 2] == 0xA9 || b[i + 2] == 0xAF)) || (b[i] == 0xE2 && b[i + 1] == 0x81 && b[i
        + 2] == 0x9F) || (b[i] == 0xE3 && b[i + 1] == 0x80 && b[i + 2] == 0x80)) {
        3
    } else {
        0
    }
}

/// Length in bytes of the whitespace character that ends at `j`, or 0.
pub open spec fn ws_len_before(b: Seq<u8>, j: int) -> int {
    if j >= 1 && j <= b.len() && is_ws_byte(b[j - 1]) {
        1
    } else if j >= 2 && j <= b.len() && ws_len_at(b, j - 2) == 2 {
        2
    } else if j >= 3 && j <= b.len() && ws_len_at(b, j - 3) == 3 {
        3
    } else {
        0
    }
}

/// Bytes of whitespace at the start of `b[s..e]`, as `str::trim_start` removes them.
pub open spec fn lead_ws(b: Seq<u8>, s: int, e: int) -> int
    decreases e - s,
{
    if s < e && ws_len_at(b, s) > 0 && s + ws_len_at(b, s) <= e {
        ws_len_at(b, s) + lead_ws(b, s + ws_len_at(b, s), e)
    } else {
        0
    }
}

/// Bytes of whitespace at the end of `b[s..e]`, as `str::trim_end` removes them.
pub open spec fn trail_ws(b: Seq<u8>, s: int, e: int) -> int
    decreases e - s,
{
    if s < e && ws_len_before(b, e) > 0 && e - ws_len_before(b, e) >= s {
        ws_len_before(b, e) + trail_ws(b, s, e - ws_len_before(b, e))
    } else {
        0
    }
}

/// The span `(start, len)` of `b[s..e]` with surrounding whitespace trimmed.
pub open spec fn trim_span(b: Seq<u8>, s: int, e: int) -> (int, int) {
    let ls = s + lead_ws(b, s, e);
    (ls, e - trail_ws(b, ls, e) - ls)
}

/// Exec form of [`ws_len_at`].
pub fn ws_len_at_exec(b: &[u8], i: usize) -> (r: usize)
    ensures
        r == ws_len_at(b@, i as int),
{
    let n = b.len();
    if i >= n {
        0
    } else if b[i] == 0x20 || b[i] == 0x09 || b[i] == 0x0A || b[i] == 0x0C || b[i] == 0x0D || b[i]
        == 0x0B {
        1
    } else if 2 <= n - i && b[i] == 0xC2 && (b[i + 1] == 0x85 || b[i + 1] == 0xA0) {
        2
    } else if 3 <= n - i && ((b[i] == 0xE1 && b[i + 1] == 0x9A && b[i + 2] == 0x80) || (b[i]
        == 0xE2 && b[i + 1] == 0x80 && ((0x80 <= b[i + 2] && b[i + 2] <= 0x8A) || b[i + 2] == 0xA8
        || b[i + 2] == 0xA9 || b[i + 2] == 0xAF)) || (b[i] == 0xE2 && b[i + 1] == 0x81 && b[i + 2]
        == 0x9F) || (b[i] == 0xE3 && b[i + 1] == 0x80 && b[i + 2] == 0x80)) {
        3
    } else {
        0
    }
}

fn ws_len_before_exec(b: &[u8], j: usize) -> (r: usize)
    ensures
        r == ws_len_before(b@, j as int),
{
    let n = b.len();
    if j >= 1 && j <= n && (b[j - 1] == 0x20 || b[j - 1] == 0x09 || b[j - 1] == 0x0A || b[j - 1]
        == 0x0C || b[j - 1] == 0x0D || b[j - 1] == 0x0B) {
        1
    } else if j >= 2 && j <= n && ws_len_at_exec(b, j - 2) == 2 {
        2
    } else if j >= 3 && j <= n && ws_len_at_exec(b, j - 3) == 3 {
        3
    } else {
        0
    }
}

/// The span `(start, len)` of `b[s..e]` without its surrounding whitespace.
pub fn trim_span_exec(b: &[u8], s: usize, e: usize) -> (r: (usize, usize))
    requires
        s <= e <= b@.len(),
    ensures
        (r.0 as int, r.1 as int) == trim_span(b@, s as int, e as int),
        s <= r.0 <= r.0 + r.1 <= e,
{
    let mut ls = s;
    while ls < e && ws_len_at_exec(b, ls) > 0 && ws_len_at_exec(b, ls) <= e - ls
        invariant
            s <= ls <= e <= b@.len(),
            lead_ws(b@, s as int, e as int) == (ls - s) + lead_ws(b@, ls as int, e as int),
        decreases e - ls,
    {
        ls = ls + ws_len_at_exec(b, ls);
    }
    let mut te = e;
    while te > ls && ws_len_before_exec(b, te) > 0 && ws_len_before_exec(b, te) <= te - ls
        invariant
            s <= ls <= te <= e <= b@.len(),
            lead_ws(b@, s as int, e as int) == ls - s,
            trail_ws(b@, ls as int, e as int) == (e - te) + trail_ws(b@, ls as int, te as int),
        decreases te - ls,
    {
        te = te - ws_len_before_exec(b, te);
    }
    (ls, te - ls)
}


/// First index in `s..e` that holds `c`, or `e`.
pub open spec fn find_byte(b: Seq<u8>, s: int, e: int, c: u8) -> int
    decreases e - s,
{
    if s >= e {
        e
    } else if b[s] == c {
        s
    } else {
        find_byte(b, s + 1, e, c)
    }
}

proof fn lemma_find_byte(b: Seq<u8>, s: int, e: int, c: u8)
    requires
        s <= e,
    ensures
        s <= find_byte(b, s, e, c) <= e,
    decreases e - s,
{
    if s < e && b[s] != c {
        lemma_find_byte(b, s + 1, e, c);
    }
}

/// The lines of `b` from `s` on, as `str::lines` gives them: split at `\n`, a
/// `\r` just before the `\n` dropped, no empty line after a final `\n`.
pub open spec fn lines_from(b: Seq<u8>, s: int) -> Seq<(int, int)>
    decreases b.len() + 1 - s
    via lines_from_decreases
{
    if s < 0 || s >= b.len() {
        Seq::empty()
    } else {
        let e = find_byte(b, s, b.len() as int, 0x0A);
        let line_end = if e < b.len() && e > s && b[e - 1] == 0x0D {
            e - 1
        } else {
            e
        };
        seq![(s, line_end)] + lines_from(b, e + 1)
    }
}

#[via_fn]
proof fn lines_from_decreases(b: Seq<u8>, s: int) {
    if 0 <= s < b.len() {
        lemma_find_byte(b, s, b.len() as int, 0x0A);
    }
}

/// The lines of `b` as `(start, end)` spans.
pub open spec fn line_spans(b: Seq<u8>) -> Seq<(int, int)> {
    lines_from(b, 0)
}

/// The fields of `b[s..e]` split at `sep`, as `str::split` gives them.
pub open spec fn fields_from(b: Seq<u8>, s: int, e: int, sep: u8) -> Seq<(int, int)>
    decreases e - s
    via fields_from_decreases
{
    if s > e {
        Seq::empty()
    } else if find_byte(b, s, e, sep) >= e {
        seq![(s, e)]
    } else {
        seq![(s, find_byte(b, s, e, sep))] + fields_from(b, find_byte(b, s, e, sep) + 1, e, sep)
    }
}

#[via_fn]
proof fn fields_from_decreases(b: Seq<u8>, s: int, e: int, sep: u8) {
    if s <= e {
        lemma_find_byte(b, s, e, sep);
    }
}

pub open spec fn pair_view(v: Seq<(usize, usize)>) -> Seq<(int, int)> {
    v.map_values(|p: (usize, usize)| (p.0 as int, p.1 as int))
}

fn find_byte_exec(b: &[u8], s: usize, e: usize, c: u8) -> (r: usize)
    requires
        s <= e <= b@.len(),
    ensures
        r == find_byte(b@, s as int, e as int, c),
        s <= r <= e,
{
    let mut i = s;
    while i < e && b[i] != c
        invariant
            s <= i <= e <= b@.len(),
            find_byte(b@, s as int, e as int, c) == find_byte(b@, i as int, e as int, c),
        decreases e - i,
    {
        i = i + 1;
    }
    i
}

/// The lines of `b` as `(start, end)` spans.
pub fn line_spans_exec(b: &[u8]) -> (r: Vec<(usize, usize)>)
    ensures
        pair_view(r@) == line_spans(b@),
        forall|k: int| 0 <= k < r@.len() ==> #[trigger] r@[k].0 <= r@[k].1 <= b@.len(),
{
    let len = b.len();
    let mut out: Vec<(usize, usize)> = Vec::new();
    let mut s: usize = 0;
    while s < len
        invariant
            len == b@.len(),
            s <= len,
            line_spans(b@) == pair_view(out@) + lines_from(b@, s as int),
            forall|k: int| 0 <= k < out@.len() ==> #[trigger] out@[k].0 <= out@[k].1 <= len,
        decreases len - s,
    {
        let e = find_byte_exec(b, s, len, 0x0A);
        let line_end = if e < len && e > s && b[e - 1] == 0x0D {
            e - 1
        } else {
            e
        };
        let ghost before = out@;
        out.push((s, line_end));
        assert(pair_view(out@) =~= pair_view(before) + seq![(s as int, line_end as int)]);
        assert(line_spans(b@) == pair_view(out@) + lines_from(b@, e + 1)) by {
            assert(pair_view(out@) + lines_from(b@, e + 1) =~= pair_view(before) + (seq![(s as int, line_end as int)] + lines_from(b@, e + 1)));
        }
        if e >= len {
            s = len;
        } else {
            s = e + 1;
        }
    }
    assert(pair_view(out@) + lines_from(b@, s as int) =~= pair_view(out@));
    out
}

/// The fields of `b[s..e]` split at `sep`.
pub fn field_spans_exec(b: &[u8], s: usize, e: usize, sep: u8) -> (r: Vec<(usize, usize)>)
    requires
        s <= e <= b@.len(),
    ensures
        pair_view(r@) == fields_from(b@, s as int, e as int, sep),
        forall|k: int| 0 <= k < r@.len() ==> s <= #[trigger] r@[k].0 <= r@[k].1 <= e,
{
    let mut out: Vec<(usize, usize)> = Vec::new();
    let mut p: usize = s;
    loop
        invariant
            s <= p <= e <= b@.len(),
            fields_from(b@, s as int, e as int, sep) == pair_view(out@) + fields_from(b@, p as int, e as int, sep),
            forall|k: int| 0 <= k < out@.len() ==> s <= #[trigger] out@[k].0 <= out@[k].1 <= e,
        decreases e - p,
    {
        let f = find_byte_exec(b, p, e, sep);
        let ghost before = out@;
        if f >= e {
            out.push((p, e));
            assert(pair_view(out@) =~= pair_view(before) + seq![(p as int, e as int)]);
            return out;
        }
        out.push((p, f));
        assert(pair_view(out@) =~= pair_view(before) + seq![(p as int, f as int)]);
        assert(fields_from(b@, s as int, e as int, sep) == pair_view(out@) + fields_from(b@, f + 1, e as int, sep)) by {
            assert(pair_view(out@) + fields_from(b@, f + 1, e as int, sep) =~= pair_view(before) + (seq![(p as int, f as int)] + fields_from(b@, f + 1, e as int, sep)));
        }
        p = f + 1;
    }
}

/// Relies on `String::from_utf8`: valid UTF-8 becomes the text it encodes;
/// other bytes are refused.
#[verifier::external_body]
pub(crate) fn utf8_string(bytes: Vec<u8>) -> (r: Option<String>)
    ensures
        r is Some <==> valid_utf8(bytes@),
        r matches Some(s) ==> s@ == decode_utf8(bytes@),
{
    String::from_utf8(bytes).ok()
}

/// Whether two texts are equal, compared byte by byte.
pub(crate) fn same_text(a: &str, b: &str) -> (r: bool)
    ensures
        r == (a@ == b@),
{
    let x = a.as_bytes();
    let y = b.as_bytes();
    proof {
        vstd::utf8::encode_utf8_decode_utf8(a@);
        vstd::utf8::encode_utf8_decode_utf8(b@);
    }
    if x.len() != y.len() {
        return false;
    }
    let mut i: usize = 0;
    while i < x.len()
        invariant
            x@ == a.spec_bytes(),
            y@ == b.spec_bytes(),
            x@.len() == y@.len(),
            i <= x@.len(),
            x@.subrange(0, i as int) == y@.subrange(0, i as int),
        decreases x@.len() - i,
    {
        if x[i] != y[i] {
            return false;
        }
        i = i + 1;
        assert(x@.subrange(0, i as int) =~= y@.subrange(0, i as int));
    }
    assert(x@ =~= x@.subrange(0, i as int));
    assert(y@ =~= y@.subrange(0, i as int));
    true
}

} // verus!
