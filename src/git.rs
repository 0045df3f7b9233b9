use vstd::prelude::*;
use vstd::string::StringSliceAdditionalSpecFns;
use vstd::utf8::{decode_utf8, valid_utf8};
use crate::num::{parse_uint, parse_uint_exec};
use crate::text::{
    fields_from, field_spans_exec, find_byte, line_spans, line_spans_exec, pair_view, utf8_string,
};

verus! {

/// How a line of a file changed against the index or `HEAD`.
#[derive(Clone, Copy, Debug, PartialEq, Eq, Structural)]
pub enum ChangeKind {
    Added,
    Modified,
    Deleted,
}

/// One changed line.
#[derive(Clone, Copy, Debug, PartialEq, Eq, Structural)]
pub struct LineChange {
    pub line: u32,
    pub kind: ChangeKind,
}

/// The status of a file in `git status --porcelain`.
#[derive(Clone, Copy, Debug, PartialEq, Eq, Structural)]
pub enum FileStatus {
    Untracked,
    Renamed,
    Added,
    Deleted,
    Modified,
}

/// One file of `git status --porcelain`.
pub struct GitStatusEntry {
    pub path: String,
    pub status: FileStatus,
}

/// Whether `b[i..i + p.len()]` is `p`, within `..e`.
pub open spec fn has_at(b: Seq<u8>, i: int, e: int, p: Seq<u8>) -> bool {
    0 <= i && i + p.len() <= e && b.subrange(i, i + p.len()) == p
}

/// First index in `s..e` where `p` starts, or `e`.
pub open spec fn find_seq(b: Seq<u8>, s: int, e: int, p: Seq<u8>) -> int
    decreases e - s,
{
    if s >= e {
        e
    } else if has_at(b, s, e, p) {
        s
    } else {
        find_seq(b, s + 1, e, p)
    }
}

pub open spec fn arrow() -> Seq<u8> {
    seq![0x20u8, 0x2Du8, 0x3Eu8, 0x20u8]
}

/// The status that the two status letters `x`, `y` give, if any.
pub open spec fn status_of(x: u8, y: u8) -> Option<FileStatus> {
    if x == 0x3F && y == 0x3F {
        Some(FileStatus::Untracked)
    } else if x == 0x52 || y == 0x52 {
        Some(FileStatus::Renamed)
    } else if x == 0x41 || y == 0x41 {
        Some(FileStatus::Added)
    } else if x == 0x44 || y == 0x44 {
        Some(FileStatus::Deleted)
    } else if x == 0x4D || y == 0x4D || x == 0x55 {
        Some(FileStatus::Modified)
    } else {
        None
    }
}

/// The span of the path in a status line `XY path` (or `XY old -> new`).
pub open spec fn path_span(b: Seq<u8>, line: (int, int)) -> (int, int) {
    let a = find_seq(b, line.0 + 3, line.1, arrow());
    if a < line.1 {
        (a + 4, line.1)
    } else {
        (line.0 + 3, line.1)
    }
}

/// The entry of one status line: lines shorter than four bytes, with
/// unknown status letters, or whose path is no UTF-8 text are skipped.
pub open spec fn status_entry(b: Seq<u8>, line: (int, int)) -> Option<(Seq<char>, FileStatus)> {
    let sp = path_span(b, line);
    if line.1 - line.0 < 4 {
        None
    } else {
        match status_of(b[line.0], b[line.0 + 1]) {
            Some(st) => if valid_utf8(b.subrange(sp.0, sp.1)) {
                Some((decode_utf8(b.subrange(sp.0, sp.1)), st))
            } else {
                None
            },
            None => None,
        }
    }
}

/// The entries of the first `k` lines.
pub open spec fn status_entries(b: Seq<u8>, lines: Seq<(int, int)>, k: int) -> Seq<(Seq<char>, FileStatus)>
    decreases k,
{
    if k <= 0 {
        Seq::empty()
    } else {
        status_entries(b, lines, k - 1) + match status_entry(b, lines[k - 1]) {
            Some(e) => seq![e],
            None => Seq::empty(),
        }
    }
}

pub open spec fn entries_view(v: Seq<GitStatusEntry>) -> Seq<(Seq<char>, FileStatus)> {
    v.map_values(|e: GitStatusEntry| (e.path@, e.status))
}

fn has_at_exec(b: &[u8], i: usize, e: usize, c0: u8, c1: u8, c2: u8, c3: u8) -> (r: bool)
    requires
        e <= b@.len(),
    ensures
        r == has_at(b@, i as int, e as int, seq![c0, c1, c2, c3]),
{
    if i > e || e - i < 4 {
        return false;
    }
    let r = b[i] == c0 && b[i + 1] == c1 && b[i + 2] == c2 && b[i + 3] == c3;
    proof {
        let s = b@.subrange(i as int, i + 4);
        if r {
            assert(s =~= seq![c0, c1, c2, c3]);
        } else {
            assert(s[0] == b@[i as int] && s[1] == b@[i + 1] && s[2] == b@[i + 2] && s[3] == b@[i + 3]);
            assert(s != seq![c0, c1, c2, c3]);
        }
    }
    r
}

fn find_arrow(b: &[u8], s: usize, e: usize) -> (r: usize)
    requires
        s <= e <= b@.len(),
    ensures
        r == find_seq(b@, s as int, e as int, arrow()),
        s <= r <= e,
        r < e ==> r + 4 <= e,
{
    let mut i = s;
    let ghost a = arrow();
    assert(a =~= seq![0x20u8, 0x2Du8, 0x3Eu8, 0x20u8]);
    while i < e && !has_at_exec(b, i, e, 0x20, 0x2D, 0x3E, 0x20)
        invariant
            a == arrow(),
            s <= i <= e <= b@.len(),
            find_seq(b@, s as int, e as int, arrow()) == find_seq(b@, i as int, e as int, arrow()),
        decreases e - i,
    {
        i = i + 1;
    }
    i
}

/// Parses `git status --porcelain` output into one entry per changed file;
/// for a rename the entry names the new path.
pub fn parse_porcelain(output: &str) -> (r: Vec<GitStatusEntry>)
    ensures
        entries_view(r@) == status_entries(output.spec_bytes(), line_spans(output.spec_bytes()), line_spans(output.spec_bytes()).len() as int),
{
    let b = output.as_bytes();
    let lines = line_spans_exec(b);
    let mut out: Vec<GitStatusEntry> = Vec::new();
    let mut k: usize = 0;
    while k < lines.len()
        invariant
            b@ == output.spec_bytes(),
            pair_view(lines@) == line_spans(b@),
            forall|j: int| 0 <= j < lines@.len() ==> #[trigger] lines@[j].0 <= lines@[j].1 <= b@.len(),
            k <= lines@.len(),
            entries_view(out@) == status_entries(b@, pair_view(lines@), k as int),
        decreases lines@.len() - k,
    {
        let (s, e) = lines[k];
        let ghost line = pair_view(lines@)[k as int];
        assert(line == (s as int, e as int));
        let ghost before = out@;
        if e - s >= 4 {
            let st = status_letters(b[s], b[s + 1]);
            if let Some(status) = st {
                let a = find_arrow(b, s + 3, e);
                let ps = if a < e {
                    a + 4
                } else {
                    s + 3
                };
                let bytes = vstd::slice::slice_to_vec(&b[ps..e]);
                if let Some(path) = utf8_string(bytes) {
                    out.push(GitStatusEntry { path, status });
                    assert(entries_view(out@) =~= entries_view(before).push((path@, status)));
                }
            }
        }
        k = k + 1;
        assert(entries_view(out@) =~= status_entries(b@, pair_view(lines@), k as int));
    }
    out
}

fn status_letters(x: u8, y: u8) -> (r: Option<FileStatus>)
    ensures
        r == status_of(x, y),
{
    if x == 0x3F && y == 0x3F {
        Some(FileStatus::Untracked)
    } else if x == 0x52 || y == 0x52 {
        Some(FileStatus::Renamed)
    } else if x == 0x41 || y == 0x41 {
        Some(FileStatus::Added)
    } else if x == 0x44 || y == 0x44 {
        Some(FileStatus::Deleted)
    } else if x == 0x4D || y == 0x4D || x == 0x55 {
        Some(FileStatus::Modified)
    } else {
        None
    }
}


/// The ranges of a hunk header that the line changes are read from.
#[derive(Clone, Copy, Debug, PartialEq, Eq, Structural)]
pub struct HunkRange {
    pub old_count: u32,
    pub new_start: u32,
    pub new_count: u32,
}

pub open spec fn hunk_close() -> Seq<u8> {
    seq![0x20u8, 0x40u8, 0x40u8]
}

/// `start,count` or `start` (count 1): the count, as `-start,count` gives it.
pub open spec fn range_count(b: Seq<u8>, s: int, e: int) -> Option<int> {
    let c = find_byte(b, s, e, 0x2C);
    if c < e {
        parse_uint(b, c + 1, e, u32::MAX as int)
    } else {
        Some(1)
    }
}

/// `start,count` or `start` (count 1): start and count.
pub open spec fn range_start_count(b: Seq<u8>, s: int, e: int) -> Option<(int, int)> {
    let c = find_byte(b, s, e, 0x2C);
    if c < e {
        match (parse_uint(b, s, c, u32::MAX as int), parse_uint(b, c + 1, e, u32::MAX as int)) {
            (Some(x), Some(y)) => Some((x, y)),
            _ => None,
        }
    } else {
        match parse_uint(b, s, e, u32::MAX as int) {
            Some(x) => Some((x, 1)),
            None => None,
        }
    }
}

/// The hunk of a line `@@ -a[,b] +c[,d] @@...`, if it is one.
pub open spec fn hunk_of(b: Seq<u8>, line: (int, int)) -> Option<HunkRange> {
    let s = line.0 + 3;
    let end = find_seq(b, s, line.1, hunk_close());
    let f = fields_from(b, s, end, 0x20);
    if !(line.1 - line.0 >= 3 && b[line.0] == 0x40 && b[line.0 + 1] == 0x40 && b[line.0 + 2] == 0x20)
        || end >= line.1 || f.len() < 2 || f[0].1 <= f[0].0 || b[f[0].0] != 0x2D || f[1].1
        <= f[1].0 || b[f[1].0] != 0x2B {
        None
    } else {
        match (range_count(b, f[0].0 + 1, f[0].1), range_start_count(b, f[1].0 + 1, f[1].1)) {
            (Some(oc), Some((ns, nc))) => Some(
                HunkRange { old_count: oc as u32, new_start: ns as u32, new_count: nc as u32 },
            ),
            _ => None,
        }
    }
}

fn find_hunk_close(b: &[u8], s: usize, e: usize) -> (r: usize)
    requires
        s <= e <= b@.len(),
    ensures
        r == find_seq(b@, s as int, e as int, hunk_close()),
        s <= r <= e,
{
    let mut i = s;
    while i < e && !(e - i >= 3 && b[i] == 0x20 && b[i + 1] == 0x40 && b[i + 2] == 0x40)
        invariant
            s <= i <= e <= b@.len(),
            find_seq(b@, s as int, e as int, hunk_close()) == find_seq(b@, i as int, e as int, hunk_close()),
        decreases e - i,
    {
        assert(!has_at(b@, i as int, e as int, hunk_close())) by {
            if e - i >= 3 {
                let t = b@.subrange(i as int, i + 3);
                assert(t[0] == b@[i as int] && t[1] == b@[i + 1] && t[2] == b@[i + 2]);
            }
        }
        i = i + 1;
    }
    if i < e {
        assert(b@.subrange(i as int, i + 3) =~= hunk_close());
    }
    i
}

fn find_comma(b: &[u8], s: usize, e: usize) -> (r: usize)
    requires
        s <= e <= b@.len(),
    ensures
        r == find_byte(b@, s as int, e as int, 0x2C),
        s <= r <= e,
{
    let mut i = s;
    while i < e && b[i] != 0x2C
        invariant
            s <= i <= e <= b@.len(),
            find_byte(b@, s as int, e as int, 0x2C) == find_byte(b@, i as int, e as int, 0x2C),
        decreases e - i,
    {
        i = i + 1;
    }
    i
}

/// Parses the line `b[s..e]` as a hunk header `@@ -a[,b] +c[,d] @@`.
pub fn parse_hunk_header(b: &[u8], s: usize, e: usize) -> (r: Option<HunkRange>)
    requires
        s <= e <= b@.len(),
    ensures
        r == hunk_of(b@, (s as int, e as int)),
{
    if !(e - s >= 3 && b[s] == 0x40 && b[s + 1] == 0x40 && b[s + 2] == 0x20) {
        return None;
    }
    let end = find_hunk_close(b, s + 3, e);
    if end >= e {
        return None;
    }
    let f = field_spans_exec(b, s + 3, end, 0x20);
    if f.len() < 2 {
        return None;
    }
    let (o0, o1) = f[0];
    let (n0, n1) = f[1];
    if o1 <= o0 || b[o0] != 0x2D || n1 <= n0 || b[n0] != 0x2B {
        return None;
    }
    let oc = find_comma(b, o0 + 1, o1);
    let old_count = if oc < o1 {
        match parse_uint_exec(b, oc + 1, o1, u32::MAX as u64) {
            Some(v) => v as u32,
            None => {
                return None;
            },
        }
    } else {
        1u32
    };
    let nc = find_comma(b, n0 + 1, n1);
    let (new_start, new_count) = if nc < n1 {
        match (parse_uint_exec(b, n0 + 1, nc, u32::MAX as u64), parse_uint_exec(b, nc + 1, n1, u32::MAX as u64)) {
            (Some(x), Some(y)) => (x as u32, y as u32),
            _ => {
                return None;
            },
        }
    } else {
        match parse_uint_exec(b, n0 + 1, n1, u32::MAX as u64) {
            Some(x) => (x as u32, 1u32),
            None => {
                return None;
            },
        }
    };
    Some(HunkRange { old_count, new_start, new_count })
}

/// The kind of change of a hunk: no old lines is an addition, no new lines a deletion.
pub open spec fn hunk_kind(h: HunkRange) -> ChangeKind {
    if h.old_count == 0 {
        ChangeKind::Added
    } else if h.new_count == 0 {
        ChangeKind::Deleted
    } else {
        ChangeKind::Modified
    }
}

/// The changed lines of a hunk: a deletion marks the line it happened at;
/// otherwise each new line, up to the largest line number.
pub open spec fn hunk_changes(h: HunkRange) -> Seq<LineChange> {
    if hunk_kind(h) == ChangeKind::Deleted {
        seq![LineChange { line: h.new_start, kind: ChangeKind::Deleted }]
    } else {
        let room = u32::MAX - h.new_start + 1;
        Seq::new(
            (if h.new_count < room { h.new_count as int } else { room }) as nat,
            |i: int| LineChange { line: (h.new_start + i) as u32, kind: hunk_kind(h) },
        )
    }
}

/// The changes of the first `k` lines of a diff.
pub open spec fn diff_changes(b: Seq<u8>, lines: Seq<(int, int)>, k: int) -> Seq<LineChange>
    decreases k,
{
    if k <= 0 {
        Seq::empty()
    } else {
        diff_changes(b, lines, k - 1) + match hunk_of(b, lines[k - 1]) {
            Some(h) => hunk_changes(h),
            None => Seq::empty(),
        }
    }
}

/// Parses `git diff --unified=0` output into the changed lines of the new file.
pub fn parse_unified_diff(diff: &str) -> (r: Vec<LineChange>)
    ensures
        r@ == diff_changes(diff.spec_bytes(), line_spans(diff.spec_bytes()), line_spans(diff.spec_bytes()).len() as int),
{
    let b = diff.as_bytes();
    let lines = line_spans_exec(b);
    let mut out: Vec<LineChange> = Vec::new();
    let mut k: usize = 0;
    while k < lines.len()
        invariant
            b@ == diff.spec_bytes(),
            pair_view(lines@) == line_spans(b@),
            forall|j: int| 0 <= j < lines@.len() ==> #[trigger] lines@[j].0 <= lines@[j].1 <= b@.len(),
            k <= lines@.len(),
            out@ == diff_changes(b@, pair_view(lines@), k as int),
        decreases lines@.len() - k,
    {
        let (s, e) = lines[k];
        let ghost line = pair_view(lines@)[k as int];
        assert(line == (s as int, e as int));
        let ghost before = out@;
        if let Some(h) = parse_hunk_header(b, s, e) {
            let ghost target = hunk_changes(h);
            if h.old_count != 0 && h.new_count == 0 {
                out.push(LineChange { line: h.new_start, kind: ChangeKind::Deleted });
                assert(out@ =~= before + target);
            } else {
                let kind = if h.old_count == 0 {
                    ChangeKind::Added
                } else {
                    ChangeKind::Modified
                };
                let mut i: u32 = 0;
                let room: u64 = (u32::MAX - h.new_start) as u64 + 1;
                while (i as u64) < room && i < h.new_count
                    invariant
                        room == u32::MAX - h.new_start + 1,
                        kind == hunk_kind(h),
                        hunk_kind(h) != ChangeKind::Deleted,
                        target == hunk_changes(h),
                        i <= h.new_count,
                        i <= room,
                        out@ == before + target.subrange(0, i as int),
                    decreases h.new_count - i,
                {
                    out.push(LineChange { line: h.new_start + i, kind });
                    i = i + 1;
                    assert(out@ =~= before + target.subrange(0, i as int));
                }
                assert(target.subrange(0, i as int) =~= target);
            }
        }
        k = k + 1;
        assert(out@ =~= diff_changes(b@, pair_view(lines@), k as int));
    }
    out
}

} // verus!
