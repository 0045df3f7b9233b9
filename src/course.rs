use vstd::prelude::*;
use vstd::string::StringSliceAdditionalSpecFns;
use crate::num::{hex_digits, push_hex, push_text};
use crate::text::same_text;
use vstd::string::StrSliceExecFns;
use crate::tts::cache::{sha256, sha256_of};

verus! {

/// An imported course as listed to the user.
pub struct CourseRecord {
    pub id: String,
    pub source_url: String,
    pub local_path: String,
    pub title: String,
    pub description: String,
    pub step_count: i64,
    pub added_at: i64,
    pub completed_steps: i64,
    pub tags: Vec<String>,
}

/// The outcome of importing a course.
pub enum ImportResult {
    Imported { course: CourseRecord },
    InvalidUrl,
    NotFound,
    NoManifest,
    BadManifest { reason: String },
    AlreadyExists,
    DownloadFailed { reason: String },
}

/// Where the user was last.
pub enum Route {
    Browser,
    Course { course_id: String, step_index: i64 },
    Editor { course_id: String },
}

/// A dependency of a course, with the install command for this platform.
pub struct CourseDependency {
    pub name: String,
    pub check: String,
    pub install: Option<String>,
}

/// A dependency as the manifest lists it: install commands keyed by
/// platform name, each key at most once.
pub struct ManifestDependency {
    pub name: String,
    pub check: String,
    pub install: Vec<(String, String)>,
}

/// Whether a step is a lesson or a lab.
#[derive(Clone, Copy, Debug, PartialEq, Eq, Structural)]
pub enum StepKind {
    Lesson,
    Lab,
}

/// One step of a course manifest.
pub struct ManifestStep {
    pub kind: StepKind,
    pub title: String,
    pub path: String,
}

/// A course manifest as the user sees it.
pub struct CourseManifest {
    pub title: String,
    pub description: String,
    pub tags: Vec<String>,
    pub steps: Vec<ManifestStep>,
    pub dependencies: Vec<CourseDependency>,
}

/// A course manifest as it is read.
pub struct Manifest {
    pub title: String,
    pub description: String,
    pub tags: Vec<String>,
    pub steps: Vec<ManifestStep>,
    pub dependencies: Vec<ManifestDependency>,
}

/// Where the user is within a slide deck.
pub struct SlidePosition {
    pub slide_index: i64,
    pub slide_count: Option<i64>,
}

/// How many courses a sync added and removed.
pub struct SyncResult {
    pub added: u32,
    pub removed: u32,
}

/// The install command under `os` among the first `k` entries, the first one found.
pub open spec fn install_for(install: Seq<(String, String)>, os: Seq<char>, k: int) -> Option<Seq<char>>
    decreases k,
{
    if k <= 0 {
        None
    } else if install[0].0@ == os {
        Some(install[0].1@)
    } else {
        install_for(install.drop_first(), os, k - 1)
    }
}

impl ManifestDependency {
    /// The dependency with the install command for platform `os`, if the
    /// manifest has one.
    pub fn into_public(self, os: &str) -> (r: CourseDependency)
        ensures
            r.name == self.name,
            r.check == self.check,
            match install_for(self.install@, os@, self.install@.len() as int) {
                Some(cmd) => r.install matches Some(c) && c@ == cmd,
                None => r.install is None,
            },
    {
        let mut k: usize = 0;
        assert(self.install@.subrange(0, self.install@.len() as int) =~= self.install@);
        while k < self.install.len()
            invariant
                k <= self.install@.len(),
                install_for(self.install@, os@, self.install@.len() as int) == install_for(
                    self.install@.subrange(k as int, self.install@.len() as int),
                    os@,
                    self.install@.len() - k,
                ),
            decreases self.install@.len() - k,
        {
            let ghost rest = self.install@.subrange(k as int, self.install@.len() as int);
            if same_text(self.install[k].0.as_str(), os) {
                let cmd = self.install[k].1.clone();
                return CourseDependency { name: self.name, check: self.check, install: Some(cmd) };
            }
            assert(rest.drop_first() =~= self.install@.subrange(k + 1, self.install@.len() as int));
            k = k + 1;
        }
        let found: Option<String> = None;
        CourseDependency { name: self.name, check: self.check, install: found }
    }
}

impl Manifest {
    /// The manifest as the user sees it, with each dependency's install
    /// command picked for platform `os`.
    pub fn into_public(self, os: &str) -> (r: CourseManifest)
        ensures
            r.title == self.title,
            r.description == self.description,
            r.tags == self.tags,
            r.steps == self.steps,
            r.dependencies@.len() == self.dependencies@.len(),
            forall|k: int|
                0 <= k < r.dependencies@.len() ==> (#[trigger] r.dependencies@[k]).name
                    == self.dependencies@[k].name && r.dependencies@[k].check
                    == self.dependencies@[k].check && match install_for(
                    self.dependencies@[k].install@,
                    os@,
                    self.dependencies@[k].install@.len() as int,
                ) {
                    Some(cmd) => r.dependencies@[k].install matches Some(c) && c@ == cmd,
                    None => r.dependencies@[k].install is None,
                },
    {
        let Manifest { title, description, tags, steps, dependencies } = self;
        let ghost deps = dependencies@;
        let mut dependencies = dependencies;
        let mut out: Vec<CourseDependency> = Vec::new();
        let mut rev: Vec<ManifestDependency> = Vec::new();
        while dependencies.len() > 0
            invariant
                rev@.len() + dependencies@.len() == deps.len(),
                forall|j: int| 0 <= j < dependencies@.len() ==> #[trigger] dependencies@[j] == deps[j],
                forall|j: int| 0 <= j < rev@.len() ==> #[trigger] rev@[j] == deps[deps.len() - 1 - j],
            decreases dependencies@.len(),
        {
            let d = dependencies.pop().unwrap();
            rev.push(d);
        }
        while rev.len() > 0
            invariant
                rev@.len() + out@.len() == deps.len(),
                forall|j: int| 0 <= j < rev@.len() ==> #[trigger] rev@[j] == deps[deps.len() - 1 - j],
                forall|k: int|
                    0 <= k < out@.len() ==> (#[trigger] out@[k]).name == deps[k].name
                        && out@[k].check == deps[k].check && match install_for(
                        deps[k].install@,
                        os@,
                        deps[k].install@.len() as int,
                    ) {
                        Some(cmd) => out@[k].install matches Some(c) && c@ == cmd,
                        None => out@[k].install is None,
                    },
            decreases rev@.len(),
        {
            let d = rev.pop().unwrap();
            out.push(d.into_public(os));
        }
        CourseManifest { title, description, tags, steps, dependencies: out }
    }
}

/// Where a course comes from.
pub enum CourseSource {
    GitHub { owner: String, repo: String, branch: String, path: String },
    Http { manifest_url: String, base_url: String },
}

/// The first eight bytes of `d` as sixteen lower-case hex digits.
pub open spec fn hex_prefix(d: Seq<u8>, k: int) -> Seq<char>
    decreases k,
{
    if k <= 0 {
        Seq::empty()
    } else {
        hex_prefix(d, k - 1) + hex_digits(d[k - 1] as nat, 2)
    }
}

/// The id of a source text: the first sixteen hex digits of its SHA-256 digest.
pub fn hash_id(input: &str) -> (r: String)
    ensures
        r@ == hex_prefix(sha256_of(input.spec_bytes()), 8),
{
    let d = sha256(input.as_bytes());
    let mut s = String::new();
    let mut k: usize = 0;
    while k < 8
        invariant
            d@ == sha256_of(input.spec_bytes()),
            d@.len() == 32,
            k <= 8,
            s@ == hex_prefix(d@, k as int),
        decreases 8 - k,
    {
        push_hex(&mut s, d[k] as u64, 2);
        k = k + 1;
    }
    s
}

/// The canonical URL text of a source.
pub open spec fn canonical_text(source: CourseSource) -> Seq<char> {
    match source {
        CourseSource::GitHub { owner, repo, path, .. } => if path@.len() == 0 {
            "https://github.com/"@ + owner@ + "/"@ + repo@
        } else {
            "https://github.com/"@ + owner@ + "/"@ + repo@ + "/"@ + path@
        },
        CourseSource::Http { manifest_url, .. } => manifest_url@,
    }
}

/// The URL a source is known by: its GitHub page, or its manifest URL.
pub fn canonical_source_url(source: &CourseSource) -> (r: String)
    ensures
        r@ == canonical_text(*source),
{
    match source {
        CourseSource::GitHub { owner, repo, path, .. } => {
            let mut s = String::new();
            push_text(&mut s, "https://github.com/");
            push_text(&mut s, owner.as_str());
            push_text(&mut s, "/");
            push_text(&mut s, repo.as_str());
            if path.as_str().is_empty() {
                return s;
            }
            push_text(&mut s, "/");
            push_text(&mut s, path.as_str());
            s
        },
        CourseSource::Http { manifest_url, .. } => manifest_url.clone(),
    }
}

/// The id of a source: the hash id of its canonical URL.
pub fn source_id(source: &CourseSource) -> (r: String)
    ensures
        r@ == hex_prefix(sha256_of(vstd::utf8::encode_utf8(canonical_text(*source))), 8),
{
    let url = canonical_source_url(source);
    hash_id(url.as_str())
}

/// The URL of a source's manifest.
pub open spec fn manifest_text(source: CourseSource) -> Seq<char> {
    match source {
        CourseSource::GitHub { owner, repo, branch, path } => if path@.len() == 0 {
            "https://raw.githubusercontent.com/"@ + owner@ + "/"@ + repo@ + "/"@ + branch@
                + "/handhold.yaml"@
        } else {
            "https://raw.githubusercontent.com/"@ + owner@ + "/"@ + repo@ + "/"@ + branch@ + "/"@
                + path@ + "/handhold.yaml"@
        },
        CourseSource::Http { manifest_url, .. } => manifest_url@,
    }
}

/// The URL of a source's `handhold.yaml` manifest.
pub fn manifest_url(source: &CourseSource) -> (r: String)
    ensures
        r@ == manifest_text(*source),
{
    match source {
        CourseSource::GitHub { owner, repo, branch, path } => {
            let mut s = String::new();
            push_text(&mut s, "https://raw.githubusercontent.com/");
            push_text(&mut s, owner.as_str());
            push_text(&mut s, "/");
            push_text(&mut s, repo.as_str());
            push_text(&mut s, "/");
            push_text(&mut s, branch.as_str());
            if !path.as_str().is_empty() {
                push_text(&mut s, "/");
                push_text(&mut s, path.as_str());
            }
            push_text(&mut s, "/handhold.yaml");
            s
        },
        CourseSource::Http { manifest_url, .. } => manifest_url.clone(),
    }
}


/// A course source, as text.
pub enum SourceView {
    GitHub { owner: Seq<char>, repo: Seq<char>, branch: Seq<char>, path: Seq<char> },
    Http { manifest_url: Seq<char>, base_url: Seq<char> },
}

pub open spec fn source_view(s: CourseSource) -> SourceView {
    match s {
        CourseSource::GitHub { owner, repo, branch, path } => SourceView::GitHub {
            owner: owner@,
            repo: repo@,
            branch: branch@,
            path: path@,
        },
        CourseSource::Http { manifest_url, base_url } => SourceView::Http {
            manifest_url: manifest_url@,
            base_url: base_url@,
        },
    }
}

pub open spec fn source_opt_view(s: Option<CourseSource>) -> Option<SourceView> {
    match s {
        Some(x) => Some(source_view(x)),
        None => None,
    }
}

/// Whether `s[..end]` ends with `suf`.
pub open spec fn ends_at(s: Seq<char>, end: int, suf: Seq<char>) -> bool {
    suf.len() <= end <= s.len() && s.subrange(end - suf.len(), end) == suf
}

/// `s` with `suf` removed from its end as often as it is there.
pub open spec fn strip_all(s: Seq<char>, suf: Seq<char>) -> Seq<char>
    decreases s.len(),
{
    if suf.len() > 0 && ends_at(s, s.len() as int, suf) {
        strip_all(s.subrange(0, s.len() - suf.len()), suf)
    } else {
        s
    }
}

/// The first `k` segments joined with `/`.
pub open spec fn joined(segs: Seq<Seq<char>>, k: int) -> Seq<char>
    decreases k,
{
    if k <= 0 {
        Seq::empty()
    } else if k == 1 {
        segs[0]
    } else {
        joined(segs, k - 1) + seq!['/'] + segs[k - 1]
    }
}

/// The course path below a repository: the segments joined, without a
/// final `handhold.yaml`.
pub open spec fn sub_path(rest: Seq<Seq<char>>) -> Seq<char> {
    if rest.len() > 0 && rest.last() == "handhold.yaml"@ {
        joined(rest, rest.len() - 1)
    } else {
        joined(rest, rest.len() as int)
    }
}

/// The source a URL names, from its text, host and non-empty path segments:
/// a raw GitHub file URL, a GitHub repository (or tree or blob) URL, or any
/// other URL of a `handhold.yaml` manifest.
pub open spec fn source_from_parts(url: Seq<char>, host: Seq<char>, segs: Seq<Seq<char>>) -> Option<SourceView> {
    if host == "raw.githubusercontent.com"@ {
        if segs.len() < 3 {
            None
        } else {
            Some(
                SourceView::GitHub {
                    owner: segs[0],
                    repo: segs[1],
                    branch: segs[2],
                    path: sub_path(segs.subrange(3, segs.len() as int)),
                },
            )
        }
    } else if host == "github.com"@ {
        let owner = strip_all(segs[0], ".git"@);
        let repo = strip_all(segs[1], ".git"@);
        if segs.len() < 2 || owner.len() == 0 || repo.len() == 0 {
            None
        } else if segs.len() >= 4 && (segs[2] == "blob"@ || segs[2] == "tree"@) {
            Some(
                SourceView::GitHub {
                    owner,
                    repo,
                    branch: segs[3],
                    path: sub_path(segs.subrange(4, segs.len() as int)),
                },
            )
        } else {
            Some(SourceView::GitHub { owner, repo, branch: "HEAD"@, path: Seq::empty() })
        }
    } else if ends_at(url, url.len() as int, "/handhold.yaml"@) {
        Some(SourceView::Http { manifest_url: url, base_url: strip_all(url, "handhold.yaml"@) })
    } else {
        None
    }
}

fn ends_at_exec(s: &str, end: usize, suf: &str) -> (r: bool)
    requires
        end <= s@.len(),
    ensures
        r == ends_at(s@, end as int, suf@),
{
    let n = suf.unicode_len();
    if n > end {
        return false;
    }
    let mut i: usize = 0;
    while i < n
        invariant
            n == suf@.len(),
            n <= end <= s@.len(),
            i <= n,
            forall|j: int| 0 <= j < i ==> s@[end - n + j] == #[trigger] suf@[j],
        decreases n - i,
    {
        if s.get_char(end - n + i) != suf.get_char(i) {
            assert(s@.subrange(end - n, end as int)[i as int] != suf@[i as int]);
            return false;
        }
        i = i + 1;
    }
    assert(s@.subrange(end - n, end as int) =~= suf@);
    true
}

/// The end of `s[..end]` once `suf` is stripped from it as often as it is there.
fn strip_all_end(s: &str, end: usize, suf: &str) -> (r: usize)
    requires
        end <= s@.len(),
    ensures
        r <= end,
        s@.subrange(0, r as int) == strip_all(s@.subrange(0, end as int), suf@),
{
    let n = suf.unicode_len();
    let mut e = end;
    while n > 0 && ends_at_exec(s, e, suf)
        invariant
            n == suf@.len(),
            e <= end <= s@.len(),
            strip_all(s@.subrange(0, end as int), suf@) == strip_all(s@.subrange(0, e as int), suf@),
        decreases e,
    {
        let ghost pre = s@.subrange(0, e as int);
        assert(pre.subrange(e - n, e as int) =~= s@.subrange(e - n, e as int));
        assert(pre.subrange(0, e - n) =~= s@.subrange(0, e - n));
        e = e - n;
    }
    let ghost pre = s@.subrange(0, e as int);
    if n > 0 {
        assert(!ends_at(pre, e as int, suf@)) by {
            if ends_at(pre, e as int, suf@) {
                assert(pre.subrange(e - n, e as int) =~= s@.subrange(e - n, e as int));
            }
        }
    }
    e
}

fn owned(s: &str, from: usize, to: usize) -> (r: String)
    requires
        from <= to <= s@.len(),
    ensures
        r@ == s@.subrange(from as int, to as int),
{
    s.substring_char(from, to).to_owned()
}

fn join_segments(segs: &Vec<String>, from: usize, to: usize) -> (r: String)
    requires
        from <= to <= segs@.len(),
    ensures
        r@ == joined(segs@.subrange(from as int, to as int).map_values(|x: String| x@), to - from),
{
    let ghost v = segs@.subrange(from as int, to as int).map_values(|x: String| x@);
    let mut s = String::new();
    let mut k = from;
    while k < to
        invariant
            from <= k <= to <= segs@.len(),
            v == segs@.subrange(from as int, to as int).map_values(|x: String| x@),
            s@ == joined(v, k - from),
        decreases to - k,
    {
        if k > from {
            push_char_slash(&mut s);
        }
        push_text(&mut s, segs[k].as_str());
        k = k + 1;
        assert(s@ =~= joined(v, k - from));
    }
    s
}

fn push_char_slash(s: &mut String)
    ensures
        final(s)@ == old(s)@ + seq!['/'],
{
    crate::num::push_char(s, '/');
}

fn sub_path_exec(segs: &Vec<String>, from: usize) -> (r: String)
    requires
        from <= segs@.len(),
    ensures
        r@ == sub_path(segs@.map_values(|x: String| x@).subrange(from as int, segs@.len() as int)),
{
    let n = segs.len();
    let ghost all = segs@.map_values(|x: String| x@);
    let ghost rest = all.subrange(from as int, n as int);
    if n > from && same_text(segs[n - 1].as_str(), "handhold.yaml") {
        let r = join_segments(segs, from, n - 1);
        assert(segs@.subrange(from as int, n - 1).map_values(|x: String| x@) =~= rest.subrange(0, rest.len() - 1));
        proof {
            lemma_joined_prefix(rest, rest.len() - 1);
        }
        r
    } else {
        let r = join_segments(segs, from, n);
        assert(segs@.subrange(from as int, n as int).map_values(|x: String| x@) =~= rest);
        r
    }
}

proof fn lemma_joined_prefix(v: Seq<Seq<char>>, k: int)
    requires
        0 <= k <= v.len(),
    ensures
        joined(v.subrange(0, k), k) == joined(v, k),
    decreases k,
{
    if k > 1 {
        lemma_joined_prefix(v, k - 1);
        assert(v.subrange(0, k).subrange(0, k - 1) =~= v.subrange(0, k - 1));
        lemma_joined_prefix_ext(v.subrange(0, k), v, k - 1);
    }
}

proof fn lemma_joined_prefix_ext(a: Seq<Seq<char>>, b: Seq<Seq<char>>, k: int)
    requires
        0 <= k <= a.len(),
        k <= b.len(),
        forall|j: int| 0 <= j < k ==> a[j] == b[j],
    ensures
        joined(a, k) == joined(b, k),
    decreases k,
{
    if k > 0 {
        lemma_joined_prefix_ext(a, b, k - 1);
    }
}

/// The source that a URL's text, host and non-empty path segments name.
pub fn source_from_url_parts(url: &str, host: &str, segments: &Vec<String>) -> (r: Option<CourseSource>)
    ensures
        source_opt_view(r) == source_from_parts(url@, host@, segments@.map_values(|x: String| x@)),
{
    let ghost segs = segments@.map_values(|x: String| x@);
    let n = segments.len();
    if same_text(host, "raw.githubusercontent.com") {
        if n < 3 {
            return None;
        }
        let path = sub_path_exec(segments, 3);
        assert(segs.subrange(3, n as int) =~= segments@.map_values(|x: String| x@).subrange(3, n as int));
        return Some(
            CourseSource::GitHub {
                owner: segments[0].clone(),
                repo: segments[1].clone(),
                branch: segments[2].clone(),
                path,
            },
        );
    }
    if same_text(host, "github.com") {
        if n < 2 {
            return None;
        }
        let s0 = segments[0].as_str();
        let s1 = segments[1].as_str();
        let oe = strip_all_end(s0, s0.unicode_len(), ".git");
        let re = strip_all_end(s1, s1.unicode_len(), ".git");
        assert(s0@.subrange(0, s0@.len() as int) =~= s0@);
        assert(s1@.subrange(0, s1@.len() as int) =~= s1@);
        if oe == 0 || re == 0 {
            return None;
        }
        let owner = owned(s0, 0, oe);
        let repo = owned(s1, 0, re);
        if n >= 4 && (same_text(segments[2].as_str(), "blob") || same_text(segments[2].as_str(), "tree")) {
            let path = sub_path_exec(segments, 4);
            return Some(CourseSource::GitHub { owner, repo, branch: segments[3].clone(), path });
        }
        return Some(CourseSource::GitHub { owner, repo, branch: "HEAD".to_owned(), path: String::new() });
    }
    let len = url.unicode_len();
    if ends_at_exec(url, len, "/handhold.yaml") {
        let be = strip_all_end(url, len, "handhold.yaml");
        assert(url@.subrange(0, len as int) =~= url@);
        return Some(CourseSource::Http { manifest_url: url.to_owned(), base_url: owned(url, 0, be) });
    }
    None
}


/// `char::is_whitespace`.
pub open spec fn is_ws_char(c: char) -> bool {
    c == '\t' || ('\n' <= c <= '\r') || c == ' ' || c == '\u{85}' || c == '\u{a0}' || c
        == '\u{1680}' || ('\u{2000}' <= c <= '\u{200a}') || c == '\u{2028}' || c == '\u{2029}' || c
        == '\u{202f}' || c == '\u{205f}' || c == '\u{3000}'
}

fn is_ws_char_exec(c: char) -> (r: bool)
    ensures
        r == is_ws_char(c),
{
    c == '\t' || ('\n' <= c && c <= '\r') || c == ' ' || c == '\u{85}' || c == '\u{a0}' || c
        == '\u{1680}' || ('\u{2000}' <= c && c <= '\u{200a}') || c == '\u{2028}' || c == '\u{2029}'
        || c == '\u{202f}' || c == '\u{205f}' || c == '\u{3000}'
}

/// Index of the first character of `s` from `i` on that is not whitespace.
pub open spec fn skip_ws_from(s: Seq<char>, i: int) -> int
    decreases s.len() - i,
{
    if 0 <= i < s.len() && is_ws_char(s[i]) {
        skip_ws_from(s, i + 1)
    } else {
        i
    }
}

/// End of `s[..e]` without its trailing whitespace, not below `a`.
pub open spec fn trim_end_to(s: Seq<char>, a: int, e: int) -> int
    decreases e - a,
{
    if a < e && is_ws_char(s[e - 1]) {
        trim_end_to(s, a, e - 1)
    } else {
        e
    }
}

/// The URL text a source is read from: trimmed, without trailing slashes.
pub open spec fn url_text(u: Seq<char>) -> Seq<char> {
    let a = skip_ws_from(u, 0);
    strip_all(u.subrange(a, trim_end_to(u, a, u.len() as int)), "/"@)
}

/// Index of the next `/` of `p` from `i` on, or the end.
pub open spec fn next_slash(p: Seq<char>, i: int) -> int
    decreases p.len() - i,
{
    if 0 <= i < p.len() && p[i] != '/' {
        next_slash(p, i + 1)
    } else {
        i
    }
}

proof fn lemma_next_slash(p: Seq<char>, i: int)
    requires
        0 <= i <= p.len(),
    ensures
        i <= next_slash(p, i) <= p.len(),
    decreases p.len() - i,
{
    if i < p.len() && p[i] != '/' {
        lemma_next_slash(p, i + 1);
    }
}

/// The non-empty `/`-separated segments of `p` from `i` on.
pub open spec fn segments_from(p: Seq<char>, i: int) -> Seq<Seq<char>>
    decreases p.len() + 1 - i
    via segments_from_decreases
{
    if i < 0 || i >= p.len() {
        Seq::empty()
    } else {
        let j = next_slash(p, i);
        (if j > i {
            seq![p.subrange(i, j)]
        } else {
            Seq::empty()
        }) + segments_from(p, j + 1)
    }
}

#[via_fn]
proof fn segments_from_decreases(p: Seq<char>, i: int) {
    if 0 <= i < p.len() {
        lemma_next_slash(p, i);
    }
}

/// The non-empty segments of a URL path, which `Url::path_segments` gives
/// only for a path that starts with `/`.
pub open spec fn path_segments(p: Seq<char>) -> Option<Seq<Seq<char>>> {
    if p.len() > 0 && p[0] == '/' {
        Some(segments_from(p, 1))
    } else {
        None
    }
}

/// The URL text a source is read from: trimmed, without trailing slashes.
pub fn trim_url(url: &str) -> (r: String)
    ensures
        r@ == url_text(url@),
{
    let n = url.unicode_len();
    let mut a: usize = 0;
    while a < n && is_ws_char_exec(url.get_char(a))
        invariant
            n == url@.len(),
            a <= n,
            skip_ws_from(url@, 0) == skip_ws_from(url@, a as int),
        decreases n - a,
    {
        a = a + 1;
    }
    let mut e: usize = n;
    while a < e && is_ws_char_exec(url.get_char(e - 1))
        invariant
            n == url@.len(),
            a <= e <= n,
            trim_end_to(url@, a as int, n as int) == trim_end_to(url@, a as int, e as int),
        decreases e - a,
    {
        e = e - 1;
    }
    let t = owned(url, a, e);
    let tl = t.as_str().unicode_len();
    let se = strip_all_end(t.as_str(), tl, "/");
    assert(t@.subrange(0, tl as int) =~= t@);
    owned(t.as_str(), 0, se)
}

/// The non-empty segments of a URL path; `None` for a path that does not start with `/`.
pub fn path_segments_of(path: &str) -> (r: Option<Vec<String>>)
    ensures
        match path_segments(path@) {
            Some(v) => r matches Some(x) && x@.map_values(|s: String| s@) == v,
            None => r is None,
        },
{
    let n = path.unicode_len();
    if n == 0 || path.get_char(0) != '/' {
        return None;
    }
    let mut out: Vec<String> = Vec::new();
    let mut i: usize = 1;
    while i < n
        invariant
            n == path@.len(),
            1 <= i <= n,
            segments_from(path@, 1) == out@.map_values(|s: String| s@) + segments_from(path@, i as int),
        decreases n - i,
    {
        let mut j = i;
        while j < n && path.get_char(j) != '/'
            invariant
                n == path@.len(),
                i <= j <= n,
                next_slash(path@, i as int) == next_slash(path@, j as int),
            decreases n - j,
        {
            j = j + 1;
        }
        let ghost before = out@.map_values(|s: String| s@);
        let ghost chunk: Seq<Seq<char>> = if j > i { seq![path@.subrange(i as int, j as int)] } else { Seq::empty() };
        assert(segments_from(path@, i as int) == chunk + segments_from(path@, j + 1));
        assert(segments_from(path@, n as int) =~= Seq::<Seq<char>>::empty());
        assert(segments_from(path@, n + 1) =~= Seq::<Seq<char>>::empty());
        assert(before + segments_from(path@, i as int) =~= (before + chunk) + segments_from(path@, j + 1));
        if j > i {
            out.push(owned(path, i, j));
        }
        assert(out@.map_values(|s: String| s@) =~= before + (if j > i { seq![path@.subrange(i as int, j as int)] } else { Seq::empty() }));
        if j >= n {
            i = n;
        } else {
            i = j + 1;
        }
    }
    assert(out@.map_values(|s: String| s@) + segments_from(path@, i as int) =~= out@.map_values(|s: String| s@));
    Some(out)
}

#[verifier::external_type_specification]
#[verifier::external_body]
pub struct ExUrl(reqwest::Url);

/// Relies on `reqwest::Url::parse`: the URL, where the text is an absolute URL.
#[verifier::external_body]
fn parse_url(text: &str) -> (r: Option<reqwest::Url>) {
    reqwest::Url::parse(text).ok()
}

/// Relies on `reqwest::Url::host_str`: the URL's host, if it has one.
#[verifier::external_body]
fn url_host(u: &reqwest::Url) -> (r: Option<String>) {
    u.host_str().map(|h| h.to_owned())
}

/// Relies on `reqwest::Url::path`: the URL's path.
#[verifier::external_body]
fn url_path(u: &reqwest::Url) -> (r: String) {
    u.path().to_owned()
}

/// The course source a URL names. The URL is trimmed and loses its trailing
/// slashes; it must parse as an absolute URL with a host and a path.
pub fn parse_source_url(url: &str) -> (r: Option<CourseSource>)
    ensures
        r matches Some(src) ==> exists|host: Seq<char>, segs: Seq<Seq<char>>|
            source_from_parts(url_text(url@), host, segs) == Some(source_view(src)),
{
    let text = trim_url(url);
    let parsed = match parse_url(text.as_str()) {
        Some(u) => u,
        None => {
            return None;
        },
    };
    let host = match url_host(&parsed) {
        Some(h) => h,
        None => {
            return None;
        },
    };
    let path = url_path(&parsed);
    let segments = match path_segments_of(path.as_str()) {
        Some(v) => v,
        None => {
            return None;
        },
    };
    let r = source_from_url_parts(text.as_str(), host.as_str(), &segments);
    proof {
        if r is Some {
            let segs = segments@.map_values(|x: String| x@);
            assert(source_from_parts(url_text(url@), host@, segs) == Some(source_view(r->Some_0)));
        }
    }
    r
}

} // verus!
