use vstd::prelude::*;
use vstd::string::StringSliceAdditionalSpecFns;
use vstd::utf8::{decode_utf8, valid_utf8};
use crate::text::{line_spans, line_spans_exec, pair_view, utf8_string};

verus! {

/// The environment that commands are started with.
pub struct ShellEnv {
    pub path: String,
    pub home: String,
    pub vars: Vec<(String, String)>,
}

/// The shell script whose output [`parse_shell_env`] reads.
pub const ENV_SCRIPT: &'static str = "printf '__PATH=%s\\n__HOME=%s\\n__LANG=%s\\n__USER=%s\\n__LOGNAME=%s\\n' \"$PATH\" \"$HOME\" \"$LANG\" \"$USER\" \"$LOGNAME\"";

/// Whether the line `b[line.0..line.1]` starts with `p`.
pub open spec fn starts_with(b: Seq<u8>, line: (int, int), p: Seq<u8>) -> bool {
    line.0 + p.len() <= line.1 && b.subrange(line.0, line.0 + p.len()) == p
}

/// The text of `b[s..e]`, or empty where it is no UTF-8.
pub open spec fn text_at(b: Seq<u8>, s: int, e: int) -> Seq<char> {
    if valid_utf8(b.subrange(s, e)) {
        decode_utf8(b.subrange(s, e))
    } else {
        Seq::empty()
    }
}

/// The bytes of `__NAME=`.
pub open spec fn marker(name: Seq<u8>) -> Seq<u8> {
    seq![0x5Fu8, 0x5Fu8] + name + seq![0x3Du8]
}

pub open spec fn path_name() -> Seq<u8> {
    seq![0x50u8, 0x41u8, 0x54u8, 0x48u8]
}

pub open spec fn home_name() -> Seq<u8> {
    seq![0x48u8, 0x4Fu8, 0x4Du8, 0x45u8]
}

pub open spec fn lang_name() -> Seq<u8> {
    seq![0x4Cu8, 0x41u8, 0x4Eu8, 0x47u8]
}

pub open spec fn user_name() -> Seq<u8> {
    seq![0x55u8, 0x53u8, 0x45u8, 0x52u8]
}

pub open spec fn logname_name() -> Seq<u8> {
    seq![0x4Cu8, 0x4Fu8, 0x47u8, 0x4Eu8, 0x41u8, 0x4Du8, 0x45u8]
}

/// The value that the last line `__NAME=value` among the first `k` lines
/// gives, with `keep_empty` false skipping empty values.
pub open spec fn last_value(b: Seq<u8>, lines: Seq<(int, int)>, k: int, name: Seq<u8>, keep_empty: bool) -> Option<Seq<char>>
    decreases k,
{
    if k <= 0 {
        None
    } else if starts_with(b, lines[k - 1], marker(name)) && (keep_empty || lines[k - 1].1 > lines[k - 1].0 + marker(name).len()) {
        Some(text_at(b, lines[k - 1].0 + marker(name).len(), lines[k - 1].1))
    } else {
        last_value(b, lines, k - 1, name, keep_empty)
    }
}

/// Every span lies in order within `0..len`.
pub open spec fn spans_within(lines: Seq<(usize, usize)>, len: int) -> bool {
    forall|j: int| 0 <= j < lines.len() ==> #[trigger] lines[j].0 <= lines[j].1 <= len
}

pub open spec fn env_value(out: Seq<u8>, name: Seq<u8>, keep_empty: bool) -> Option<Seq<char>> {
    last_value(out, line_spans(out), line_spans(out).len() as int, name, keep_empty)
}

fn has_marker(b: &[u8], s: usize, e: usize, name: &[u8]) -> (r: bool)
    requires
        s <= e <= b@.len(),
    ensures
        r == starts_with(b@, (s as int, e as int), marker(name@)),
{
    let n = name.len();
    if e - s < 3 || e - s - 3 < n {
        return false;
    }
    let ghost m = marker(name@);
    assert(m.len() == n + 3 && m[0] == 0x5F && m[1] == 0x5F && m[n + 2] == 0x3D);
    let ok0 = b[s] == 0x5F && b[s + 1] == 0x5F && b[s + 2 + n] == 0x3D;
    if !ok0 {
        assert(b@.subrange(s as int, s + n + 3) != m) by {
            let t = b@.subrange(s as int, s + n + 3);
            assert(t[0] == b@[s as int] && t[1] == b@[s + 1] && t[n + 2] == b@[s + 2 + n]);
        }
        return false;
    }
    let mut i: usize = 0;
    while i < n
        invariant
            n == name@.len(),
            s + n + 3 <= e <= b@.len(),
            i <= n,
            forall|j: int| 0 <= j < i ==> b@[s + 2 + j] == #[trigger] name@[j],
            m == marker(name@),
            m.len() == n + 3,
            b@[s as int] == 0x5F && b@[s + 1] == 0x5F && b@[s + 2 + n] == 0x3D,
        decreases n - i,
    {
        if b[s + 2 + i] != name[i] {
            assert(b@.subrange(s as int, s + n + 3) != m) by {
                let t = b@.subrange(s as int, s + n + 3);
                assert(t[2 + i as int] == b@[s + 2 + i]);
                assert(m[2 + i as int] == name@[i as int]);
            }
            return false;
        }
        i = i + 1;
    }
    assert(b@.subrange(s as int, s + n + 3) =~= m);
    true
}

fn text_of_span(b: &[u8], s: usize, e: usize) -> (r: String)
    requires
        s <= e <= b@.len(),
    ensures
        r@ == text_at(b@, s as int, e as int),
{
    match utf8_string(vstd::slice::slice_to_vec(&b[s..e])) {
        Some(t) => t,
        None => String::new(),
    }
}

fn value_of(b: &[u8], lines: &Vec<(usize, usize)>, name: &[u8], keep_empty: bool) -> (r: Option<String>)
    requires
        pair_view(lines@) == line_spans(b@),
        spans_within(lines@, b@.len() as int),
    ensures
        match env_value(b@, name@, keep_empty) {
            Some(v) => r matches Some(x) && x@ == v,
            None => r is None,
        },
{
    let mut k = lines.len();
    while k > 0
        invariant
            pair_view(lines@) == line_spans(b@),
            forall|j: int| 0 <= j < lines@.len() ==> #[trigger] lines@[j].0 <= lines@[j].1 <= b@.len(),
            k <= lines@.len(),
            env_value(b@, name@, keep_empty) == last_value(b@, pair_view(lines@), k as int, name@, keep_empty),
        decreases k,
    {
        let (s, e) = lines[k - 1];
        let ghost line = pair_view(lines@)[k - 1];
        assert(line == (s as int, e as int));
        if has_marker(b, s, e, name) && (keep_empty || e > s + name.len() + 3) {
            return Some(text_of_span(b, s + name.len() + 3, e));
        }
        k = k - 1;
    }
    None
}

pub open spec fn var_entry(key: Seq<char>, v: Option<Seq<char>>) -> Seq<(Seq<char>, Seq<char>)> {
    match v {
        Some(x) => seq![(key, x)],
        None => Seq::empty(),
    }
}

/// The variables the environment output sets besides the path and home.
pub open spec fn env_vars(out: Seq<u8>) -> Seq<(Seq<char>, Seq<char>)> {
    var_entry("LANG"@, env_value(out, lang_name(), false)) + var_entry(
        "USER"@,
        env_value(out, user_name(), false),
    ) + var_entry("LOGNAME"@, env_value(out, logname_name(), false))
}

pub open spec fn vars_view(v: Seq<(String, String)>) -> Seq<(Seq<char>, Seq<char>)> {
    v.map_values(|p: (String, String)| (p.0@, p.1@))
}

fn push_var(vars: &mut Vec<(String, String)>, key: &str, v: Option<String>)
    ensures
        vars_view(final(vars)@) == vars_view(old(vars)@) + var_entry(key@, match v {
            Some(x) => Some(x@),
            None => None,
        }),
{
    let ghost before = vars_view(vars@);
    if let Some(x) = v {
        vars.push((key.to_owned(), x));
    }
    assert(vars_view(vars@) =~= before + var_entry(key@, match v {
        Some(x) => Some(x@),
        None => None,
    }));
}

/// Reads the output of [`ENV_SCRIPT`]: the last `__PATH=` and `__HOME=`
/// lines give the path and home (empty where there is none), and the last
/// non-empty `__LANG=`, `__USER=` and `__LOGNAME=` lines give those variables.
pub fn parse_shell_env(output: &str) -> (r: ShellEnv)
    ensures
        r.path@ == (match env_value(output.spec_bytes(), path_name(), true) { Some(v) => v, None => Seq::empty() }),
        r.home@ == (match env_value(output.spec_bytes(), home_name(), true) { Some(v) => v, None => Seq::empty() }),
        vars_view(r.vars@) == env_vars(output.spec_bytes()),
{
    let b = output.as_bytes();
    let lines = line_spans_exec(b);
    assert(spans_within(lines@, b@.len() as int));
    let path_n: [u8; 4] = [0x50, 0x41, 0x54, 0x48];
    let home_n: [u8; 4] = [0x48, 0x4F, 0x4D, 0x45];
    let lang_n: [u8; 4] = [0x4C, 0x41, 0x4E, 0x47];
    let user_n: [u8; 4] = [0x55, 0x53, 0x45, 0x52];
    let logname_n: [u8; 7] = [0x4C, 0x4F, 0x47, 0x4E, 0x41, 0x4D, 0x45];
    assert(path_n@ =~= path_name());
    assert(home_n@ =~= home_name());
    assert(lang_n@ =~= lang_name());
    assert(user_n@ =~= user_name());
    assert(logname_n@ =~= logname_name());
    let path = match value_of(b, &lines, path_n.as_slice(), true) {
        Some(v) => v,
        None => String::new(),
    };
    let home = match value_of(b, &lines, home_n.as_slice(), true) {
        Some(v) => v,
        None => String::new(),
    };
    let mut vars: Vec<(String, String)> = Vec::new();
    push_var(&mut vars, "LANG", value_of(b, &lines, lang_n.as_slice(), false));
    push_var(&mut vars, "USER", value_of(b, &lines, user_n.as_slice(), false));
    push_var(&mut vars, "LOGNAME", value_of(b, &lines, logname_n.as_slice(), false));
    assert(vars_view(vars@) =~= env_vars(b@));
    ShellEnv { path, home, vars }
}

/// Completes a parsed environment: an empty path becomes `fallback_path`,
/// an empty home becomes `fallback_home` (or stays empty without one).
pub fn with_fallbacks(env: ShellEnv, fallback_path: String, fallback_home: Option<String>) -> (r: ShellEnv)
    ensures
        r.path@ == (if env.path@.len() == 0 { fallback_path@ } else { env.path@ }),
        r.home@ == (if env.home@.len() > 0 { env.home@ } else {
            match fallback_home {
                Some(h) => h@,
                None => Seq::empty(),
            }
        }),
        r.vars == env.vars,
{
    let ShellEnv { path, home, vars } = env;
    let path = if path.as_str().is_empty() {
        fallback_path
    } else {
        path
    };
    let home = if !home.as_str().is_empty() {
        home
    } else {
        match fallback_home {
            Some(h) => h,
            None => String::new(),
        }
    };
    ShellEnv { path, home, vars }
}

/// The search path used when the login shell gives none, for Linux.
pub fn fallback_path() -> (r: String)
    ensures
        r@ == "/usr/local/bin:/usr/bin:/bin:/usr/sbin:/sbin"@,
{
    "/usr/local/bin:/usr/bin:/bin:/usr/sbin:/sbin".to_owned()
}

} // verus!
