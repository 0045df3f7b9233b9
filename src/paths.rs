use vstd::prelude::*;
use crate::num::{push_char, push_text};

verus! {

/// `base` joined with the relative path `part`, as `Path::join` does on
/// Unix: a separator goes between unless `base` is empty or ends with one.
pub open spec fn join(base: Seq<char>, part: Seq<char>) -> Seq<char> {
    if base.len() == 0 {
        part
    } else if base.last() == '/' {
        base + part
    } else {
        base + seq!['/'] + part
    }
}

/// The application's directory under `home`, or under `.` without one.
pub open spec fn app_dir(home: Option<Seq<char>>) -> Seq<char> {
    join(
        match home {
            Some(h) => h,
            None => seq!['.'],
        },
        ".handhold"@,
    )
}

pub(crate) fn join_exec(base: String, part: &str) -> (r: String)
    ensures
        r@ == join(base@, part@),
{
    let mut s = base;
    let n = s.as_str().unicode_len();
    if n > 0 && s.as_str().get_char(n - 1) != '/' {
        push_char(&mut s, '/');
    }
    push_text(&mut s, part);
    s
}

/// Relies on `dirs::home_dir`: the user's home directory, if the platform
/// names one, as text.
#[verifier::external_body]
fn home_dir() -> (r: Option<String>) {
    dirs::home_dir().map(|p| p.to_string_lossy().into_owned())
}

/// The application's directory under the given home directory.
pub fn handhold_dir_in(home: Option<String>) -> (r: String)
    ensures
        r@ == app_dir(crate::tts::cache::text_of(home)),
{
    let base = match home {
        Some(h) => h,
        None => ".".to_owned(),
    };
    proof {
        reveal_strlit(".");
    }
    join_exec(base, ".handhold")
}

/// The file or directory `leaf` of the application's directory under `home`.
pub fn app_path_in(home: Option<String>, leaf: &str) -> (r: String)
    ensures
        r@ == join(app_dir(crate::tts::cache::text_of(home)), leaf@),
{
    join_exec(handhold_dir_in(home), leaf)
}

/// Where imported courses live.
pub fn courses_dir() -> (r: String)
    ensures
        exists|h: Option<Seq<char>>| r@ == join(app_dir(h), "courses"@),
{
    let home = home_dir();
    let ghost h = crate::tts::cache::text_of(home);
    let r = app_path_in(home, "courses");
    assert(r@ == join(app_dir(h), "courses"@));
    r
}

/// Where lab workspaces live.
pub fn workspaces_dir() -> (r: String)
    ensures
        exists|h: Option<Seq<char>>| r@ == join(app_dir(h), "workspaces"@),
{
    let home = home_dir();
    let ghost h = crate::tts::cache::text_of(home);
    let r = app_path_in(home, "workspaces");
    assert(r@ == join(app_dir(h), "workspaces"@));
    r
}

/// The database file.
pub fn db_path() -> (r: String)
    ensures
        exists|h: Option<Seq<char>>| r@ == join(app_dir(h), "handhold.db"@),
{
    let home = home_dir();
    let ghost h = crate::tts::cache::text_of(home);
    let r = app_path_in(home, "handhold.db");
    assert(r@ == join(app_dir(h), "handhold.db"@));
    r
}

/// The settings file.
pub fn settings_path() -> (r: String)
    ensures
        exists|h: Option<Seq<char>>| r@ == join(app_dir(h), "settings.json"@),
{
    let home = home_dir();
    let ghost h = crate::tts::cache::text_of(home);
    let r = app_path_in(home, "settings.json");
    assert(r@ == join(app_dir(h), "settings.json"@));
    r
}

} // verus!
