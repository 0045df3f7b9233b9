use vstd::prelude::*;

verus! {

/// An entry of a directory listing.
pub enum FsEntry {
    File { path: String, name: String, ext: String },
    Dir { path: String, name: String },
}

/// A file and its text.
pub struct FileContent {
    pub path: String,
    pub content: String,
}

/// What a language server session reports.
pub enum LspEvent {
    Message { data: String },
    Exit { code: i32 },
    Error { message: String },
}

/// A running language server.
pub struct LspSession {
    pub session_id: String,
}

/// What a terminal session reports.
pub enum PtyEvent {
    Data { data: String },
    Exit { code: i32 },
}

/// A running terminal.
pub struct PtySession {
    pub session_id: String,
    pub pid: u32,
}

/// Output of a command as it runs.
pub enum RunnerEvent {
    Stdout { data: String },
    Stderr { data: String },
}

/// How a command ended.
pub struct RunResult {
    pub exit_code: i32,
}

/// One match of a workspace search.
pub struct SearchMatch {
    pub path: String,
    pub line_number: u32,
    pub column: u32,
    pub line_content: String,
    pub match_len: u32,
}

/// The matches of a workspace search, and whether they were cut short.
pub struct SearchResult {
    pub matches: Vec<SearchMatch>,
    pub truncated: bool,
}

/// A watched directory changed.
#[derive(Clone, Copy, Debug, PartialEq, Eq, Structural)]
pub enum WatchEvent {
    Changed,
}

/// The shell that runs a command line, and its flag for one.
pub fn shell() -> (r: (&'static str, &'static str))
    ensures
        r.0@ == "sh"@ && r.1@ == "-c"@,
{
    ("sh", "-c")
}

} // verus!
