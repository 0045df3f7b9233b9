use vstd::prelude::*;

verus! {

/// A container runtime found on the machine.
pub struct RuntimeInfo {
    pub binary: String,
    pub version: String,
}

/// One container of a compose project.
pub struct ContainerInfo {
    pub id: String,
    pub name: String,
    pub image: String,
    pub status: String,
    pub health: String,
    pub ports: String,
}

/// Progress of bringing a compose project's services up.
pub enum ServiceEvent {
    ServiceStarting { name: String },
    ServiceHealthy { name: String },
    ServiceFailed { name: String, error: String },
    AllHealthy,
    Error { message: String },
}

/// One step of a streamed container log.
pub enum LogEvent {
    Line { data: String },
    End,
    Error { message: String },
}

/// Whether a container runtime is ready to use.
pub enum RuntimeCheck {
    Ready { binary: String, version: String },
    Missing,
}

/// An action on one container.
#[derive(Clone, Copy, Debug, PartialEq, Eq, Structural)]
pub enum ContainerAction {
    Start,
    Stop,
    Restart,
}

impl ContainerAction {
    /// The runtime's sub-command for the action.
    pub fn as_str(&self) -> (r: &'static str)
        ensures
            *self == ContainerAction::Start ==> r@ == "start"@,
            *self == ContainerAction::Stop ==> r@ == "stop"@,
            *self == ContainerAction::Restart ==> r@ == "restart"@,
    {
        match self {
            ContainerAction::Start => "start",
            ContainerAction::Stop => "stop",
            ContainerAction::Restart => "restart",
        }
    }
}

/// Whether `p` occurs in `s`.
pub open spec fn contains_seq(s: Seq<char>, p: Seq<char>) -> bool {
    exists|i: int| 0 <= i && i + p.len() <= s.len() && #[trigger] s.subrange(i, i + p.len()) == p
}

/// The name of the runtime at `path`: podman where the path says so, else docker.
pub fn runtime_name(path: &str) -> (r: &'static str)
    ensures
        contains_seq(path@, "podman"@) ==> r@ == "podman"@,
        !contains_seq(path@, "podman"@) ==> r@ == "docker"@,
{
    if contains_podman(path) {
        "podman"
    } else {
        "docker"
    }
}

fn contains_podman(path: &str) -> (r: bool)
    ensures
        r == contains_seq(path@, "podman"@),
{
    let n = path.unicode_len();
    let ghost pat = seq!['p', 'o', 'd', 'm', 'a', 'n'];
    proof {
        reveal_strlit("podman");
        assert("podman"@ =~= pat);
    }
    if n < 6 {
        assert(!contains_seq(path@, pat));
        return false;
    }
    let mut i: usize = 0;
    while i <= n - 6
        invariant
            n == path@.len(),
            n >= 6,
            pat == "podman"@,
            pat == seq!['p', 'o', 'd', 'm', 'a', 'n'],
            i <= n - 5,
            forall|j: int| 0 <= j < i ==> #[trigger] path@.subrange(j, j + 6) != pat,
        decreases n - i,
    {
        if path.get_char(i) == 'p' && path.get_char(i + 1) == 'o' && path.get_char(i + 2) == 'd'
            && path.get_char(i + 3) == 'm' && path.get_char(i + 4) == 'a' && path.get_char(i + 5)
            == 'n' {
            assert(path@.subrange(i as int, i + 6) =~= pat);
            return true;
        }
        assert(path@.subrange(i as int, i + 6) != pat) by {
            let t = path@.subrange(i as int, i + 6);
            assert(t[0] == path@[i as int] && t[1] == path@[i + 1] && t[2] == path@[i + 2] && t[3]
                == path@[i + 3] && t[4] == path@[i + 4] && t[5] == path@[i + 5]);
        }
        i = i + 1;
    }
    assert(!contains_seq(path@, pat)) by {
        assert forall|j: int| 0 <= j && j + 6 <= path@.len() implies #[trigger] path@.subrange(j, j + 6) != pat by {
            assert(j < i);
        }
    }
    false
}

} // verus!
