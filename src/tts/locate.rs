use vstd::prelude::*;
use crate::num::push_text;
use crate::paths::{join, join_exec};

verus! {

/// The model file a models directory must hold.
pub const MODEL_FILE: &'static str = "kokoro-v1.0.onnx";

/// The voices file a models directory must hold.
pub const VOICES_FILE: &'static str = "voices-v1.0.bin";

/// Where the engine binary is looked for, in order: the development tree's
/// `binaries` directory, then beside the executable under its target-named
/// and its plain name.
pub fn koko_candidates(dev_dir: &str, exe_dir: Option<String>, target: &str, suffix: &str) -> (r: Vec<
    String,
>)
    ensures
        r@.len() == (if exe_dir is Some { 3int } else { 1int }),
        r@[0]@ == join(join(dev_dir@, "binaries"@), "koko-"@ + target@ + suffix@),
        exe_dir matches Some(d) ==> r@[1]@ == join(d@, "koko-"@ + target@ + suffix@) && r@[2]@
            == join(d@, "koko"@ + suffix@),
{
    let mut named = String::new();
    push_text(&mut named, "koko-");
    push_text(&mut named, target);
    push_text(&mut named, suffix);
    let mut plain = String::new();
    push_text(&mut plain, "koko");
    push_text(&mut plain, suffix);
    let mut out: Vec<String> = Vec::new();
    out.push(join_exec(join_exec(dev_dir.to_owned(), "binaries"), named.as_str()));
    if let Some(d) = exe_dir {
        out.push(join_exec(d.clone(), named.as_str()));
        out.push(join_exec(d, plain.as_str()));
    }
    out
}

/// Where the model files are looked for, in order: the development tree's
/// `resources/models` and `resources/piper`, then the bundle's resources
/// above the executable and beside it.
pub fn models_candidates(dev_dir: &str, exe_dir: Option<String>, exe_parent: Option<String>) -> (r: Vec<
    String,
>)
    ensures
        r@.len() == 2 + (if exe_dir is Some { 2int } else { 0int }),
        r@[0]@ == join(dev_dir@, "resources/models"@),
        r@[1]@ == join(dev_dir@, "resources/piper"@),
        exe_dir matches Some(d) ==> r@[2]@ == join(
            match exe_parent {
                Some(p) => p@,
                None => d@,
            },
            "Resources/resources/models"@,
        ) && r@[3]@ == join(d@, "resources/models"@),
{
    let mut out: Vec<String> = Vec::new();
    out.push(join_exec(dev_dir.to_owned(), "resources/models"));
    out.push(join_exec(dev_dir.to_owned(), "resources/piper"));
    if let Some(d) = exe_dir {
        let up = match exe_parent {
            Some(p) => p,
            None => d.clone(),
        };
        out.push(join_exec(up, "Resources/resources/models"));
        out.push(join_exec(d, "resources/models"));
    }
    out
}

/// Where the phoneme data is looked for, in order: the development tree,
/// then the bundle's resources above the executable and beside it.
pub fn espeak_candidates(dev_dir: &str, exe_dir: Option<String>, exe_parent: Option<String>) -> (r: Vec<
    String,
>)
    ensures
        r@.len() == 1 + (if exe_dir is Some { 2int } else { 0int }),
        r@[0]@ == join(dev_dir@, "resources/piper/espeak-ng-data"@),
        exe_dir matches Some(d) ==> r@[1]@ == join(
            match exe_parent {
                Some(p) => p@,
                None => d@,
            },
            "Resources/resources/piper/espeak-ng-data"@,
        ) && r@[2]@ == join(d@, "resources/piper/espeak-ng-data"@),
{
    let mut out: Vec<String> = Vec::new();
    out.push(join_exec(dev_dir.to_owned(), "resources/piper/espeak-ng-data"));
    if let Some(d) = exe_dir {
        let up = match exe_parent {
            Some(p) => p,
            None => d.clone(),
        };
        out.push(join_exec(up, "Resources/resources/piper/espeak-ng-data"));
        out.push(join_exec(d, "resources/piper/espeak-ng-data"));
    }
    out
}

/// The first candidate that was found, by its index.
pub fn first_found(found: &[bool]) -> (r: Option<usize>)
    ensures
        r matches Some(i) ==> i < found@.len() && found@[i as int] && forall|j: int| 0 <= j < i ==> !#[trigger] found@[j],
        r is None ==> forall|j: int| 0 <= j < found@.len() ==> !#[trigger] found@[j],
{
    let mut i: usize = 0;
    while i < found.len()
        invariant
            i <= found@.len(),
            forall|j: int| 0 <= j < i ==> !#[trigger] found@[j],
        decreases found@.len() - i,
    {
        if found[i] {
            return Some(i);
        }
        i = i + 1;
    }
    None
}

/// The searched candidates, separated by `, `.
pub open spec fn listed(paths: Seq<String>, k: int) -> Seq<char>
    decreases k,
{
    if k <= 0 {
        Seq::empty()
    } else if k == 1 {
        paths[0]@
    } else {
        listed(paths, k - 1) + ", "@ + paths[k - 1]@
    }
}

/// The error when no candidate holds the engine binary.
pub fn binary_not_found(target: &str, searched: &[String]) -> (r: String)
    ensures
        r@ == "koko binary not found (target: "@ + target@ + "). Searched: "@ + listed(
            searched@,
            searched@.len() as int,
        ) + ". Run scripts/download-sidecars.sh for this target before building."@,
{
    let mut s = String::new();
    push_text(&mut s, "koko binary not found (target: ");
    push_text(&mut s, target);
    push_text(&mut s, "). Searched: ");
    let ghost head = s@;
    let mut k: usize = 0;
    while k < searched.len()
        invariant
            k <= searched@.len(),
            s@ == head + listed(searched@, k as int),
        decreases searched@.len() - k,
    {
        if k > 0 {
            push_text(&mut s, ", ");
        }
        push_text(&mut s, searched[k].as_str());
        k = k + 1;
        assert(s@ =~= head + listed(searched@, k as int));
    }
    push_text(&mut s, ". Run scripts/download-sidecars.sh for this target before building.");
    s
}

} // verus!
