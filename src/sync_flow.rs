//! The steps of publishing the shared project database with git: stage it,
//! commit if anything changed, push, and on a rejected push rebase onto the
//! remote and push once more.

use vstd::prelude::*;

verus! {

/// Where publishing stands; each non-final step is one git command.
#[derive(Debug, Clone, Copy, PartialEq, Eq, Structural)]
pub enum PushStep {
    /// `git add projects.db`
    Stage,
    /// `git diff --cached --quiet`, which fails when something is staged
    CheckStaged,
    /// `git commit -m <message>`
    Commit,
    /// `git push origin main`
    Push,
    /// `git pull --rebase origin main`
    Rebase,
    /// `git push origin main`, after the rebase
    PushAgain,
    /// Published, or nothing to publish.
    Done,
    /// A step that must succeed did not.
    Failed,
}

/// The step after `step`, given whether its git command succeeded.
pub open spec fn push_transition(step: PushStep, succeeded: bool) -> PushStep {
    match step {
        PushStep::Stage => if succeeded { PushStep::CheckStaged } else { PushStep::Failed },
        PushStep::CheckStaged => if succeeded { PushStep::Done } else { PushStep::Commit },
        PushStep::Commit => if succeeded { PushStep::Push } else { PushStep::Failed },
        PushStep::Push => if succeeded { PushStep::Done } else { PushStep::Rebase },
        PushStep::Rebase => if succeeded { PushStep::PushAgain } else { PushStep::Failed },
        PushStep::PushAgain => if succeeded { PushStep::Done } else { PushStep::Failed },
        PushStep::Done => PushStep::Done,
        PushStep::Failed => PushStep::Failed,
    }
}

/// How many steps at most remain from `step`.
pub open spec fn steps_left(step: PushStep) -> nat {
    match step {
        PushStep::Stage => 5,
        PushStep::CheckStaged => 4,
        PushStep::Commit => 3,
        PushStep::Push => 2,
        PushStep::Rebase => 1,
        PushStep::PushAgain => 0,
        PushStep::Done => 0,
        PushStep::Failed => 0,
    }
}

/// Whether `step` ends publishing.
pub open spec fn is_final(step: PushStep) -> bool {
    step == PushStep::Done || step == PushStep::Failed
}

/// The step after `step`, given whether its git command succeeded.
pub fn next_push_step(step: PushStep, succeeded: bool) -> (r: PushStep)
    ensures
        r == push_transition(step, succeeded),
{
    match step {
        PushStep::Stage => if succeeded { PushStep::CheckStaged } else { PushStep::Failed },
        PushStep::CheckStaged => if succeeded { PushStep::Done } else { PushStep::Commit },
        PushStep::Commit => if succeeded { PushStep::Push } else { PushStep::Failed },
        PushStep::Push => if succeeded { PushStep::Done } else { PushStep::Rebase },
        PushStep::Rebase => if succeeded { PushStep::PushAgain } else { PushStep::Failed },
        PushStep::PushAgain => if succeeded { PushStep::Done } else { PushStep::Failed },
        PushStep::Done => PushStep::Done,
        PushStep::Failed => PushStep::Failed,
    }
}

fn words(parts: &[&str]) -> (r: Vec<String>)
    ensures
        r@.len() == parts@.len(),
        forall|i: int| 0 <= i < parts@.len() ==> (#[trigger] r@[i])@ == parts@[i]@,
{
    let mut out: Vec<String> = Vec::new();
    let mut i: usize = 0;
    while i < parts.len()
        invariant
            i <= parts@.len(),
            out@.len() == i,
            forall|k: int| 0 <= k < i ==> (#[trigger] out@[k])@ == parts@[k]@,
        decreases parts@.len() - i,
    {
        out.push(String::from_str(parts[i]));
        i = i + 1;
    }
    out
}

/// The arguments of the git command that `step` runs, `None` for a final step.
pub fn push_command(step: PushStep, message: &str) -> (r: Option<Vec<String>>)
    ensures
        r is None <==> is_final(step),
        step == PushStep::Commit ==> (r matches Some(a) && a@.len() == 3 && a@[2]@ == message@),
{
    match step {
        PushStep::Stage => Some(words(&["add", "projects.db"])),
        PushStep::CheckStaged => Some(words(&["diff", "--cached", "--quiet"])),
        PushStep::Commit => {
            let mut a = words(&["commit", "-m"]);
            a.push(String::from_str(message));
            Some(a)
        },
        PushStep::Push | PushStep::PushAgain => Some(words(&["push", "origin", "main"])),
        PushStep::Rebase => Some(words(&["pull", "--rebase", "origin", "main"])),
        PushStep::Done | PushStep::Failed => None,
    }
}

/// Publishing ends: every step that is not final leads to one with fewer
/// steps left, or to a final one.
pub proof fn lemma_push_terminates(step: PushStep, succeeded: bool)
    ensures
        !is_final(step) ==> is_final(push_transition(step, succeeded)) || steps_left(push_transition(step, succeeded))
            < steps_left(step),
        is_final(step) ==> push_transition(step, succeeded) == step,
{
}

} // verus!
