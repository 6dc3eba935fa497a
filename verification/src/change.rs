//! The steps of one wallpaper change, and what a failure of each means.

use vstd::prelude::*;

verus! {

/// A step of a wallpaper change that works on the world outside.
#[derive(Clone, Copy, Debug, PartialEq, Eq, Structural)]
pub enum Step {
    /// Look whether the wallpapers directory is there.
    FindDirectory,
    /// Create the wallpapers directory.
    CreateDirectory,
    /// Create the file that the photo is saved in.
    CreateFile,
    /// Ask the photo service for the photo.
    Download,
    /// Copy the answer into the file.
    Save,
    /// Set the saved file as the desktop background.
    Apply,
}

/// How a step ended.
#[derive(Clone, Copy, Debug, PartialEq, Eq, Structural)]
pub enum Outcome {
    Done,
    Failed,
}

/// What follows a step.
#[derive(Clone, Copy, Debug, PartialEq, Eq, Structural)]
pub enum Next {
    /// The change goes on with this step.
    Continue(Step),
    /// The change is complete.
    Finished,
    /// The change is given up, and with it the program: this step failed.
    Fatal(Step),
}

/// The place of a step in the order of a change.
pub open spec fn rank(step: Step) -> nat {
    match step {
        Step::FindDirectory => 0,
        Step::CreateDirectory => 1,
        Step::CreateFile => 2,
        Step::Download => 3,
        Step::Save => 4,
        Step::Apply => 5,
    }
}

/// What follows `step` once it has ended with `outcome`. The directory is
/// created only where it was not found. Every other failure is fatal:
/// nothing is tried again and nothing is undone.
pub open spec fn follow(step: Step, outcome: Outcome) -> Next {
    match (step, outcome) {
        (Step::FindDirectory, Outcome::Done) => Next::Continue(Step::CreateFile),
        (Step::FindDirectory, Outcome::Failed) => Next::Continue(Step::CreateDirectory),
        (Step::CreateDirectory, Outcome::Done) => Next::Continue(Step::CreateFile),
        (Step::CreateFile, Outcome::Done) => Next::Continue(Step::Download),
        (Step::Download, Outcome::Done) => Next::Continue(Step::Save),
        (Step::Save, Outcome::Done) => Next::Continue(Step::Apply),
        (Step::Apply, Outcome::Done) => Next::Finished,
        (failed, Outcome::Failed) => Next::Fatal(failed),
    }
}

/// The message that names the step that failed.
pub open spec fn failure_text(step: Step) -> Seq<char> {
    match step {
        Step::FindDirectory => "Failed to find wallpapers directory"@,
        Step::CreateDirectory => "Failed to create wallpapers directory"@,
        Step::CreateFile => "Failed to create wallpaper file"@,
        Step::Download => "Failed to request wallpaper"@,
        Step::Save => "Failed to save wallpaper"@,
        Step::Apply => "Failed to set wallpaper"@,
    }
}

/// The step that a change begins with.
pub fn first_step() -> (step: Step)
    ensures
        step == Step::FindDirectory,
{
    Step::FindDirectory
}

/// What follows `step` once it has ended with `outcome`.
pub fn after(step: Step, outcome: Outcome) -> (next: Next)
    ensures
        next == follow(step, outcome),
{
    match outcome {
        Outcome::Failed => match step {
            Step::FindDirectory => Next::Continue(Step::CreateDirectory),
            _ => Next::Fatal(step),
        },
        Outcome::Done => match step {
            Step::FindDirectory => Next::Continue(Step::CreateFile),
            Step::CreateDirectory => Next::Continue(Step::CreateFile),
            Step::CreateFile => Next::Continue(Step::Download),
            Step::Download => Next::Continue(Step::Save),
            Step::Save => Next::Continue(Step::Apply),
            Step::Apply => Next::Finished,
        },
    }
}

/// The message that names the step that failed.
pub fn failure_message(step: Step) -> (message: &'static str)
    ensures
        message@ == failure_text(step),
{
    match step {
        Step::FindDirectory => "Failed to find wallpapers directory",
        Step::CreateDirectory => "Failed to create wallpapers directory",
        Step::CreateFile => "Failed to create wallpaper file",
        Step::Download => "Failed to request wallpaper",
        Step::Save => "Failed to save wallpaper",
        Step::Apply => "Failed to set wallpaper",
    }
}

/// A change only moves forward: the step that follows stands later in the
/// order, so no step is tried twice and a change takes six steps at most.
/// It is complete only after the wallpaper was set, and a failure is fatal
/// everywhere but in the search for the directory.
pub proof fn lemma_change_moves_forward(step: Step, outcome: Outcome)
    ensures
        follow(step, outcome) matches Next::Continue(next) ==> rank(next) > rank(step),
        follow(step, outcome) == Next::Finished <==> step == Step::Apply && outcome
            == Outcome::Done,
        follow(step, outcome) is Fatal <==> outcome == Outcome::Failed && step
            != Step::FindDirectory,
        follow(step, outcome) matches Next::Fatal(failed) ==> failed == step,
{
}

} // verus!
