//! The run schedule: one change and out, or one change and then one more
//! at every tick, without end.

use crate::text::{same_text, views};
use vstd::prelude::*;

verus! {

/// How the program runs.
#[derive(Clone, Copy, Debug, PartialEq, Eq, Structural)]
pub enum RunMode {
    /// One wallpaper change, then the program ends.
    Once,
    /// A wallpaper change at the start and at every tick.
    Repeating,
}

/// What the caller is to do next.
#[derive(Clone, Copy, Debug, PartialEq, Eq, Structural)]
pub enum Action {
    /// Change the wallpaper, and come back when that is done.
    ChangeWallpaper,
    /// Start a ticker that fires every so many milliseconds.
    StartTicker(u32),
    /// Wait for the ticker's next tick.
    AwaitTick,
    /// End the program.
    Exit,
}

/// Where a run stands.
#[derive(Clone, Copy, Debug, PartialEq, Eq, Structural)]
pub enum Phase {
    /// Nothing has been done yet.
    Start,
    /// The first change is done.
    FirstChangeDone,
    /// The ticker runs; no tick is pending.
    Waiting,
    /// A tick has come, and its change is due.
    Ticked,
    /// The run is over.
    Stopped,
}

/// A run: its mode, its tick interval and where it stands.
#[derive(Clone, Copy, Debug, PartialEq, Eq, Structural)]
pub struct Schedule {
    pub mode: RunMode,
    pub interval_ms: u32,
    pub phase: Phase,
}

/// The mode that the command line selects: one-shot where the first argument
/// after the program's name is `--once`, repeating in every other case.
pub open spec fn selected_mode(args: Seq<Seq<char>>) -> RunMode {
    if args.len() > 1 && args[1] == "--once"@ {
        RunMode::Once
    } else {
        RunMode::Repeating
    }
}

impl Schedule {
    /// A run that has not begun.
    pub open spec fn initial(mode: RunMode, interval_ms: u32) -> Schedule {
        Schedule { mode, interval_ms, phase: Phase::Start }
    }

    /// What is to be done where the run stands.
    pub open spec fn action(self) -> Action {
        match self.phase {
            Phase::Start => Action::ChangeWallpaper,
            Phase::FirstChangeDone => match self.mode {
                RunMode::Once => Action::Exit,
                RunMode::Repeating => Action::StartTicker(self.interval_ms),
            },
            Phase::Waiting => Action::AwaitTick,
            Phase::Ticked => Action::ChangeWallpaper,
            Phase::Stopped => Action::Exit,
        }
    }

    /// Where the run stands once that action is done.
    pub open spec fn next(self) -> Schedule {
        let phase = match self.phase {
            Phase::Start => Phase::FirstChangeDone,
            Phase::FirstChangeDone => match self.mode {
                RunMode::Once => Phase::Stopped,
                RunMode::Repeating => Phase::Waiting,
            },
            Phase::Waiting => Phase::Ticked,
            Phase::Ticked => Phase::Waiting,
            Phase::Stopped => Phase::Stopped,
        };
        Schedule { phase, ..self }
    }

    /// Where the run stands `n` actions later.
    pub open spec fn after(self, n: nat) -> Schedule
        decreases n,
    {
        if n == 0 {
            self
        } else {
            self.after((n - 1) as nat).next()
        }
    }

    /// How many of the next `n` actions change the wallpaper.
    pub open spec fn changes(self, n: nat) -> nat
        decreases n,
    {
        if n == 0 {
            0
        } else {
            self.changes((n - 1) as nat) + if self.after((n - 1) as nat).action()
                == Action::ChangeWallpaper {
                1nat
            } else {
                0nat
            }
        }
    }

    /// How many of the next `n` actions wait for a tick.
    pub open spec fn ticks(self, n: nat) -> nat
        decreases n,
    {
        if n == 0 {
            0
        } else {
            self.ticks((n - 1) as nat) + if self.after((n - 1) as nat).action()
                == Action::AwaitTick {
                1nat
            } else {
                0nat
            }
        }
    }

    /// A run that has not begun.
    pub fn new(mode: RunMode, interval_ms: u32) -> (s: Schedule)
        ensures
            s == Schedule::initial(mode, interval_ms),
    {
        Schedule { mode, interval_ms, phase: Phase::Start }
    }

    /// What is to be done now. The run moves on: the next call tells what
    /// follows once this action is done.
    pub fn step(&mut self) -> (action: Action)
        ensures
            action == old(self).action(),
            *final(self) == old(self).next(),
    {
        match self.phase {
            Phase::Start => {
                self.phase = Phase::FirstChangeDone;
                Action::ChangeWallpaper
            },
            Phase::FirstChangeDone => match self.mode {
                RunMode::Once => {
                    self.phase = Phase::Stopped;
                    Action::Exit
                },
                RunMode::Repeating => {
                    self.phase = Phase::Waiting;
                    Action::StartTicker(self.interval_ms)
                },
            },
            Phase::Waiting => {
                self.phase = Phase::Ticked;
                Action::AwaitTick
            },
            Phase::Ticked => {
                self.phase = Phase::Waiting;
                Action::ChangeWallpaper
            },
            Phase::Stopped => Action::Exit,
        }
    }

    /// Whether the run is over.
    pub fn is_over(&self) -> (b: bool)
        ensures
            b == (self.phase == Phase::Stopped),
    {
        match self.phase {
            Phase::Stopped => true,
            _ => false,
        }
    }
}

/// The mode that the command line selects.
pub fn run_mode(args: &Vec<String>) -> (mode: RunMode)
    ensures
        mode == selected_mode(views(args@)),
{
    if args.len() > 1 && same_text(args[1].as_str(), "--once") {
        RunMode::Once
    } else {
        RunMode::Repeating
    }
}

/// A one-shot run changes the wallpaper first and ends with its second
/// action. It stays ended: the wallpaper is changed exactly once, and no
/// ticker is ever started or waited for.
pub proof fn lemma_once_changes_once(interval_ms: u32, n: nat)
    ensures
        ({
            let run = Schedule::initial(RunMode::Once, interval_ms);
            &&& run.action() == Action::ChangeWallpaper
            &&& n >= 1 ==> run.after(n).action() == Action::Exit
            &&& n >= 1 ==> run.changes(n) == 1
            &&& run.ticks(n) == 0
            &&& n >= 2 ==> run.after(n).phase == Phase::Stopped
        }),
    decreases n,
{
    let run = Schedule::initial(RunMode::Once, interval_ms);
    if n >= 1 {
        lemma_once_changes_once(interval_ms, (n - 1) as nat);
        assert(run.after(0) == run);
        if n == 1 {
            assert(run.changes(0) == 0);
        }
    }
}

/// A repeating run changes the wallpaper first, then starts a ticker with
/// the configured interval, and from then on waits for a tick and changes
/// the wallpaper in turn. It never ends, and at every moment it has made one
/// change more than the ticks it has waited for, but for the change that is
/// due right after a tick.
pub proof fn lemma_repeating_changes_per_tick(interval_ms: u32, n: nat)
    ensures
        ({
            let run = Schedule::initial(RunMode::Repeating, interval_ms);
            &&& run.after(n).action() == if n == 0 {
                Action::ChangeWallpaper
            } else if n == 1 {
                Action::StartTicker(interval_ms)
            } else if n % 2 == 0 {
                Action::AwaitTick
            } else {
                Action::ChangeWallpaper
            }
            &&& run.after(n).action() != Action::Exit
            &&& n >= 1 ==> run.changes(n) == 1 + run.ticks(n) - if run.after(n).phase
                == Phase::Ticked {
                1nat
            } else {
                0nat
            }
            &&& run.ticks(n) == if n < 2 {
                0
            } else {
                (n - 1) / 2
            }
        }),
    decreases n,
{
    let run = Schedule::initial(RunMode::Repeating, interval_ms);
    if n >= 1 {
        lemma_repeating_changes_per_tick(interval_ms, (n - 1) as nat);
        assert(run.after(0) == run);
        if n == 1 {
            assert(run.changes(0) == 0);
        }
    }
}

} // verus!
