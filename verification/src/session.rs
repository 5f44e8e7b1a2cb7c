//! The sort session: the array store, the active algorithm, and the phase
//! state machine that consumes clock ticks and gates user commands.
//!
//! The controller cycles `Idle -> SetupPending -> Running -> Idle`. A command
//! is honored only while the session is idle; once a sort is pending or
//! running, the array is mutated by nothing but the active strategy's step,
//! and when the phase returns to idle the array is sorted. The state machine
//! never invokes a step after the strategy has reported completion: a
//! completing tick moves the phase straight back to idle.

use vstd::prelude::*;

use rand::seq::SliceRandom;

use crate::order::{lemma_sorted_from_partition, partitioned_at, sorted, sorted_prefix,
    sorted_suffix};
use crate::sorts::{insertion_setup, insertion_step, pancake_setup, pancake_step, pancake_stepped};

verus! {

/// The closed set of sorting strategies the engine can run.
#[derive(Clone, Copy, PartialEq, Eq, Debug, Structural)]
pub enum Algorithm {
    InsertionSort,
    PancakeSort,
}

/// What the session is currently doing.
#[derive(Clone, Copy, PartialEq, Eq, Debug, Structural)]
pub enum Phase {
    /// Waiting for a command; the array may be shuffled.
    Idle,
    /// An algorithm was selected; the next tick runs its setup.
    SetupPending,
    /// A sort is in progress; each tick runs one step.
    Running,
}

/// A discrete user command, as the input router delivers it.
#[derive(Clone, Copy, PartialEq, Eq, Debug, Structural)]
pub enum Command {
    Shuffle,
    SelectInsertionSort,
    SelectPancakeSort,
}

/// The strategy-local invariant that holds between steps of a running sort:
/// for insertion sort the prefix below the cursor is sorted; for pancake sort
/// the cursor is the size of the unsorted prefix, everything from it on is
/// sorted and sits above the prefix. In both cases the cursor says that work
/// remains, so a step may be taken.
pub open spec fn running_inv(alg: Algorithm, s: Seq<usize>, cursor: int) -> bool {
    match alg {
        Algorithm::InsertionSort => 1 <= cursor < s.len() && sorted_prefix(s, cursor),
        Algorithm::PancakeSort => 2 <= cursor <= s.len() && partitioned_at(s, cursor)
            && sorted_suffix(s, cursor),
    }
}

/// A sorting session: the array being sorted, the selected algorithm, the
/// phase, and the active strategy's progress cursor.
pub struct SortSession {
    /// The values being sorted; fixed length once created.
    pub array: Vec<usize>,
    /// The strategy the next (or current) sort runs.
    pub algorithm: Algorithm,
    /// Where the state machine stands.
    pub phase: Phase,
    /// Strategy-local progress; meaningful only while running.
    pub cursor: usize,
}

impl SortSession {
    /// The session invariant: while a sort runs, the strategy invariant holds.
    pub open spec fn wf(self) -> bool {
        self.phase == Phase::Running ==> running_inv(self.algorithm, self.array@, self.cursor as int)
    }

    /// How many step calls remain until the current sort completes: a sort of
    /// `n` elements takes exactly `n - 1` steps (`0` for an empty array), of
    /// which setup consumes none.
    pub open spec fn steps_left(self) -> int {
        match self.phase {
            Phase::Idle => 0,
            Phase::SetupPending => if self.array@.len() == 0 {
                0
            } else {
                self.array@.len() - 1
            },
            Phase::Running => match self.algorithm {
                Algorithm::InsertionSort => self.array@.len() - self.cursor,
                Algorithm::PancakeSort => self.cursor - 1,
            },
        }
    }

    /// A session over the array `1, 2, ..., n`, idle, with pancake sort
    /// selected by default.
    pub fn new(n: usize) -> (s: SortSession)
        ensures
            s.wf(),
            s.phase == Phase::Idle,
            s.algorithm == Algorithm::PancakeSort,
            s.array@.len() == n,
            forall|i: int| 0 <= i < n ==> s.array@[i] == i + 1,
    {
        let mut values: Vec<usize> = Vec::new();
        let mut i: usize = 0;
        while i < n
            invariant
                i <= n,
                values@.len() == i,
                forall|p: int| 0 <= p < i ==> values@[p] == p + 1,
            decreases n - i,
        {
            i += 1;
            values.push(i);
        }
        SortSession::from_array(values)
    }

    /// An idle session over the given values, with pancake sort selected.
    pub fn from_array(values: Vec<usize>) -> (s: SortSession)
        ensures
            s.wf(),
            s.phase == Phase::Idle,
            s.algorithm == Algorithm::PancakeSort,
            s.array@ == values@,
            s.cursor == 0,
    {
        SortSession { array: values, algorithm: Algorithm::PancakeSort, phase: Phase::Idle, cursor: 0 }
    }

    /// Randomly permute the array, honored only while idle: a sort in
    /// progress is never disturbed.
    pub fn shuffle(&mut self)
        requires
            old(self).wf(),
        ensures
            final(self).wf(),
            final(self).phase == old(self).phase,
            final(self).algorithm == old(self).algorithm,
            final(self).cursor == old(self).cursor,
            final(self).array@.len() == old(self).array@.len(),
            final(self).array@.to_multiset() == old(self).array@.to_multiset(),
            old(self).phase != Phase::Idle ==> final(self).array@ == old(self).array@,
    {
        if self.phase == Phase::Idle {
            shuffle_array(&mut self.array);
        }
    }

    /// Route one user command. Commands arriving while the session is not
    /// idle are rejected as no-ops: the session is left exactly as it was.
    /// While idle, a shuffle permutes the array, and selecting an algorithm
    /// records it and schedules its setup for the next tick.
    pub fn handle_command(&mut self, cmd: Command)
        requires
            old(self).wf(),
        ensures
            final(self).wf(),
            old(self).phase != Phase::Idle ==> *final(self) == *old(self),
            final(self).array@.len() == old(self).array@.len(),
            final(self).array@.to_multiset() == old(self).array@.to_multiset(),
            old(self).phase == Phase::Idle && cmd == Command::Shuffle ==> final(self).phase
                == Phase::Idle && final(self).algorithm == old(self).algorithm && final(self).cursor
                == old(self).cursor,
            old(self).phase == Phase::Idle && cmd == Command::SelectInsertionSort ==> *final(self)
                == (SortSession {
                algorithm: Algorithm::InsertionSort,
                phase: Phase::SetupPending,
                ..*old(self)
            }),
            old(self).phase == Phase::Idle && cmd == Command::SelectPancakeSort ==> *final(self)
                == (SortSession {
                algorithm: Algorithm::PancakeSort,
                phase: Phase::SetupPending,
                ..*old(self)
            }),
    {
        if self.phase == Phase::Idle {
            match cmd {
                Command::Shuffle => {
                    shuffle_array(&mut self.array);
                },
                Command::SelectInsertionSort => {
                    self.algorithm = Algorithm::InsertionSort;
                    self.phase = Phase::SetupPending;
                },
                Command::SelectPancakeSort => {
                    self.algorithm = Algorithm::PancakeSort;
                    self.phase = Phase::SetupPending;
                },
            }
        }
    }

    /// Consume one clock tick, driving at most one transition of the state
    /// machine: an idle tick does nothing; a setup tick initializes the
    /// selected strategy's cursor and starts running (an empty or
    /// single-element array is immediately done); a running tick performs
    /// exactly one step, returning to idle on the step that completes the
    /// sort — so a completed sort is never stepped again. Whenever a tick
    /// moves the session back to idle, the array is sorted; no tick changes
    /// the multiset of values or the selected algorithm.
    pub fn tick(&mut self)
        requires
            old(self).wf(),
        ensures
            final(self).wf(),
            final(self).algorithm == old(self).algorithm,
            final(self).array@.len() == old(self).array@.len(),
            final(self).array@.to_multiset() == old(self).array@.to_multiset(),
            old(self).phase == Phase::Idle ==> *final(self) == *old(self),
            old(self).phase == Phase::SetupPending ==> final(self).array@ == old(self).array@
                && final(self).phase == (if old(self).array@.len() <= 1 {
                Phase::Idle
            } else {
                Phase::Running
            }),
            old(self).phase == Phase::Running ==> final(self).phase == (if old(self).steps_left()
                == 1 {
                Phase::Idle
            } else {
                Phase::Running
            }),
            old(self).phase == Phase::Running && old(self).algorithm == Algorithm::InsertionSort
                ==> final(self).cursor == old(self).cursor + 1 && sorted_prefix(
                final(self).array@,
                old(self).cursor + 1,
            ) && final(self).array@.subrange(
                old(self).cursor + 1,
                final(self).array@.len() as int,
            ) == old(self).array@.subrange(old(self).cursor + 1, old(self).array@.len() as int),
            old(self).phase == Phase::Running && old(self).algorithm == Algorithm::PancakeSort
                ==> final(self).cursor == old(self).cursor - 1 && final(self).array@
                == pancake_stepped(old(self).array@, old(self).cursor as int),
            old(self).phase != Phase::Idle ==> final(self).steps_left() == old(self).steps_left()
                - (if old(self).phase == Phase::Running {
                1int
            } else {
                0int
            }),
            old(self).phase != Phase::Idle && final(self).phase == Phase::Idle ==> sorted(
                final(self).array@,
            ),
    {
        match self.phase {
            Phase::Idle => {},
            Phase::SetupPending => {
                let cursor: usize = match self.algorithm {
                    Algorithm::InsertionSort => insertion_setup(&self.array),
                    Algorithm::PancakeSort => pancake_setup(&self.array),
                };
                self.cursor = cursor;
                let done: bool = match self.algorithm {
                    Algorithm::InsertionSort => cursor >= self.array.len(),
                    Algorithm::PancakeSort => cursor <= 1,
                };
                if done {
                    self.phase = Phase::Idle;
                } else {
                    self.phase = Phase::Running;
                }
            },
            Phase::Running => {
                let (cursor, done): (usize, bool) = match self.algorithm {
                    Algorithm::InsertionSort => insertion_step(&mut self.array, self.cursor),
                    Algorithm::PancakeSort => pancake_step(&mut self.array, self.cursor),
                };
                self.cursor = cursor;
                if done {
                    proof {
                        if self.algorithm == Algorithm::PancakeSort {
                            lemma_sorted_from_partition(self.array@);
                        }
                    }
                    self.phase = Phase::Idle;
                } else {
                    self.phase = Phase::Running;
                }
            },
        }
    }

    /// Drive a pending sort to completion, consuming the setup tick and then
    /// one tick per step, and return how many steps were taken: exactly
    /// `n - 1` for an array of `n` elements (`0` when empty). Afterwards the
    /// session is idle again and the array is sorted, holding the same
    /// multiset of values it started with.
    pub fn run_to_completion(&mut self) -> (steps: usize)
        requires
            old(self).wf(),
            old(self).phase == Phase::SetupPending,
        ensures
            final(self).wf(),
            final(self).phase == Phase::Idle,
            final(self).algorithm == old(self).algorithm,
            final(self).array@.len() == old(self).array@.len(),
            final(self).array@.to_multiset() == old(self).array@.to_multiset(),
            sorted(final(self).array@),
            steps as int == (if old(self).array@.len() == 0 {
                0int
            } else {
                old(self).array@.len() - 1
            }),
    {
        let n_now: usize = self.array.len();
        let ghost n: int = n_now as int;
        let ghost values = self.array@.to_multiset();
        let ghost alg = self.algorithm;
        let ghost total: int = if n == 0 {
            0int
        } else {
            n - 1
        };
        self.tick();
        let mut steps: usize = 0;
        while self.phase == Phase::Running
            invariant
                self.wf(),
                self.phase == Phase::Running || self.phase == Phase::Idle,
                self.algorithm == alg,
                self.array@.len() == n,
                self.array@.to_multiset() == values,
                0 <= total <= n <= usize::MAX,
                self.phase == Phase::Running ==> steps + self.steps_left() == total,
                self.phase == Phase::Idle ==> steps == total && sorted(self.array@),
            decreases self.steps_left(),
        {
            self.tick();
            steps += 1;
        }
        steps
    }
}

/// Relies on rand's `SliceRandom::shuffle`, a Fisher-Yates shuffle: it
/// permutes the slice in place by swaps, so the length and the multiset of
/// values are unchanged, whatever permutation the thread-local generator
/// picks.
#[verifier::external_body]
fn shuffle_array(a: &mut Vec<usize>)
    ensures
        final(a)@.len() == old(a)@.len(),
        final(a)@.to_multiset() == old(a)@.to_multiset(),
{
    a.shuffle(&mut rand::thread_rng());
}

} // verus!

