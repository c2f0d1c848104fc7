//! The trajectory explorer: iterating a map on puzzle states until a state
//! recurs or the iteration budget is used up.
//!
//! A run is modelled by its *trace*: entry `i` is the fingerprint of the
//! state reached after `i` iterations of the map, entry 0 that of the
//! initial state. Everything a run reports is a function of its trace and
//! of the iteration budget.

use vstd::hash_map::StringHashMap;
use vstd::prelude::*;

use std::time::{Duration, Instant};

use crate::fingerprint::{fingerprint_of, hash_state};
use crate::puzzle::{display_names, LayeredTwist, Puzzle};

verus! {

/// Entry `i` of `trace` equals an earlier entry.
pub open spec fn revisits(trace: Seq<Seq<char>>, i: int) -> bool {
    exists|j: int| 0 <= j < i && trace[j] == trace[i]
}

/// An earlier position holding the same fingerprint as entry `i`; it is the
/// only one when the entries before `i` are pairwise distinct.
pub open spec fn first_visit(trace: Seq<Seq<char>>, i: int) -> int {
    choose|j: int| 0 <= j < i && trace[j] == trace[i]
}

/// The first `n` entries of `trace` are pairwise distinct.
pub open spec fn distinct_before(trace: Seq<Seq<char>>, n: int) -> bool {
    forall|a: int, b: int| 0 <= a < b < n ==> trace[a] != trace[b]
}

/// The mathematical model of a run: the fingerprints observed so far and
/// the iteration budget.
pub struct Exploration {
    pub trace: Seq<Seq<char>>,
    pub max_iterations: nat,
}

impl Exploration {
    /// What every run satisfies: it holds the initial fingerprint, stays
    /// within the budget, and went on only while no fingerprint recurred.
    pub open spec fn valid(self) -> bool {
        &&& self.trace.len() >= 1
        &&& self.trace.len() - 1 <= self.max_iterations
        &&& distinct_before(self.trace, self.trace.len() - 1)
    }

    /// The number of iterations of the map carried out so far.
    pub open spec fn iterations(self) -> int {
        self.trace.len() - 1
    }

    /// The latest state was seen before.
    pub open spec fn reached_cycle(self) -> bool {
        revisits(self.trace, self.iterations())
    }

    /// The run is over: a cycle was found or the budget is used up.
    pub open spec fn finished(self) -> bool {
        self.reached_cycle() || self.iterations() == self.max_iterations
    }

    /// The number of iterations before the trajectory enters its cycle;
    /// zero as long as no cycle was found.
    pub open spec fn transient_length(self) -> int {
        if self.reached_cycle() {
            first_visit(self.trace, self.iterations())
        } else {
            0
        }
    }

    /// The length of the cycle, once one was found.
    pub open spec fn period(self) -> Option<int> {
        if self.reached_cycle() {
            Some(self.iterations() - first_visit(self.trace, self.iterations()))
        } else {
            None
        }
    }

    /// The number of distinct fingerprints observed.
    pub open spec fn unique_states(self) -> int {
        if self.reached_cycle() {
            self.iterations()
        } else {
            self.iterations() + 1
        }
    }

    /// The run that has seen only the initial state.
    pub open spec fn start(initial: Seq<char>, max_iterations: nat) -> Exploration {
        Exploration { trace: seq![initial], max_iterations }
    }

    /// The run after one more iteration led to a state with fingerprint
    /// `fingerprint`. A finished run takes no further observations.
    pub open spec fn observe(self, fingerprint: Seq<char>) -> Exploration {
        if self.finished() {
            self
        } else {
            Exploration { trace: self.trace.push(fingerprint), max_iterations: self.max_iterations }
        }
    }
}

/// A fresh run is valid.
pub proof fn lemma_start_valid(initial: Seq<char>, max_iterations: nat)
    ensures
        Exploration::start(initial, max_iterations).valid(),
        Exploration::start(initial, max_iterations).iterations() == 0,
        !Exploration::start(initial, max_iterations).reached_cycle(),
{
}

/// Observing a state keeps a run valid, and adds one iteration unless the
/// run was over.
pub proof fn lemma_observe_valid(run: Exploration, fingerprint: Seq<char>)
    requires
        run.valid(),
    ensures
        run.observe(fingerprint).valid(),
        run.observe(fingerprint).max_iterations == run.max_iterations,
        !run.finished() ==> run.observe(fingerprint).iterations() == run.iterations() + 1,
{
    if !run.finished() {
        let next = run.observe(fingerprint);
        let n = run.iterations();
        assert forall|a: int, b: int| 0 <= a < b < next.trace.len() - 1 implies next.trace[a]
            != next.trace[b] by {
            if b == n {
                assert(run.trace[a] == next.trace[a]);
                assert(run.trace[n] == next.trace[n]);
                if run.trace[a] == run.trace[n] {
                    assert(revisits(run.trace, n));
                }
            } else {
                assert(run.trace[a] == next.trace[a]);
                assert(run.trace[b] == next.trace[b]);
            }
        }
    }
}

/// The run obtained by observing a recorded sequence of fingerprints one
/// after the other: entry 0 starts the run, and entries past the end of the
/// run are not looked at.
pub open spec fn replay(recorded: Seq<Seq<char>>, max_iterations: nat) -> Exploration
    decreases recorded.len(),
{
    if recorded.len() <= 1 {
        Exploration::start(recorded[0], max_iterations)
    } else {
        replay(recorded.drop_last(), max_iterations).observe(recorded.last())
    }
}

/// Replaying a recording gives a valid run whose trace is the recording up
/// to the point where the run ended.
pub proof fn lemma_replay(recorded: Seq<Seq<char>>, max_iterations: nat)
    requires
        recorded.len() >= 1,
    ensures
        replay(recorded, max_iterations).valid(),
        replay(recorded, max_iterations).max_iterations == max_iterations,
        replay(recorded, max_iterations).trace.len() <= recorded.len(),
        replay(recorded, max_iterations).trace == recorded.take(
            replay(recorded, max_iterations).trace.len() as int,
        ),
        replay(recorded, max_iterations).finished() || replay(recorded, max_iterations).trace
            == recorded,
    decreases recorded.len(),
{
    if recorded.len() <= 1 {
        assert(recorded.take(1) =~= seq![recorded[0]]);
        assert(seq![recorded[0]] =~= recorded);
    } else {
        let front = recorded.drop_last();
        let before = replay(front, max_iterations);
        lemma_replay(front, max_iterations);
        lemma_observe_valid(before, recorded.last());
        let after = before.observe(recorded.last());
        if before.finished() {
            assert(front.take(before.trace.len() as int) =~= recorded.take(
                before.trace.len() as int,
            ));
        } else {
            assert(before.trace == front);
            assert(after.trace =~= recorded);
            assert(recorded.take(recorded.len() as int) =~= recorded);
        }
    }
}

/// A state that the map leaves in place is a cycle of period 1 with no
/// transient: where the first iteration reproduces the initial fingerprint,
/// the run ends there, whatever was recorded after it.
pub proof fn lemma_fixed_point(recorded: Seq<Seq<char>>, max_iterations: nat)
    requires
        recorded.len() >= 2,
        recorded[1] == recorded[0],
        max_iterations >= 1,
    ensures
        replay(recorded, max_iterations).reached_cycle(),
        replay(recorded, max_iterations).period() == Some(1int),
        replay(recorded, max_iterations).transient_length() == 0,
        replay(recorded, max_iterations).unique_states() == 1,
        replay(recorded, max_iterations).trace == recorded.take(2),
    decreases recorded.len(),
{
    let first = Exploration::start(recorded[0], max_iterations);
    if recorded.len() == 2 {
        assert(recorded.drop_last() =~= seq![recorded[0]]);
        assert(replay(recorded.drop_last(), max_iterations) == first);
        let run = first.observe(recorded[1]);
        assert(run.trace =~= recorded.take(2));
        assert(run.trace[0] == run.trace[1]);
        assert(revisits(run.trace, 1));
        assert(first_visit(run.trace, 1) == 0);
    } else {
        let front = recorded.drop_last();
        lemma_fixed_point(front, max_iterations);
        assert(front.take(2) =~= recorded.take(2));
    }
}

/// A reported cycle is the first return to a state: with transient length
/// `j` and period `p`, iterations `j` and `j + p` have equal fingerprints,
/// no iteration strictly between them has that fingerprint, and the
/// `j + p` states before the return are pairwise distinct.
pub proof fn lemma_cycle_is_first_return(run: Exploration)
    requires
        run.valid(),
        run.reached_cycle(),
    ensures
        run.period().is_some(),
        run.period().unwrap() >= 1,
        run.transient_length() >= 0,
        run.transient_length() + run.period().unwrap() == run.iterations(),
        run.unique_states() == run.transient_length() + run.period().unwrap(),
        run.unique_states() <= run.max_iterations,
        run.trace[run.transient_length()] == run.trace[run.transient_length()
            + run.period().unwrap()],
        forall|k: int|
            run.transient_length() < k < run.transient_length() + run.period().unwrap()
                ==> #[trigger] run.trace[k] != run.trace[run.transient_length()],
        distinct_before(run.trace, run.transient_length() + run.period().unwrap()),
{
}

/// A cycle reported for a recording can be read off the recording itself:
/// with transient length `j` and period `p`, entries `j` and `j + p` are
/// equal, and no entry strictly between them equals entry `j`.
pub proof fn lemma_recorded_cycle(recorded: Seq<Seq<char>>, max_iterations: nat)
    requires
        recorded.len() >= 1,
        replay(recorded, max_iterations).reached_cycle(),
    ensures
        replay(recorded, max_iterations).period().is_some(),
        replay(recorded, max_iterations).period().unwrap() >= 1,
        0 <= replay(recorded, max_iterations).transient_length(),
        replay(recorded, max_iterations).transient_length() + replay(
            recorded,
            max_iterations,
        ).period().unwrap() < recorded.len(),
        recorded[replay(recorded, max_iterations).transient_length()]
            == recorded[replay(recorded, max_iterations).transient_length() + replay(
            recorded,
            max_iterations,
        ).period().unwrap()],
        forall|k: int|
            replay(recorded, max_iterations).transient_length() < k < replay(
                recorded,
                max_iterations,
            ).transient_length() + replay(recorded, max_iterations).period().unwrap()
                ==> #[trigger] recorded[k] != recorded[replay(
                recorded,
                max_iterations,
            ).transient_length()],
{
    let run = replay(recorded, max_iterations);
    lemma_replay(recorded, max_iterations);
    lemma_cycle_is_first_return(run);
    let j = run.transient_length();
    let p = run.period().unwrap();
    assert(run.trace[j] == recorded[j]);
    assert(run.trace[j + p] == recorded[j + p]);
    assert forall|k: int| j < k < j + p implies #[trigger] recorded[k] != recorded[j] by {
        assert(run.trace[k] == recorded[k]);
    }
}

/// A run that used up its budget without finding a cycle has visited one
/// state per iteration and the initial state, all of them distinct.
pub proof fn lemma_budget_exhausted(run: Exploration)
    requires
        run.valid(),
        run.finished(),
        !run.reached_cycle(),
    ensures
        run.iterations() == run.max_iterations,
        run.unique_states() == run.max_iterations + 1,
        run.period().is_none(),
        run.transient_length() == 0,
        distinct_before(run.trace, run.iterations() + 1),
{
    let n = run.iterations();
    assert forall|a: int, b: int| 0 <= a < b < n + 1 implies run.trace[a] != run.trace[b] by {
        if b == n && run.trace[a] == run.trace[b] {
            assert(revisits(run.trace, n));
        }
    }
}

/// The summary record of a run.
#[derive(Clone, Debug)]
pub struct TrajectoryStats {
    pub puzzle_id: String,
    pub puzzle_name: String,
    pub dimension: usize,
    pub move_sequence: Vec<String>,
    /// The length of the cycle; `None` if no cycle was found.
    pub period: Option<usize>,
    /// The number of iterations before the trajectory enters its cycle.
    pub transient_length: usize,
    /// The number of distinct states on the trajectory.
    pub unique_states_visited: usize,
    /// The iteration budget of the run.
    pub max_iterations: usize,
    /// Whether a state recurred within the budget.
    pub reached_cycle: bool,
    pub exploration_time_ms: u128,
}

/// The mathematical model of a `TrajectoryStats`.
pub struct TrajectorySummary {
    pub puzzle_id: Seq<char>,
    pub puzzle_name: Seq<char>,
    pub dimension: int,
    pub move_sequence: Seq<Seq<char>>,
    pub period: Option<int>,
    pub transient_length: int,
    pub unique_states_visited: int,
    pub max_iterations: int,
    pub reached_cycle: bool,
    pub exploration_time_ms: int,
}

impl View for TrajectoryStats {
    type V = TrajectorySummary;

    open spec fn view(&self) -> TrajectorySummary {
        TrajectorySummary {
            puzzle_id: self.puzzle_id@,
            puzzle_name: self.puzzle_name@,
            dimension: self.dimension as int,
            move_sequence: self.move_sequence@.map_values(|name: String| name@),
            period: match self.period {
                Some(p) => Some(p as int),
                None => None,
            },
            transient_length: self.transient_length as int,
            unique_states_visited: self.unique_states_visited as int,
            max_iterations: self.max_iterations as int,
            reached_cycle: self.reached_cycle,
            exploration_time_ms: self.exploration_time_ms as int,
        }
    }
}

/// The summary of `run` on `puzzle` under the move sequence `moves`.
pub open spec fn summary(
    run: Exploration,
    puzzle: Puzzle,
    moves: Seq<LayeredTwist>,
    dimension: int,
    exploration_time_ms: int,
) -> TrajectorySummary {
    TrajectorySummary {
        puzzle_id: puzzle.id@,
        puzzle_name: puzzle.name@,
        dimension,
        move_sequence: display_names(puzzle.twists@, moves),
        period: run.period(),
        transient_length: run.transient_length(),
        unique_states_visited: run.unique_states(),
        max_iterations: run.max_iterations as int,
        reached_cycle: run.reached_cycle(),
        exploration_time_ms,
    }
}

/// The visit history of a run, and what the run has found so far.
///
/// The history maps each fingerprint to the iteration at which it was first
/// observed. It only grows: nothing is evicted, so a run needs memory in
/// proportion to the number of distinct states it visits.
pub struct Explorer {
    visited: StringHashMap<usize>,
    iteration: usize,
    max_iterations: usize,
    period: Option<usize>,
    transient_length: usize,
    reached_cycle: bool,
    trace: Ghost<Seq<Seq<char>>>,
}

impl View for Explorer {
    type V = Exploration;

    closed spec fn view(&self) -> Exploration {
        Exploration { trace: self.trace@, max_iterations: self.max_iterations as nat }
    }
}

impl Explorer {
    #[verifier::type_invariant]
    spec fn inv(&self) -> bool {
        let run = self@;
        &&& run.valid()
        &&& self.iteration == run.iterations()
        &&& self.reached_cycle == run.reached_cycle()
        &&& self.transient_length == run.transient_length()
        &&& match self.period {
            Some(p) => run.period() == Some(p as int),
            None => run.period().is_none(),
        }
        &&& self.visited@.dom().finite()
        &&& self.visited@.len() == run.unique_states()
        &&& forall|i: int|
            0 <= i < run.unique_states() ==> #[trigger] self.visited@.contains_key(run.trace[i])
                && self.visited@[run.trace[i]] == i
        &&& forall|key: Seq<char>| #[trigger]
            self.visited@.contains_key(key) ==> 0 <= self.visited@[key] < run.unique_states()
                && run.trace[self.visited@[key] as int] == key
    }

    /// Starts a run at the state whose content snapshot is `initial_snapshot`:
    /// the initial state is iteration 0 of the visit history.
    pub fn new(initial_snapshot: &[u8], max_iterations: usize) -> (explorer: Explorer)
        ensures
            explorer@ == Exploration::start(
                fingerprint_of(initial_snapshot@),
                max_iterations as nat,
            ),
            explorer@.valid(),
    {
        let fingerprint = hash_state(initial_snapshot);
        let ghost trace = seq![fingerprint@];
        let mut visited: StringHashMap<usize> = StringHashMap::new();
        visited.insert(fingerprint, 0);
        proof {
            lemma_start_valid(fingerprint_of(initial_snapshot@), max_iterations as nat);
            assert(visited@.dom() =~= set![trace[0]]);
        }
        Explorer {
            visited,
            iteration: 0,
            max_iterations,
            period: None,
            transient_length: 0,
            reached_cycle: false,
            trace: Ghost(trace),
        }
    }

    /// Records the state reached by one more iteration of the map.
    ///
    /// If its fingerprint is in the history, first seen at iteration `j`, the
    /// run ends with a cycle: the transient length is `j` and the period is
    /// the current iteration minus `j`. Otherwise the fingerprint enters the
    /// history under the current iteration. A finished run is returned as it
    /// is.
    pub fn observe(self, snapshot: &[u8]) -> (next: Explorer)
        ensures
            next@ == self@.observe(fingerprint_of(snapshot@)),
            next@.valid(),
    {
        proof {
            use_type_invariant(&self);
            lemma_observe_valid(self@, fingerprint_of(snapshot@));
        }
        if self.reached_cycle || self.iteration == self.max_iterations {
            return self;
        }
        let ghost before = self@;
        let fingerprint = hash_state(snapshot);
        let ghost trace = self.trace@.push(fingerprint@);
        let iteration: usize = self.iteration + 1;
        let max_iterations = self.max_iterations;
        let mut visited = self.visited;
        let ghost after = Exploration { trace, max_iterations: max_iterations as nat };
        let seen = match visited.get(fingerprint.as_str()) {
            Some(first) => Some(*first),
            None => None,
        };
        match seen {
            Some(first) => {
                proof {
                    assert(before.trace[first as int] == fingerprint@);
                    assert(trace[first as int] == trace[iteration as int]);
                    assert(revisits(trace, iteration as int));
                    let chosen = first_visit(trace, iteration as int);
                    assert(trace[chosen] == before.trace[chosen]);
                    assert(visited@.contains_key(before.trace[chosen]));
                    assert(chosen == first);
                    assert forall|i: int| 0 <= i < after.unique_states() implies #[trigger]
                        visited@.contains_key(trace[i]) && visited@[trace[i]] == i by {
                        assert(after.unique_states() == iteration);
                        assert(before.unique_states() == iteration);
                        assert(trace[i] == before.trace[i]);
                        assert(visited@.contains_key(before.trace[i]));
                    }
                }
                Explorer {
                    visited,
                    iteration,
                    max_iterations,
                    period: Some(iteration - first),
                    transient_length: first,
                    reached_cycle: true,
                    trace: Ghost(trace),
                }
            },
            None => {
                let ghost old_map = visited@;
                visited.insert(fingerprint, iteration);
                proof {
                    assert(!revisits(trace, iteration as int)) by {
                        if revisits(trace, iteration as int) {
                            let j = first_visit(trace, iteration as int);
                            assert(trace[j] == before.trace[j]);
                            assert(old_map.contains_key(before.trace[j]));
                        }
                    }
                    assert forall|i: int| 0 <= i < after.unique_states() implies #[trigger]
                        visited@.contains_key(trace[i]) && visited@[trace[i]] == i by {
                        if i < iteration {
                            assert(trace[i] == before.trace[i]);
                            assert(old_map.contains_key(before.trace[i]));
                        }
                    }
                    assert forall|key: Seq<char>| #[trigger]
                        visited@.contains_key(key) implies 0 <= visited@[key]
                        < after.unique_states() && trace[visited@[key] as int] == key by {
                        if key != fingerprint@ {
                            assert(old_map.contains_key(key));
                            assert(trace[old_map[key] as int] == before.trace[old_map[key] as int]);
                        }
                    }
                }
                Explorer {
                    visited,
                    iteration,
                    max_iterations,
                    period: None,
                    transient_length: 0,
                    reached_cycle: false,
                    trace: Ghost(trace),
                }
            },
        }
    }

    /// Whether the run is over.
    pub fn is_finished(&self) -> (finished: bool)
        ensures
            finished == self@.finished(),
            self@.valid(),
    {
        proof {
            use_type_invariant(self);
        }
        self.reached_cycle || self.iteration == self.max_iterations
    }

    /// The number of iterations of the map observed so far.
    pub fn iterations(&self) -> (n: usize)
        ensures
            n == self@.iterations(),
    {
        proof {
            use_type_invariant(self);
        }
        self.iteration
    }

    /// The iteration budget of the run.
    pub fn max_iterations(&self) -> (n: usize)
        ensures
            n == self@.max_iterations,
    {
        self.max_iterations
    }

    /// The number of distinct fingerprints in the visit history.
    pub fn unique_states_visited(&self) -> (n: usize)
        ensures
            n == self@.unique_states(),
    {
        proof {
            use_type_invariant(self);
        }
        self.visited.len()
    }

    /// Whether the latest state was seen before.
    pub fn reached_cycle(&self) -> (found: bool)
        ensures
            found == self@.reached_cycle(),
    {
        proof {
            use_type_invariant(self);
        }
        self.reached_cycle
    }

    /// The length of the cycle, once one was found.
    pub fn period(&self) -> (period: Option<usize>)
        ensures
            match period {
                Some(p) => self@.period() == Some(p as int),
                None => self@.period().is_none(),
            },
    {
        proof {
            use_type_invariant(self);
        }
        self.period
    }

    /// The number of iterations before the trajectory enters its cycle;
    /// zero as long as no cycle was found.
    pub fn transient_length(&self) -> (n: usize)
        ensures
            n == self@.transient_length(),
    {
        proof {
            use_type_invariant(self);
        }
        self.transient_length
    }

    /// Assembles the summary record of the run as it stands.
    pub fn summarize(
        &self,
        puzzle: &Puzzle,
        move_sequence: &[LayeredTwist],
        dimension: usize,
        exploration_time_ms: u128,
    ) -> (stats: TrajectoryStats)
        ensures
            stats@ == summary(
                self@,
                *puzzle,
                move_sequence@,
                dimension as int,
                exploration_time_ms as int,
            ),
            self@.valid(),
    {
        proof {
            use_type_invariant(self);
        }
        let names = puzzle.move_names(move_sequence);
        let stats = TrajectoryStats {
            puzzle_id: puzzle.id.clone(),
            puzzle_name: puzzle.name.clone(),
            dimension,
            move_sequence: names,
            period: self.period,
            transient_length: self.transient_length,
            unique_states_visited: self.visited.len(),
            max_iterations: self.max_iterations,
            reached_cycle: self.reached_cycle,
            exploration_time_ms,
        };
        assert(stats@.move_sequence =~= display_names(puzzle.twists@, move_sequence@));
        stats
    }
}

/// The failure of a twist that the puzzle does not allow in a state.
#[derive(Clone, Copy, Debug, PartialEq, Eq, Structural)]
pub struct Blocked;

/// What the explorer needs of a puzzle state.
///
/// Nothing is assumed of an implementation: whatever it returns, the
/// explorer's results are those of the run that observed these snapshots.
pub trait PuzzleState: Sized {
    /// The state after `twist`, or `Blocked` where the twist cannot be made.
    fn do_twist(&self, twist: LayeredTwist) -> Result<Self, Blocked>;

    /// A content snapshot: bytes that determine the configuration.
    fn snapshot(&self) -> Vec<u8>;
}

/// What is to be done next within one iteration of the map.
#[derive(Clone, Copy, Debug, PartialEq, Eq, Structural)]
pub enum Step {
    /// Apply this twist to the current state.
    Twist(LayeredTwist),
    /// The iteration is over: take the snapshot of the current state.
    Snapshot,
}

/// The step that follows once `applied` twists of the sequence were made;
/// `blocked` says that the twist tried after them failed.
pub open spec fn step_after(moves: Seq<LayeredTwist>, applied: int, blocked: bool) -> Step {
    if !blocked && 0 <= applied < moves.len() {
        Step::Twist(moves[applied])
    } else {
        Step::Snapshot
    }
}

/// Decides the next step of an iteration.
///
/// The twists are made in order. A blocked twist is not fatal: it ends the
/// iteration early, the twists after it are left out, and the state reached
/// so far is the one whose snapshot is taken.
pub fn next_step(move_sequence: &[LayeredTwist], applied: usize, blocked: bool) -> (step: Step)
    ensures
        step == step_after(move_sequence@, applied as int, blocked),
{
    if !blocked && applied < move_sequence.len() {
        Step::Twist(move_sequence[applied])
    } else {
        Step::Snapshot
    }
}

/// `outcome` is what the puzzle can answer when `twist` is asked of `state`.
pub open spec fn twist_gives<S: PuzzleState>(
    state: S,
    twist: LayeredTwist,
    outcome: Result<S, Blocked>,
) -> bool {
    call_ensures(S::do_twist, (&state, twist), outcome)
}

/// `states` are the states that one iteration of the map passed through,
/// from `start` on, when `applied` twists were made: each twist led from
/// one state to the next, and where the iteration stopped short of the
/// sequence's end, the twist that came next was blocked.
pub open spec fn iteration_through<S: PuzzleState>(
    start: S,
    moves: Seq<LayeredTwist>,
    states: Seq<S>,
    applied: int,
) -> bool {
    &&& 0 <= applied <= moves.len()
    &&& states.len() == applied + 1
    &&& states[0] == start
    &&& forall|k: int|
        0 <= k < applied ==> twist_gives(#[trigger] states[k], moves[k], Ok(states[k + 1]))
    &&& applied < moves.len() ==> twist_gives(states[applied], moves[applied], Err(Blocked))
}

/// Carries out one iteration of the map on `state`, step by step as
/// `next_step` decides. Returns the state reached and the number of twists
/// that were made; the number falls short of the sequence's length where a
/// twist was blocked.
pub fn apply_moves<S: PuzzleState>(state: S, move_sequence: &[LayeredTwist]) -> (result: (
    S,
    usize,
))
    ensures
        result.1 <= move_sequence@.len(),
        exists|states: Seq<S>| #[trigger]
            iteration_through(state, move_sequence@, states, result.1 as int) && states.last()
                == result.0,
{
    let mut current = state;
    let length: usize = move_sequence.len();
    let mut applied: usize = 0;
    let mut blocked = false;
    let ghost mut states: Seq<S> = seq![state];
    loop
        invariant
            length == move_sequence@.len(),
            applied <= length,
            states.len() == applied + 1,
            states[0] == state,
            states.last() == current,
            forall|k: int|
                0 <= k < applied ==> twist_gives(
                    #[trigger] states[k],
                    move_sequence@[k],
                    Ok(states[k + 1]),
                ),
            blocked ==> applied < length && twist_gives(
                current,
                move_sequence@[applied as int],
                Err(Blocked),
            ),
        decreases
            length - applied + if blocked {
                0int
            } else {
                1int
            },
    {
        let step = next_step(move_sequence, applied, blocked);
        match step {
            Step::Twist(twist) => {
                let outcome = current.do_twist(twist);
                assert(twist_gives(current, twist, outcome));
                match outcome {
                    Ok(next) => {
                        proof {
                            let ghost before = states;
                            states = states.push(next);
                            assert forall|k: int| 0 <= k < applied + 1 implies twist_gives(
                                #[trigger] states[k],
                                move_sequence@[k],
                                Ok(states[k + 1]),
                            ) by {
                                if k < applied {
                                    assert(states[k] == before[k]);
                                    assert(states[k + 1] == before[k + 1]);
                                }
                            }
                        }
                        current = next;
                        applied = applied + 1;
                    },
                    Err(failure) => {
                        assert(failure == Blocked);
                        blocked = true;
                    },
                }
            },
            Step::Snapshot => {
                assert(iteration_through(state, move_sequence@, states, applied as int));
                return (current, applied);
            },
        }
    }
}

/// `std::time::Instant`, carried through as an opaque value.
#[verifier::external_type_specification]
#[verifier::external_body]
pub struct ExInstant(std::time::Instant);

/// `Instant::now` reads the clock: nothing is claimed of its result.
pub assume_specification[ Instant::now ]() -> (now: Instant)
;

/// `Instant::elapsed` reads the clock: nothing is claimed of its result.
pub assume_specification[ Instant::elapsed ](start: &Instant) -> (elapsed: Duration)
;

/// `Duration::as_millis` gives a duration in whole milliseconds; only its
/// use on clock readings is needed here, so nothing is claimed of its result.
pub assume_specification[ Duration::as_millis ](duration: &Duration) -> (millis: u128)
;

/// `bytes` is what the puzzle can hand over as the snapshot of `state`.
pub open spec fn snapshot_gives<S: PuzzleState>(state: S, bytes: Vec<u8>) -> bool {
    call_ensures(S::snapshot, (&state,), bytes)
}

/// One iteration of the map, made as `apply_moves` makes it, can lead from
/// `from` to `to`.
pub open spec fn iteration_leads<S: PuzzleState>(from: S, moves: Seq<LayeredTwist>, to: S) -> bool {
    exists|states: Seq<S>, applied: int| #[trigger]
        iteration_through(from, moves, states, applied) && states.last() == to
}

/// `states` is a trajectory of the map from `initial` on, `snapshots` holds
/// a snapshot of each of its states, and `trace` their fingerprints.
pub open spec fn records_trajectory<S: PuzzleState>(
    initial: S,
    moves: Seq<LayeredTwist>,
    states: Seq<S>,
    snapshots: Seq<Vec<u8>>,
    trace: Seq<Seq<char>>,
) -> bool {
    &&& states.len() >= 1
    &&& states.len() == trace.len()
    &&& snapshots.len() == trace.len()
    &&& states[0] == initial
    &&& forall|i: int|
        0 <= i < states.len() - 1 ==> iteration_leads(#[trigger] states[i], moves, states[i + 1])
    &&& forall|i: int|
        0 <= i < states.len() ==> snapshot_gives(states[i], #[trigger] snapshots[i])
            && trace[i] == fingerprint_of(snapshots[i]@)
}

/// `stats` is the summary of a finished run with budget `max_iterations`
/// whose trace records a trajectory of the map from `initial` on.
pub open spec fn explored<S: PuzzleState>(
    puzzle: Puzzle,
    initial: S,
    moves: Seq<LayeredTwist>,
    max_iterations: nat,
    dimension: int,
    stats: TrajectorySummary,
) -> bool {
    exists|run: Exploration, states: Seq<S>, snapshots: Seq<Vec<u8>>|
        {
            &&& run.valid()
            &&& run.finished()
            &&& run.max_iterations == max_iterations
            &&& #[trigger] records_trajectory(initial, moves, states, snapshots, run.trace)
            &&& stats == summary(run, puzzle, moves, dimension, stats.exploration_time_ms)
        }
}

/// Follows the trajectory of `initial_state` under the map that applies
/// `move_sequence` once, until a state recurs or `max_iterations`
/// iterations were made, and returns the summary record.
///
/// The states are whatever the puzzle answers; the record is that of the
/// run which observed their snapshots in order.
pub fn explore_trajectory<S: PuzzleState>(
    puzzle: &Puzzle,
    initial_state: S,
    move_sequence: &[LayeredTwist],
    max_iterations: usize,
    dimension: usize,
) -> (stats: TrajectoryStats)
    ensures
        explored(
            *puzzle,
            initial_state,
            move_sequence@,
            max_iterations as nat,
            dimension as int,
            stats@,
        ),
        stats.reached_cycle <==> stats.period.is_some(),
        !stats.reached_cycle ==> stats.unique_states_visited == max_iterations + 1
            && stats.transient_length == 0,
        stats.reached_cycle ==> stats.period.unwrap() >= 1 && stats.transient_length
            + stats.period.unwrap() == stats.unique_states_visited
            && stats.unique_states_visited <= max_iterations,
{
    let start = Instant::now();
    let first = initial_state.snapshot();
    let mut current = initial_state;
    let mut explorer = Explorer::new(first.as_slice(), max_iterations);
    let ghost mut states: Seq<S> = seq![initial_state];
    let ghost mut snapshots: Seq<Vec<u8>> = seq![first];
    while !explorer.is_finished()
        invariant
            explorer@.valid(),
            explorer@.max_iterations == max_iterations,
            records_trajectory(
                initial_state,
                move_sequence@,
                states,
                snapshots,
                explorer@.trace,
            ),
            states.last() == current,
        decreases max_iterations - explorer@.iterations(),
    {
        let ghost before = explorer@;
        let ghost old_states = states;
        let ghost old_snapshots = snapshots;
        let ghost from = current;
        let (next, _) = apply_moves(current, move_sequence);
        current = next;
        let reached = current.snapshot();
        explorer = explorer.observe(reached.as_slice());
        proof {
            lemma_observe_valid(before, fingerprint_of(reached@));
            assert(iteration_leads(from, move_sequence@, current));
            states = old_states.push(current);
            snapshots = old_snapshots.push(reached);
            let trace = explorer@.trace;
            assert(trace == before.trace.push(fingerprint_of(reached@)));
            assert forall|i: int| 0 <= i < states.len() - 1 implies iteration_leads(
                #[trigger] states[i],
                move_sequence@,
                states[i + 1],
            ) by {
                if i < old_states.len() - 1 {
                    assert(states[i] == old_states[i]);
                    assert(states[i + 1] == old_states[i + 1]);
                }
            }
            assert forall|i: int| 0 <= i < states.len() implies snapshot_gives(
                states[i],
                #[trigger] snapshots[i],
            ) && trace[i] == fingerprint_of(snapshots[i]@) by {
                if i < old_states.len() {
                    assert(states[i] == old_states[i]);
                    assert(snapshots[i] == old_snapshots[i]);
                    assert(trace[i] == before.trace[i]);
                }
            }
        }
    }
    let elapsed = start.elapsed().as_millis();
    let stats = explorer.summarize(puzzle, move_sequence, dimension, elapsed);
    proof {
        let run = explorer@;
        if run.reached_cycle() {
            lemma_cycle_is_first_return(run);
        } else {
            lemma_budget_exhausted(run);
        }
        assert(records_trajectory(initial_state, move_sequence@, states, snapshots, run.trace));
    }
    stats
}

} // verus!
