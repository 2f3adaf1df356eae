//! A model of the guard under concurrency.
//!
//! The executable guard serializes callers with a binary access token;
//! this module states what that discipline buys when many tasks contend
//! for it. A protocol state records the phase of each task (waiting for
//! the token, inside its access, or done), whether the token is held,
//! and the completion log: the single shared record that each access
//! extends, standing for the one resource that every action mutates.
//!
//! The laws proved here: the protocol invariant holds initially and is
//! preserved by every step; at most one task is ever inside its access
//! (mutual exclusion); while any task is unfinished a step is enabled
//! and strictly decreases a measure, so every maximal run ends with all
//! tasks done (liveness); a task acquiring the token observes exactly
//! the effects of the tasks that completed before it (visibility on the
//! single shared resource); and a completed run has written each task's
//! effect exactly once.

use vstd::prelude::*;
use vstd::set_lib::lemma_int_range;
use vstd::set_lib::lemma_len_subset;
use vstd::set_lib::set_int_range;

use crate::lines::lemma_hello_line_injective;
use crate::lines::spec_hello_line;

verus! {

/// The phase of one task with respect to the guard.
pub enum TaskPhase {
    /// The task has not yet been granted the token.
    Waiting,
    /// The task holds the token and its action is running.
    Critical,
    /// The task's action has finished and the token was released.
    Done,
}

/// A state of the whole system: one phase per task, the token, and the
/// completion log (the indices of finished tasks, in completion order).
pub struct ProtocolState {
    pub phases: Seq<TaskPhase>,
    pub token_held: bool,
    pub log: Seq<int>,
}

/// The initial state for `n` tasks: all waiting, token available,
/// nothing written yet.
pub open spec fn init(s: ProtocolState, n: nat) -> bool {
    &&& s.phases.len() == n
    &&& forall|i: int| 0 <= i < n ==> s.phases[i] is Waiting
    &&& !s.token_held
    &&& s.log == Seq::<int>::empty()
}

/// Task `i` consumes the available token and enters its access.
pub open spec fn acquire_step(s: ProtocolState, s2: ProtocolState, i: int) -> bool {
    &&& 0 <= i < s.phases.len()
    &&& s.phases[i] is Waiting
    &&& !s.token_held
    &&& s2.phases == s.phases.update(i, TaskPhase::Critical)
    &&& s2.token_held
    &&& s2.log == s.log
}

/// Task `i` finishes its access: its effect is appended to the shared
/// log and the token is released.
pub open spec fn release_step(s: ProtocolState, s2: ProtocolState, i: int) -> bool {
    &&& 0 <= i < s.phases.len()
    &&& s.phases[i] is Critical
    &&& s.token_held
    &&& s2.phases == s.phases.update(i, TaskPhase::Done)
    &&& !s2.token_held
    &&& s2.log == s.log.push(i)
}

/// One step of the protocol: some task acquires or releases.
pub open spec fn next(s: ProtocolState, s2: ProtocolState) -> bool {
    exists|i: int| acquire_step(s, s2, i) || release_step(s, s2, i)
}

/// Mutual exclusion: no two distinct tasks are inside their access at
/// the same instant.
pub open spec fn mutual_exclusion(s: ProtocolState) -> bool {
    forall|i: int, j: int|
        0 <= i < s.phases.len() && 0 <= j < s.phases.len() && #[trigger] s.phases[i] is Critical
            && #[trigger] s.phases[j] is Critical ==> i == j
}

/// The protocol invariant: mutual exclusion; the token is held exactly
/// when some task is inside its access; and the log holds exactly the
/// indices of the finished tasks, each at most once.
pub open spec fn inv(s: ProtocolState) -> bool {
    &&& mutual_exclusion(s)
    &&& (s.token_held <==> exists|i: int| 0 <= i < s.phases.len() && #[trigger] s.phases[i] is Critical)
    &&& forall|k: int| 0 <= k < s.log.len() ==> 0 <= #[trigger] s.log[k] < s.phases.len() && s.phases[s.log[k]] is Done
    &&& s.log.no_duplicates()
    &&& forall|i: int| 0 <= i < s.phases.len() && #[trigger] s.phases[i] is Done ==> s.log.contains(i)
}

/// Every task has finished.
pub open spec fn all_done(s: ProtocolState) -> bool {
    forall|i: int| 0 <= i < s.phases.len() ==> #[trigger] s.phases[i] is Done
}

/// The invariant holds in every initial state.
pub proof fn lemma_init_inv(s: ProtocolState, n: nat)
    requires
        init(s, n),
    ensures
        inv(s),
{
}

/// The invariant is preserved by every step of the protocol; with
/// `lemma_init_inv`, it holds in every reachable state, so no two
/// actions ever run against the resource at once.
pub proof fn lemma_next_inv(s: ProtocolState, s2: ProtocolState)
    requires
        inv(s),
        next(s, s2),
    ensures
        inv(s2),
{
    let i = choose|i: int| acquire_step(s, s2, i) || release_step(s, s2, i);
    if acquire_step(s, s2, i) {
        assert(s2.phases[i] is Critical);
        assert(forall|k: int| 0 <= k < s2.phases.len() && k != i ==> s2.phases[k] == s.phases[k]);
    } else {
        assert(s2.phases[i] is Done);
        assert(forall|k: int| 0 <= k < s2.phases.len() && k != i ==> s2.phases[k] == s.phases[k]);
        assert(forall|k: int| 0 <= k < s.log.len() ==> #[trigger] s.log[k] != i);
        assert(s2.log.no_duplicates());
        assert(forall|j: int| 0 <= j < s2.phases.len() && #[trigger] s2.phases[j] is Done ==> s2.log.contains(j)) by {
            assert(forall|j: int| s.log.contains(j) ==> #[trigger] s2.log.contains(j)) by {
                assert(forall|k: int| 0 <= k < s.log.len() ==> s2.log[k] == #[trigger] s.log[k]);
            }
            assert(s2.log[s.log.len() as int] == i);
        }
    }
}

/// A run of the protocol for `n` tasks: an initial state followed by
/// any number of steps.
pub open spec fn is_run(run: Seq<ProtocolState>, n: nat) -> bool {
    &&& run.len() >= 1
    &&& init(run[0], n)
    &&& forall|k: int| 0 <= k < run.len() - 1 ==> #[trigger] next(run[k], run[k + 1])
}

/// Mutual exclusion, over whole executions: in every state of every run
/// of the protocol, no two tasks are inside their access at once — the
/// intervals in which actions run against the resource never overlap.
pub proof fn lemma_run_mutual_exclusion(run: Seq<ProtocolState>, n: nat, k: int)
    requires
        is_run(run, n),
        0 <= k < run.len(),
    ensures
        inv(run[k]),
        mutual_exclusion(run[k]),
    decreases k,
{
    if k == 0 {
        lemma_init_inv(run[0], n);
    } else {
        lemma_run_mutual_exclusion(run, n, k - 1);
        assert(next(run[k - 1], run[k - 1 + 1]));
        lemma_next_inv(run[k - 1], run[k]);
    }
}

/// Weight of a phase toward the termination measure.
pub open spec fn phase_weight(p: TaskPhase) -> nat {
    match p {
        TaskPhase::Waiting => 2,
        TaskPhase::Critical => 1,
        TaskPhase::Done => 0,
    }
}

/// The termination measure: total weight of all task phases.
pub open spec fn measure_of(phases: Seq<TaskPhase>) -> nat
    decreases phases.len(),
{
    if phases.len() == 0 {
        0
    } else {
        measure_of(phases.drop_last()) + phase_weight(phases.last())
    }
}

/// Updating one task's phase shifts the measure by the difference of
/// the two weights.
proof fn lemma_measure_update(phases: Seq<TaskPhase>, i: int, p: TaskPhase)
    requires
        0 <= i < phases.len(),
    ensures
        measure_of(phases.update(i, p)) + phase_weight(phases[i]) == measure_of(phases)
            + phase_weight(p),
    decreases phases.len(),
{
    if i == phases.len() - 1 {
        assert(phases.update(i, p).drop_last() =~= phases.drop_last());
    } else {
        assert(phases.update(i, p).drop_last() =~= phases.drop_last().update(i, p));
        lemma_measure_update(phases.drop_last(), i, p);
    }
}

/// Every step strictly decreases the measure: no run of the protocol
/// goes on forever.
pub proof fn lemma_step_decreases(s: ProtocolState, s2: ProtocolState)
    requires
        next(s, s2),
    ensures
        measure_of(s2.phases) < measure_of(s.phases),
{
    let i = choose|i: int| acquire_step(s, s2, i) || release_step(s, s2, i);
    if acquire_step(s, s2, i) {
        lemma_measure_update(s.phases, i, TaskPhase::Critical);
    } else {
        lemma_measure_update(s.phases, i, TaskPhase::Done);
    }
}

/// Liveness: in any reachable state where some task is unfinished, a
/// step is enabled, it preserves the invariant, and it decreases the
/// measure — so every maximal run ends with all tasks done, and no
/// waiter is stuck forever behind a held token.
pub proof fn lemma_liveness(s: ProtocolState)
    requires
        inv(s),
        !all_done(s),
    ensures
        exists|s2: ProtocolState|
            #[trigger] next(s, s2) && inv(s2) && measure_of(s2.phases) < measure_of(s.phases),
{
    if s.token_held {
        let i = choose|i: int| 0 <= i < s.phases.len() && #[trigger] s.phases[i] is Critical;
        let s2 = ProtocolState {
            phases: s.phases.update(i, TaskPhase::Done),
            token_held: false,
            log: s.log.push(i),
        };
        assert(release_step(s, s2, i));
        assert(next(s, s2));
        lemma_next_inv(s, s2);
        lemma_step_decreases(s, s2);
    } else {
        let i = choose|i: int| 0 <= i < s.phases.len() && !(#[trigger] s.phases[i] is Done);
        assert(s.phases[i] is Waiting);
        let s2 = ProtocolState {
            phases: s.phases.update(i, TaskPhase::Critical),
            token_held: true,
            log: s.log,
        };
        assert(acquire_step(s, s2, i));
        assert(next(s, s2));
        lemma_next_inv(s, s2);
        lemma_step_decreases(s, s2);
    }
}

/// Visibility on the single shared resource: a task that acquires the
/// token observes a log holding exactly the effects of the tasks that
/// completed before it — every earlier effect is visible, and nothing
/// else is there.
pub proof fn lemma_acquire_sees_completed(s: ProtocolState, s2: ProtocolState, i: int)
    requires
        inv(s),
        acquire_step(s, s2, i),
    ensures
        forall|j: int|
            #[trigger] s.log.contains(j) <==> 0 <= j < s.phases.len() && s.phases[j] is Done,
{
    assert(forall|j: int| #[trigger] s.log.contains(j) ==> 0 <= j < s.phases.len() && s.phases[j] is Done) by {
        assert(forall|j: int| s.log.contains(j) ==> exists|k: int| 0 <= k < s.log.len() && #[trigger] s.log[k] == j);
    }
}

/// A completed run has written every task's effect to the one shared
/// log exactly once: the log enumerates the task indices, each once,
/// in some order.
pub proof fn lemma_complete_run_log(s: ProtocolState)
    requires
        inv(s),
        all_done(s),
    ensures
        s.log.no_duplicates(),
        forall|i: int| 0 <= i < s.phases.len() ==> s.log.contains(i),
        forall|k: int| 0 <= k < s.log.len() ==> 0 <= #[trigger] s.log[k] < s.phases.len(),
        s.log.len() == s.phases.len(),
{
    let n = s.phases.len() as int;
    assert forall|i: int| 0 <= i < s.phases.len() implies #[trigger] s.log.contains(i) by {
        assert(s.phases[i] is Done);
    }
    let range = set_int_range(0, n);
    lemma_int_range(0, n);
    s.log.unique_seq_to_set();
    assert(s.log.to_set().subset_of(range)) by {
        assert(forall|j: int| #[trigger] s.log.to_set().contains(j) ==> s.log.contains(j));
    }
    lemma_len_subset(s.log.to_set(), range);
    assert forall|j: int| range.contains(j) implies #[trigger] s.log.to_set().contains(j) by {
        assert(s.log.contains(j));
    }
    lemma_len_subset(range, s.log.to_set());
}

/// The lines standing on the shared resource after the run: one greeting
/// line per completed access, in completion order.
pub open spec fn transcript_lines(s: ProtocolState) -> Seq<Seq<u8>> {
    s.log.map_values(|i: int| spec_hello_line(i as nat))
}

/// No corruption: a completed run of `n` tasks leaves exactly `n`
/// complete greeting lines on the shared resource, no line repeated, and
/// every task's own line among them.
pub proof fn lemma_complete_run_lines(s: ProtocolState)
    requires
        inv(s),
        all_done(s),
    ensures
        transcript_lines(s).len() == s.phases.len(),
        transcript_lines(s).no_duplicates(),
        forall|i: int|
            0 <= i < s.phases.len() ==> #[trigger] transcript_lines(s).contains(spec_hello_line(i as nat)),
{
    lemma_complete_run_log(s);
    let lines = transcript_lines(s);
    assert forall|k: int, l: int|
        0 <= k < lines.len() && 0 <= l < lines.len() && k != l implies lines[k] != lines[l] by {
        assert(s.log[k] != s.log[l]);
        if lines[k] == lines[l] {
            lemma_hello_line_injective(s.log[k] as nat, s.log[l] as nat);
        }
    }
    assert forall|i: int|
        0 <= i < s.phases.len() implies #[trigger] lines.contains(spec_hello_line(i as nat)) by {
        assert(s.log.contains(i));
        let k = choose|k: int| 0 <= k < s.log.len() && s.log[k] == i;
        assert(lines[k] == spec_hello_line(i as nat));
    }
}

} // verus!
