//! The round-robin scheduler: on each timer tick it puts the interrupted
//! process back into the table and picks the next one.

use vstd::prelude::*;
use crate::process::{Context, Process, ProcessHandler, State, PROCESS_LIMIT, occupied};

verus! {

/// How many slots the cursor moves forward to get from `cursor` to `slot`,
/// going round the table; a full round for `slot == cursor`.
pub open spec fn distance(cursor: int, slot: int) -> int {
    if slot > cursor {
        slot - cursor
    } else {
        slot + PROCESS_LIMIT - cursor
    }
}

/// `slot` is the process that follows `cursor` in round-robin order: it
/// holds a process, and every slot that the cursor passes before it holds
/// none.
pub open spec fn is_successor(table: Seq<Process>, cursor: int, slot: int) -> bool {
    &&& 0 <= slot < PROCESS_LIMIT
    &&& !table[slot].vacant()
    &&& forall|other: int|
        0 <= other < PROCESS_LIMIT && distance(cursor, other) < distance(cursor, slot) ==> (
        #[trigger] table[other]).vacant()
}

/// The table after the interrupted process was put back: where the
/// scheduler has run before and the slot under the cursor is marked
/// running, that slot holds `context` and waits.
pub open spec fn suspended(
    table: Seq<Process>,
    cursor: int,
    initialized: bool,
    context: Context,
) -> Seq<Process> {
    if initialized && table[cursor].state == State::Running {
        table.update(cursor, Process { state: State::Waiting, context, ..table[cursor] })
    } else {
        table
    }
}

/// The table after `slot` was marked running.
pub open spec fn dispatched(table: Seq<Process>, slot: int) -> Seq<Process> {
    table.update(slot, Process { state: State::Running, ..table[slot] })
}

/// The scheduler and the table agree: no slot but the one under the cursor
/// is marked running, and none at all before the scheduler has first run.
pub open spec fn coherent(table: Seq<Process>, cursor: int, initialized: bool) -> bool {
    forall|i: int|
        0 <= i < table.len() && (#[trigger] table[i]).state == State::Running ==> initialized && i
            == cursor
}

/// The state of the scheduler: the slot it chose last, whether it has
/// chosen at all, and the process it chose, which the trap layer resumes.
pub struct Scheduler {
    current_pid: usize,
    initialized: bool,
    next_process: Process,
}

/// What one scheduling decision does, from the scheduler and the table
/// before it to both after it, with the context that it hands out.
///
/// With no process in the table nothing changes and nothing is chosen.
/// Otherwise the interrupted process is put back (see `suspended`), the
/// cursor moves to the slot that follows it (see `is_successor`), that slot
/// is marked running, and its context is handed out.
pub open spec fn decides(
    before: Scheduler,
    table: ProcessHandler,
    context: Context,
    after: Scheduler,
    after_table: ProcessHandler,
    resume: Option<Context>,
) -> bool {
    &&& after_table.pid == table.pid
    &&& !occupied(table.table@) ==> {
        &&& resume is None
        &&& after == before
        &&& after_table == table
    }
    &&& occupied(table.table@) ==> {
        &&& is_successor(table.table@, before.cursor(), after.cursor())
        &&& after.started()
        &&& after_table.table@ == dispatched(
            suspended(table.table@, before.cursor(), before.started(), context),
            after.cursor(),
        )
        &&& after.target() == after_table.table@[after.cursor()]
        &&& resume == Some(after.target().context)
    }
}

impl Scheduler {
    #[verifier::type_invariant]
    spec fn cursor_in_table(self) -> bool {
        self.current_pid < PROCESS_LIMIT
    }

    /// The slot that the scheduler chose last.
    pub closed spec fn cursor(self) -> int {
        self.current_pid as int
    }

    /// The scheduler has chosen a process before.
    pub closed spec fn started(self) -> bool {
        self.initialized
    }

    /// The process that the scheduler chose last, as it stood in the table
    /// at that moment.
    pub closed spec fn target(self) -> Process {
        self.next_process
    }

    /// A scheduler that has not run. Its cursor stands on the last slot, so
    /// that the first choice starts at slot 0.
    pub fn new() -> (scheduler: Scheduler)
        ensures
            scheduler.cursor() == PROCESS_LIMIT - 1,
            !scheduler.started(),
            scheduler.target() == Process::unused(),
    {
        Scheduler {
            current_pid: PROCESS_LIMIT - 1,
            initialized: false,
            next_process: Process::new(),
        }
    }

    /// The slot that the scheduler chose last.
    pub fn current_pid(&self) -> (pid: usize)
        ensures
            pid == self.cursor(),
            pid < PROCESS_LIMIT,
    {
        proof {
            use_type_invariant(self);
        }
        self.current_pid
    }

    /// Whether the scheduler has chosen a process before.
    pub fn is_initialized(&self) -> (initialized: bool)
        ensures
            initialized == self.started(),
    {
        self.initialized
    }

    /// The process that the scheduler chose last.
    pub fn next_process(&self) -> (process: Process)
        ensures
            process == self.target(),
    {
        self.next_process
    }

    /// Moves the cursor to the next slot, and from the last slot to the
    /// first.
    pub fn next_pid(&mut self)
        ensures
            final(self).cursor() == (if old(self).cursor() >= PROCESS_LIMIT - 1 {
                0
            } else {
                old(self).cursor() + 1
            }),
            0 <= final(self).cursor() < PROCESS_LIMIT,
            final(self).started() == old(self).started(),
            final(self).target() == old(self).target(),
    {
        proof {
            use_type_invariant(&*self);
        }
        if self.current_pid >= PROCESS_LIMIT - 1 {
            self.current_pid = 0;
        } else {
            self.current_pid += 1;
        }
    }

    /// One scheduling decision, taken on a timer tick with the `context` of
    /// the interrupted execution.
    ///
    /// See `decides` for what it does.
    pub fn next(&mut self, table: &mut ProcessHandler, context: Context) -> (resume: Option<
        Context,
    >)
        ensures
            decides(*old(self), *old(table), context, *final(self), *final(table), resume),
    {
        proof {
            use_type_invariant(&*self);
        }
        if !table.is_occupied() {
            return None;
        }
        let ghost start = self.current_pid as int;
        let ghost entries = table.table@;
        if !self.initialized {
            self.initialized = true;
        } else if table.table[self.current_pid].state == State::Running {
            let mut process = table.table[self.current_pid];
            process.context = context;
            process.state = State::Waiting;
            table.table[self.current_pid] = process;
        }
        let ghost saved = table.table@;
        assert(saved == suspended(entries, start, old(self).started(), context));
        assert(forall|i: int|
            0 <= i < PROCESS_LIMIT ==> (#[trigger] saved[i]).vacant() == entries[i].vacant());
        proof {
            let k = choose|k: int| 0 <= k < entries.len() && !(#[trigger] entries[k]).vacant();
            assert(!saved[k].vacant());
        }
        self.next_pid();
        let ghost mut walked: int = 1;
        while table.table[self.current_pid].is_empty()
            invariant
                self.current_pid < PROCESS_LIMIT,
                0 <= start < PROCESS_LIMIT,
                1 <= walked <= PROCESS_LIMIT,
                walked == distance(start, self.current_pid as int),
                table.table@ == saved,
                self.initialized,
                self.next_process == old(self).next_process,
                occupied(saved),
                forall|other: int|
                    0 <= other < PROCESS_LIMIT && distance(start, other) < walked ==> (
                    #[trigger] saved[other]).vacant(),
            decreases PROCESS_LIMIT - walked,
        {
            proof {
                if walked == PROCESS_LIMIT {
                    let k = choose|k: int| 0 <= k < saved.len() && !(#[trigger] saved[k]).vacant();
                    assert(distance(start, k) <= PROCESS_LIMIT);
                    assert(k == self.current_pid || distance(start, k) < walked);
                }
            }
            self.next_pid();
            proof {
                walked = walked + 1;
            }
        }
        proof {
            assert forall|other: int|
                0 <= other < PROCESS_LIMIT && distance(start, other) < distance(
                    start,
                    self.current_pid as int,
                ) implies (#[trigger] entries[other]).vacant() by {
                assert(saved[other].vacant());
            }
            let chosen = self.current_pid as int;
            assert(entries[chosen].vacant() == saved[chosen].vacant());
        }
        let mut process = table.table[self.current_pid];
        process.state = State::Running;
        table.table[self.current_pid] = process;
        self.next_process = process;
        Some(process.context)
    }
}

/// One scheduling decision; see `Scheduler::next`.
pub fn schedule(scheduler: &mut Scheduler, table: &mut ProcessHandler, context: Context) -> (resume:
    Option<Context>)
    ensures
        decides(*old(scheduler), *old(table), context, *final(scheduler), *final(table), resume),
{
    scheduler.next(table, context)
}

/// Only one slot follows a given cursor: the contract of `next` determines
/// the process that it chooses.
pub proof fn lemma_successor_unique(table: Seq<Process>, cursor: int, first: int, second: int)
    requires
        0 <= cursor < PROCESS_LIMIT,
        is_successor(table, cursor, first),
        is_successor(table, cursor, second),
    ensures
        first == second,
{
    if distance(cursor, first) < distance(cursor, second) {
        assert(table[first].vacant());
    } else if distance(cursor, second) < distance(cursor, first) {
        assert(table[second].vacant());
    }
}

/// One process runs: where scheduler and table agreed before a decision
/// that chose `slot`, they agree after it, and `slot` is the one slot marked
/// running.
pub proof fn lemma_one_running(
    table: Seq<Process>,
    cursor: int,
    initialized: bool,
    context: Context,
    slot: int,
)
    requires
        table.len() == PROCESS_LIMIT,
        0 <= cursor < PROCESS_LIMIT,
        0 <= slot < PROCESS_LIMIT,
        coherent(table, cursor, initialized),
    ensures
        coherent(dispatched(suspended(table, cursor, initialized, context), slot), slot, true),
        forall|i: int|
            0 <= i < PROCESS_LIMIT ==> ((#[trigger] dispatched(
                suspended(table, cursor, initialized, context),
                slot,
            )[i]).state == State::Running <==> i == slot),
{
    let saved = suspended(table, cursor, initialized, context);
    assert forall|i: int| 0 <= i < PROCESS_LIMIT implies (#[trigger] saved[i]).state
        != State::Running by {
        if table[i].state == State::Running {
            assert(initialized && i == cursor);
        }
    }
}

/// Scheduler and table agree at boot, when no slot is marked running.
pub proof fn lemma_coherent_at_boot(table: Seq<Process>, cursor: int)
    requires
        forall|i: int| 0 <= i < table.len() ==> (#[trigger] table[i]).state == State::Waiting,
    ensures
        coherent(table, cursor, false),
{
}

/// Scheduler and table still agree after a process was created, since a new
/// process waits.
pub proof fn lemma_coherent_after_spawn(
    table: Seq<Process>,
    cursor: int,
    initialized: bool,
    pid: int,
    entry: i64,
    stack: u64,
)
    requires
        coherent(table, cursor, initialized),
        0 <= pid < table.len(),
    ensures
        coherent(table.update(pid, Process::fresh(entry, stack)), cursor, initialized),
{
    let after = table.update(pid, Process::fresh(entry, stack));
    assert forall|i: int| 0 <= i < after.len() && (#[trigger] after[i]).state
        == State::Running implies initialized && i == cursor by {
        assert(i != pid);
        assert(table[i].state == State::Running);
    }
}

/// A decision changes no entry address, so the same slots hold a process
/// before and after it.
pub proof fn lemma_same_processes(
    table: Seq<Process>,
    cursor: int,
    initialized: bool,
    context: Context,
    slot: int,
)
    requires
        table.len() == PROCESS_LIMIT,
        0 <= cursor < PROCESS_LIMIT,
        0 <= slot < PROCESS_LIMIT,
    ensures
        forall|i: int|
            0 <= i < PROCESS_LIMIT ==> (#[trigger] dispatched(
                suspended(table, cursor, initialized, context),
                slot,
            )[i]).base == table[i].base,
{
}

/// No register is lost: a process that was interrupted with the registers
/// `saved` and put back by one decision is handed those registers when a
/// later decision chooses it, whatever interrupted execution that decision
/// puts back in another slot.
pub proof fn lemma_context_restored(
    table: Seq<Process>,
    interrupted: int,
    saved: Context,
    other: int,
    later: Context,
)
    requires
        table.len() == PROCESS_LIMIT,
        0 <= interrupted < PROCESS_LIMIT,
        0 <= other < PROCESS_LIMIT,
        interrupted != other,
        table[interrupted].state == State::Running,
    ensures
        dispatched(
            suspended(
                dispatched(suspended(table, interrupted, true, saved), other),
                other,
                true,
                later,
            ),
            interrupted,
        )[interrupted].context == saved,
{
}

/// Round robin: with processes in exactly the two slots `low < high`, a
/// scheduler that has not run chooses `low`, and from then on the two take
/// turns: after `low` comes `high`, and after `high` comes `low`.
pub proof fn lemma_round_robin(table: Seq<Process>, low: int, high: int)
    requires
        table.len() == PROCESS_LIMIT,
        0 <= low < high < PROCESS_LIMIT,
        forall|i: int|
            0 <= i < PROCESS_LIMIT ==> ((#[trigger] table[i]).vacant() <==> i != low && i
                != high),
    ensures
        is_successor(table, PROCESS_LIMIT - 1, low),
        is_successor(table, low, high),
        is_successor(table, high, low),
{
}

/// No process is passed over: whatever the cursor, a slot that holds a
/// process is chosen within one round of the table, before any slot is
/// chosen twice.
pub proof fn lemma_chosen_within_a_round(table: Seq<Process>, cursor: int, slot: int, chosen: int)
    requires
        table.len() == PROCESS_LIMIT,
        0 <= cursor < PROCESS_LIMIT,
        0 <= slot < PROCESS_LIMIT,
        !table[slot].vacant(),
        is_successor(table, cursor, chosen),
    ensures
        distance(cursor, chosen) <= distance(cursor, slot),
        chosen != slot ==> distance(chosen, slot) < distance(cursor, slot),
{
    if distance(cursor, slot) < distance(cursor, chosen) {
        assert(table[slot].vacant());
    }
}

} // verus!
