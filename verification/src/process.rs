//! The process table: a fixed array of process descriptors.

use vstd::prelude::*;
use crate::allocator::Allocator;
use crate::allocator::laws::allocates;
use crate::allocator::model::can_alloc;

verus! {

/// Number of slots in the process table.
pub const PROCESS_LIMIT: usize = 20;

/// Size of a process stack, in 64-bit words.
pub const STACK_SIZE: usize = 100;

/// Size of a process stack, in bytes.
pub const STACK_BYTES: u64 = 800;

/// Alignment of a process stack: that of a 64-bit word.
pub const STACK_ALIGN: u64 = 8;

/// Whether a process has the processor.
#[derive(Debug, Clone, Copy, PartialEq, Eq, Structural)]
pub enum State {
    /// The process is the one that executes.
    Running,
    /// The process could execute and waits for its turn.
    Waiting,
}

/// The registers of a suspended execution, with the instruction pointer
/// and the stack pointer at which it goes on.
#[derive(Debug, Clone, Copy, PartialEq, Eq, Structural)]
pub struct Context {
    pub rax: i64,
    pub rbx: i64,
    pub rcx: i64,
    pub rdx: i64,
    pub rsp: i64,
    pub rbp: i64,
    pub rsi: i64,
    pub rdi: i64,
    pub rip: i64,
    pub r8: i64,
    pub r9: i64,
    pub r10: i64,
    pub r11: i64,
}

impl Context {
    /// The context with every register zero.
    pub open spec fn zero() -> Context {
        Context {
            rax: 0,
            rbx: 0,
            rcx: 0,
            rdx: 0,
            rsp: 0,
            rbp: 0,
            rsi: 0,
            rdi: 0,
            rip: 0,
            r8: 0,
            r9: 0,
            r10: 0,
            r11: 0,
        }
    }

    pub fn new() -> (context: Context)
        ensures
            context == Context::zero(),
    {
        Context {
            rax: 0,
            rbx: 0,
            rcx: 0,
            rdx: 0,
            rsp: 0,
            rbp: 0,
            rsi: 0,
            rdi: 0,
            rip: 0,
            r8: 0,
            r9: 0,
            r10: 0,
            r11: 0,
        }
    }
}

/// One slot of the process table. A slot whose entry address `base` is zero
/// holds no process.
#[derive(Debug, Clone, Copy, PartialEq, Eq, Structural)]
pub struct Process {
    pub state: State,
    pub context: Context,
    /// Address at which the process starts.
    pub base: i64,
    /// Lowest address of the stack of the process.
    pub stack: i64,
}

impl Process {
    /// The slot holds no process.
    pub open spec fn vacant(self) -> bool {
        self.base == 0
    }

    /// The value of an unused slot.
    pub open spec fn unused() -> Process {
        Process { state: State::Waiting, context: Context::zero(), base: 0, stack: 0 }
    }

    /// The descriptor of a process that starts at `entry` on the stack at
    /// `stack` and has not run yet.
    pub open spec fn fresh(entry: i64, stack: u64) -> Process {
        Process {
            state: State::Waiting,
            context: Context {
                rsp: reinterpret((stack + STACK_BYTES) as u64),
                rip: entry,
                ..Context::zero()
            },
            base: entry,
            stack: reinterpret(stack),
        }
    }

    pub fn new() -> (process: Process)
        ensures
            process == Process::unused(),
    {
        Process { state: State::Waiting, context: Context::new(), base: 0, stack: 0 }
    }

    /// Whether the slot holds no process.
    pub fn is_empty(&self) -> (empty: bool)
        ensures
            empty == self.vacant(),
    {
        self.base == 0
    }
}

/// The 64 bits of `value` read as a signed number.
pub open spec fn reinterpret(value: u64) -> i64 {
    if value <= i64::MAX {
        value as i64
    } else {
        (value - 0x1_0000_0000_0000_0000) as i64
    }
}

/// Reads the 64 bits of `value` as a signed number, as a register holds an
/// address.
pub fn to_signed(value: u64) -> (signed: i64)
    ensures
        signed == reinterpret(value),
{
    if value <= 0x7fff_ffff_ffff_ffff {
        value as i64
    } else {
        let below: u64 = u64::MAX - value;
        -(below as i64) - 1
    }
}

/// Why the process table refused a request.
#[derive(Debug, Clone, Copy, PartialEq, Eq, Structural)]
pub enum ProcessError {
    /// The table has no slot of that number.
    InvalidPid,
    /// Every slot holds a process.
    TableFull,
}

/// Some slot of the table holds a process.
pub open spec fn occupied(table: Seq<Process>) -> bool {
    exists|i: int| 0 <= i < table.len() && !(#[trigger] table[i]).vacant()
}

/// `i` is the first slot of the table that holds no process.
pub open spec fn is_first_vacant(table: Seq<Process>, i: int) -> bool {
    &&& 0 <= i < table.len()
    &&& table[i].vacant()
    &&& forall|j: int| 0 <= j < i ==> !(#[trigger] table[j]).vacant()
}

/// Some slot of the table holds no process.
pub open spec fn has_vacancy(table: Seq<Process>) -> bool {
    exists|i: int| 0 <= i < table.len() && (#[trigger] table[i]).vacant()
}

/// The process table. `pid` is the slot that the latest `spawn` filled.
pub struct ProcessHandler {
    pub table: [Process; PROCESS_LIMIT],
    pub pid: usize,
}

impl ProcessHandler {
    /// A table without processes.
    pub fn new() -> (handler: ProcessHandler)
        ensures
            handler.pid == 0,
            forall|i: int| 0 <= i < PROCESS_LIMIT ==> handler.table@[i] == Process::unused(),
            !occupied(handler.table@),
    {
        ProcessHandler { table: [Process::new(); PROCESS_LIMIT], pid: 0 }
    }

    /// The first slot that holds no process.
    pub fn vacant_slot(&self) -> (slot: Option<usize>)
        ensures
            match slot {
                Some(i) => is_first_vacant(self.table@, i as int),
                None => !has_vacancy(self.table@),
            },
    {
        let mut index: usize = 0;
        while index < PROCESS_LIMIT
            invariant
                index <= PROCESS_LIMIT,
                forall|j: int| 0 <= j < index ==> !(#[trigger] self.table@[j]).vacant(),
            decreases PROCESS_LIMIT - index,
        {
            if self.table[index].is_empty() {
                return Some(index);
            }
            index += 1;
        }
        None
    }

    /// Whether some slot holds a process.
    pub fn is_occupied(&self) -> (some: bool)
        ensures
            some == occupied(self.table@),
    {
        let mut index: usize = 0;
        while index < PROCESS_LIMIT
            invariant
                index <= PROCESS_LIMIT,
                forall|j: int| 0 <= j < index ==> (#[trigger] self.table@[j]).vacant(),
            decreases PROCESS_LIMIT - index,
        {
            if !self.table[index].is_empty() {
                return true;
            }
            index += 1;
        }
        false
    }

    /// Creates a process that starts at `addr`.
    ///
    /// The process gets the first slot that holds none and a stack of
    /// `STACK_BYTES` bytes from the allocator. It waits with its instruction
    /// pointer at `addr` and its stack pointer at the top of that stack. A
    /// full table takes no process and asks the allocator for nothing.
    pub fn spawn(&mut self, allocator: &mut Allocator, addr: i64) -> (result: Result<
        usize,
        ProcessError,
    >)
        requires
            old(allocator).wf(),
            has_vacancy(old(self).table@) ==> can_alloc(old(allocator)@, STACK_BYTES, STACK_ALIGN),
        ensures
            final(allocator).wf(),
            match result {
                Ok(pid) => exists|stack: u64|
                    {
                        &&& is_first_vacant(old(self).table@, pid as int)
                        &&& #[trigger] allocates(
                            old(allocator)@,
                            STACK_BYTES,
                            STACK_ALIGN,
                            final(allocator)@,
                            stack,
                        )
                        &&& final(self).table@ == old(self).table@.update(
                            pid as int,
                            Process::fresh(addr, stack),
                        )
                        &&& final(self).pid == pid
                    },
                Err(error) => {
                    &&& error == ProcessError::TableFull
                    &&& !has_vacancy(old(self).table@)
                    &&& *final(self) == *old(self)
                    &&& final(allocator)@ == old(allocator)@
                },
            },
    {
        let slot = match self.vacant_slot() {
            Some(slot) => slot,
            None => {
                return Err(ProcessError::TableFull);
            },
        };
        assert(has_vacancy(self.table@));
        let stack = allocator.allocate(STACK_BYTES, STACK_ALIGN);
        let mut process = Process::new();
        process.context.rsp = to_signed(stack + STACK_BYTES);
        process.context.rip = addr;
        process.base = addr;
        process.stack = to_signed(stack);
        process.state = State::Waiting;
        self.table[slot] = process;
        self.pid = slot;
        assert(process == Process::fresh(addr, stack));
        Ok(slot)
    }
}

/// `i` is the number of a slot that comes before slot `end`.
pub open spec fn slot_before(i: int, end: int) -> bool {
    0 <= i < end
}

/// Calls `f` on one slot.
fn visit<F>(f: &F, slot: &mut Process) where F: Fn(&mut Process)
    requires
        forall|given: &mut Process| call_requires(*f, (given,)),
    ensures
        exists|given: &mut Process|
            {
                &&& *given == *old(slot)
                &&& *final(given) == *final(slot)
                &&& #[trigger] call_ensures(*f, (given,), ())
            },
{
    f(slot)
}

/// Calls `f` on every slot of the table in turn.
///
/// In the contract `slot` stands for the reference that one call received.
pub fn for_each<F>(handler: &mut ProcessHandler, f: F) where F: Fn(&mut Process)
    requires
        forall|slot: &mut Process| call_requires(f, (slot,)),
    ensures
        final(handler).pid == old(handler).pid,
        forall|i: int| #[trigger]
            slot_before(i, PROCESS_LIMIT as int) ==> exists|slot: &mut Process|
                {
                    &&& *slot == old(handler).table@[i]
                    &&& *final(slot) == final(handler).table@[i]
                    &&& #[trigger] call_ensures(f, (slot,), ())
                },
{
    let mut index: usize = 0;
    while index < PROCESS_LIMIT
        invariant
            index <= PROCESS_LIMIT,
            handler.pid == old(handler).pid,
            forall|slot: &mut Process| call_requires(f, (slot,)),
            forall|i: int| #[trigger]
                slot_before(i, index as int) ==> exists|slot: &mut Process|
                    {
                        &&& *slot == old(handler).table@[i]
                        &&& *final(slot) == handler.table@[i]
                        &&& #[trigger] call_ensures(f, (slot,), ())
                    },
            forall|i: int|
                index <= i < PROCESS_LIMIT ==> #[trigger] handler.table@[i] == old(
                    handler,
                ).table@[i],
        decreases PROCESS_LIMIT - index,
    {
        let ghost before = handler.table@;
        visit(&f, &mut handler.table[index]);
        proof {
            assert forall|i: int| #[trigger] slot_before(i, index + 1) implies exists|
                slot: &mut Process,
            |
                {
                    &&& *slot == old(handler).table@[i]
                    &&& *final(slot) == handler.table@[i]
                    &&& #[trigger] call_ensures(f, (slot,), ())
                } by {
                if i < index {
                    assert(slot_before(i, index as int));
                    assert(handler.table@[i] == before[i]);
                    let slot = choose|slot: &mut Process|
                        {
                            &&& *slot == old(handler).table@[i]
                            &&& *final(slot) == before[i]
                            &&& #[trigger] call_ensures(f, (slot,), ())
                        };
                    assert(call_ensures(f, (slot,), ()));
                } else {
                    let slot = choose|slot: &mut Process|
                        {
                            &&& *slot == before[index as int]
                            &&& *final(slot) == handler.table@[index as int]
                            &&& #[trigger] call_ensures(f, (slot,), ())
                        };
                    assert(call_ensures(f, (slot,), ()));
                }
            }
        }
        index += 1;
    }
}

/// Calls `f` on slot `pid`. A number that is no slot of the table is
/// refused, and nothing changes.
///
/// In the contract `slot` stands for the reference that `f` received.
pub fn map<F>(handler: &mut ProcessHandler, pid: usize, f: F) -> (result: Result<
    (),
    ProcessError,
>) where F: Fn(&mut Process)
    requires
        forall|slot: &mut Process| call_requires(f, (slot,)),
    ensures
        final(handler).pid == old(handler).pid,
        match result {
            Ok(_) => {
                &&& pid < PROCESS_LIMIT
                &&& exists|slot: &mut Process|
                    {
                        &&& *slot == old(handler).table@[pid as int]
                        &&& *final(slot) == final(handler).table@[pid as int]
                        &&& #[trigger] call_ensures(f, (slot,), ())
                    }
                &&& forall|i: int|
                    0 <= i < PROCESS_LIMIT && i != pid ==> #[trigger] final(handler).table@[i]
                        == old(handler).table@[i]
            },
            Err(error) => {
                &&& error == ProcessError::InvalidPid
                &&& pid >= PROCESS_LIMIT
                &&& *final(handler) == *old(handler)
            },
        },
{
    if pid >= PROCESS_LIMIT {
        return Err(ProcessError::InvalidPid);
    }
    f(&mut handler.table[pid]);
    Ok(())
}

/// The process in slot `pid`. A number that is no slot of the table is
/// refused.
pub fn get(handler: &ProcessHandler, pid: usize) -> (result: Result<Process, ProcessError>)
    ensures
        pid < PROCESS_LIMIT ==> result == Ok::<Process, ProcessError>(handler.table@[pid as int]),
        pid >= PROCESS_LIMIT ==> result == Err::<Process, ProcessError>(ProcessError::InvalidPid),
{
    if pid >= PROCESS_LIMIT {
        return Err(ProcessError::InvalidPid);
    }
    Ok(handler.table[pid])
}

/// Creates a process that starts at `addr`; see `ProcessHandler::spawn`.
pub fn spawn(handler: &mut ProcessHandler, allocator: &mut Allocator, addr: i64) -> (result: Result<
    usize,
    ProcessError,
>)
    requires
        old(allocator).wf(),
        has_vacancy(old(handler).table@) ==> can_alloc(old(allocator)@, STACK_BYTES, STACK_ALIGN),
    ensures
        final(allocator).wf(),
        match result {
            Ok(pid) => exists|stack: u64|
                {
                    &&& is_first_vacant(old(handler).table@, pid as int)
                    &&& #[trigger] allocates(
                        old(allocator)@,
                        STACK_BYTES,
                        STACK_ALIGN,
                        final(allocator)@,
                        stack,
                    )
                    &&& final(handler).table@ == old(handler).table@.update(
                        pid as int,
                        Process::fresh(addr, stack),
                    )
                    &&& final(handler).pid == pid
                },
            Err(error) => {
                &&& error == ProcessError::TableFull
                &&& !has_vacancy(old(handler).table@)
                &&& *final(handler) == *old(handler)
                &&& final(allocator)@ == old(allocator)@
            },
        },
{
    handler.spawn(allocator, addr)
}

} // verus!
