//! What the kernel decides when an interrupt arrives. The handlers that
//! read the registers and talk to the interrupt controller call these
//! functions and carry out what they return.

use vstd::prelude::*;
use crate::process::{Context, ProcessHandler};
use crate::scancodes::{Scancodes, key, modify};
use crate::scheduler::{Scheduler, decides};
use crate::syscall::Syscall;

verus! {

/// The interrupt number that the first line of the primary interrupt
/// controller is mapped to.
pub const PRIMARY_OFFSET: u8 = 32;

/// The interrupt number that the first line of the secondary interrupt
/// controller is mapped to.
pub const SECONDARY_OFFSET: u8 = 40;

/// The interrupt number of the timer.
pub const TIMER: u8 = 32;

/// The interrupt number of the keyboard.
pub const KEYBOARD: u8 = 33;

/// The interrupt number of a system call.
pub const SYSCALL: u8 = 128;

/// The port from which the keyboard's bytes are read.
pub const KEYBOARD_PORT: u16 = 0x60;

/// Where control goes once the interrupt controller has been told that
/// the timer interrupt was handled.
#[derive(Debug, Clone, Copy, PartialEq, Eq, Structural)]
pub enum Transfer {
    /// Back into the interrupted execution, which nothing has replaced.
    Return,
    /// Into a process, for the first time since boot: no earlier process is
    /// left behind.
    Enter(Context),
    /// Into a process in place of the interrupted one, with every register
    /// loaded from the context.
    Resume(Context),
}

/// The decision on a timer tick that interrupted an execution with the
/// registers `context`.
///
/// Before the kernel is `ready` the tick changes nothing. After that the
/// scheduler decides: an empty table lets the interrupted execution go on,
/// and otherwise the chosen process is entered or resumed.
pub fn timer_interrupt(
    ready: bool,
    scheduler: &mut Scheduler,
    table: &mut ProcessHandler,
    context: Context,
) -> (transfer: Transfer)
    ensures
        !ready ==> {
            &&& transfer == Transfer::Return
            &&& *final(scheduler) == *old(scheduler)
            &&& *final(table) == *old(table)
        },
        ready ==> exists|resume: Option<Context>|
            {
                &&& #[trigger] decides(
                    *old(scheduler),
                    *old(table),
                    context,
                    *final(scheduler),
                    *final(table),
                    resume,
                )
                &&& transfer == match resume {
                    None => Transfer::Return,
                    Some(next) => if old(scheduler).started() {
                        Transfer::Resume(next)
                    } else {
                        Transfer::Enter(next)
                    },
                }
            },
{
    if !ready {
        return Transfer::Return;
    }
    let first = !scheduler.is_initialized();
    match scheduler.next(table, context) {
        None => Transfer::Return,
        Some(next) => if first {
            Transfer::Enter(next)
        } else {
            Transfer::Resume(next)
        },
    }
}

/// The decision on a byte from the keyboard: the character that it
/// completes, if any.
pub fn keyboard_interrupt(scancodes: &mut Scancodes, byte: u8) -> (character: Option<char>)
    ensures
        final(scancodes)@ == modify(old(scancodes)@, byte).0,
        character == if modify(old(scancodes)@, byte).1 {
            None
        } else {
            key(byte, final(scancodes)@.shift)
        },
{
    scancodes.advance(byte)
}

/// The system call that a process asks for with the registers `rax`, `rdi`,
/// `rsi` and `rdx`: the number of the call, then its arguments.
pub fn syscall_interrupt(rax: i64, rdi: i64, rsi: i64, rdx: i64) -> (syscall: Syscall)
    ensures
        syscall.args@ == seq![rax, rdi, rsi, rdx],
{
    let mut syscall = Syscall::new();
    syscall.args[0] = rax;
    syscall.args[1] = rdi;
    syscall.args[2] = rsi;
    syscall.args[3] = rdx;
    assert(syscall.args@ =~= seq![rax, rdi, rsi, rdx]);
    syscall
}

} // verus!
