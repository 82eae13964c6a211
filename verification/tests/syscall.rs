use kernel::interrupt::syscall_interrupt;
use kernel::syscall::{Kind, Syscall, SyscallError};
use kernel::vfs::file::{FileHandle, FileLoader};

fn perform(number: i64, path: &[u8]) -> Result<(), SyscallError> {
    let mut loader = FileLoader::new();
    let mut syscall = Syscall::new();
    syscall.args[0] = number;
    syscall.perform(&mut loader, path)
}

#[test]
fn new_syscall_is_a_read_without_arguments() {
    let syscall = Syscall::new();
    assert_eq!(syscall.args, [0, 0, 0, 0]);
    assert!(!syscall.takes_path());
}

#[test]
fn read_and_write_succeed() {
    assert_eq!(perform(Kind::READ, b""), Ok(()));
    assert_eq!(perform(Kind::WRITE, b""), Ok(()));
    assert_eq!(perform(0, b"\xff"), Ok(()));
    assert_eq!(perform(1, b"\xff"), Ok(()));
}

#[test]
fn open_takes_a_path_that_is_text() {
    assert_eq!(perform(Kind::OPEN, b"/tty/stdout"), Ok(()));
    assert_eq!(perform(2, "/b\u{e4}r".as_bytes()), Ok(()));
    assert_eq!(perform(2, b""), Ok(()));
}

#[test]
fn open_refuses_a_path_that_is_not_text() {
    assert_eq!(perform(2, b"/tty/\xff"), Err(SyscallError::InvalidPath));
    assert_eq!(perform(2, b"\xc3"), Err(SyscallError::InvalidPath));
    assert_eq!(perform(2, b"\xed\xa0\x80"), Err(SyscallError::InvalidPath));
}

#[test]
fn unknown_number_is_refused() {
    assert_eq!(perform(3, b""), Err(SyscallError::Unknown));
    assert_eq!(perform(-1, b"/tty"), Err(SyscallError::Unknown));
    assert_eq!(perform(i64::MAX, b"\xff"), Err(SyscallError::Unknown));
}

#[test]
fn syscall_interrupt_orders_the_registers() {
    let syscall = syscall_interrupt(2, 0x1000, 7, 9);
    assert_eq!(syscall.args, [2, 0x1000, 7, 9]);
    assert!(syscall.takes_path());
}

#[test]
fn file_stubs_leave_everything_alone() {
    let mut handle = FileHandle::new(vec![1, 2, 3]);
    handle.read(2);
    let mut loader = FileLoader::new();
    loader.open("/tty/stdin");
}
