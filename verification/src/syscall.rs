//! The system calls that a process can make.

use vstd::prelude::*;
use vstd::string::StringSliceAdditionalSpecFns;
use vstd::utf8::valid_utf8;
use crate::vfs::file::FileLoader;

verus! {

/// Why a system call was refused.
#[derive(Debug, Clone, Copy, PartialEq, Eq, Structural)]
pub enum SyscallError {
    /// The path is not text.
    InvalidPath,
    /// No system call has that number.
    Unknown,
}

/// The numbers of the system calls.
#[non_exhaustive]
pub struct Kind;

impl Kind {
    pub const READ: i64 = 0;

    pub const WRITE: i64 = 1;

    pub const OPEN: i64 = 2;
}

/// One system call: its number in `args[0]`, then three arguments.
pub struct Syscall {
    pub args: [i64; 4],
}

/// Reads `bytes` as text with `core::str::from_utf8`: it gives the text
/// exactly when the bytes are well-formed UTF-8, and the text has those
/// bytes.
#[verifier::external_body]
fn text_of<'a>(bytes: &'a [u8]) -> (text: Option<&'a str>)
    ensures
        text is Some <==> valid_utf8(bytes@),
        text matches Some(s) ==> s.spec_bytes() == bytes@,
{
    core::str::from_utf8(bytes).ok()
}

impl Syscall {
    /// A call with every argument zero.
    pub fn new() -> (syscall: Syscall)
        ensures
            syscall.args@ == seq![0i64, 0i64, 0i64, 0i64],
    {
        Syscall { args: [0; 4] }
    }

    /// Whether the call takes a path, which the caller of `perform` then
    /// has to read from the address in `args[1]`.
    pub fn takes_path(&self) -> (takes: bool)
        ensures
            takes == (self.args@[0] == Kind::OPEN),
    {
        self.args[0] == Kind::OPEN
    }

    /// Carries out the call. `path` holds the bytes of the path, up to its
    /// terminator, where the call takes one.
    ///
    /// Reading and writing do nothing yet. Opening refuses a path that is not
    /// well-formed UTF-8. A number that is no system call is refused.
    pub fn perform(&self, loader: &mut FileLoader, path: &[u8]) -> (result: Result<
        (),
        SyscallError,
    >)
        ensures
            final(loader).files() == old(loader).files(),
            result is Ok <==> self.args@[0] == Kind::READ || self.args@[0] == Kind::WRITE || (
            self.args@[0] == Kind::OPEN && valid_utf8(path@)),
            result == Err::<(), SyscallError>(SyscallError::InvalidPath) <==> self.args@[0]
                == Kind::OPEN && !valid_utf8(path@),
            result == Err::<(), SyscallError>(SyscallError::Unknown) <==> self.args@[0]
                != Kind::READ && self.args@[0] != Kind::WRITE && self.args@[0] != Kind::OPEN,
    {
        let kind = self.args[0];
        if kind == Kind::READ {
            Ok(())
        } else if kind == Kind::WRITE {
            Ok(())
        } else if kind == Kind::OPEN {
            match text_of(path) {
                Some(text) => {
                    loader.open(text);
                    Ok(())
                },
                None => Err(SyscallError::InvalidPath),
            }
        } else {
            Err(SyscallError::Unknown)
        }
    }
}

} // verus!
