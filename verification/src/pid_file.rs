//! The PID file: when it is created and removed, what is written to it,
//! and what is cleaned up when a step fails.

use crate::app::AppError;
use crate::text::{append_chars, chars_of, signed_decimal, signed_decimal_exec, string_of};
use vstd::prelude::*;

verus! {

/// The PID file of the process and the descriptor that holds its lock
/// while it exists.
#[derive(Debug)]
pub struct PidFile {
    file_path: String,
    fd: Option<i32>,
}

/// What a call to create the file does first.
#[derive(Debug, Clone, Copy, PartialEq, Eq, Structural)]
pub enum PidCreateStart {
    /// The file is already held: nothing to do, and `false` is returned.
    AlreadyCreated,
    /// No path is configured: nothing to do, and `false` is returned.
    NoPath,
    /// The file is to be opened, locked and written.
    Proceed,
}

/// The step of the creation that failed.
#[derive(Debug, Clone, Copy, PartialEq, Eq, Structural)]
pub enum PidFileFailure {
    Open,
    Lock,
    Truncate,
    Write,
}

/// What is undone after a failed step: the lock released, the
/// descriptor closed.
#[derive(Debug, Clone, Copy, PartialEq, Eq, Structural)]
pub struct PidCleanup {
    pub unlock: bool,
    pub close: bool,
}

/// The text written to the file: the process id in decimal and a newline.
pub open spec fn spec_pid_text(pid: int) -> Seq<char> {
    signed_decimal(pid) + "\n"@
}

/// The message of a failed step, naming the file.
pub open spec fn spec_failure_message(failure: PidFileFailure, path: Seq<char>) -> Seq<char> {
    match failure {
        PidFileFailure::Open => "Could not create pid file: "@ + path,
        PidFileFailure::Lock => "Could not lock pid file: "@ + path,
        PidFileFailure::Truncate => "Could not truncate pid file: "@ + path,
        PidFileFailure::Write => "Could not write to pid file: "@ + path,
    }
}

/// What a failed step leaves to undo: nothing when the file could not be
/// opened; the descriptor when it could not be locked; the lock and the
/// descriptor after that.
pub open spec fn spec_cleanup(failure: PidFileFailure) -> PidCleanup {
    match failure {
        PidFileFailure::Open => PidCleanup { unlock: false, close: false },
        PidFileFailure::Lock => PidCleanup { unlock: false, close: true },
        _ => PidCleanup { unlock: true, close: true },
    }
}

impl PidFile {
    pub closed spec fn spec_fd(&self) -> Option<i32> {
        self.fd
    }

    pub closed spec fn spec_path(&self) -> Seq<char> {
        self.file_path@
    }

    /// A PID file at the path, not yet created.
    pub fn new(file_path: &str) -> (res: Self)
        ensures
            res.spec_path() == file_path@,
            res.spec_fd() is None,
    {
        PidFile { file_path: string_of(&chars_of(file_path)), fd: None }
    }

    /// The path of the file.
    pub fn file_path(&self) -> (res: &str)
        ensures
            res@ == self.spec_path(),
    {
        self.file_path.as_str()
    }

    /// Whether the file is created and locked by this process.
    pub fn is_created(&self) -> (res: bool)
        ensures
            res == self.spec_fd() is Some,
    {
        self.fd.is_some()
    }

    /// What creating the file does first: nothing when it is already
    /// created or when no path is configured.
    pub fn begin_create(&self) -> (res: PidCreateStart)
        ensures
            self.spec_fd() is Some ==> res == PidCreateStart::AlreadyCreated,
            self.spec_fd() is None && self.spec_path().len() == 0 ==> res == PidCreateStart::NoPath,
            self.spec_fd() is None && self.spec_path().len() > 0 ==> res == PidCreateStart::Proceed,
    {
        if self.fd.is_some() {
            PidCreateStart::AlreadyCreated
        } else if self.file_path.as_str().unicode_len() == 0 {
            PidCreateStart::NoPath
        } else {
            PidCreateStart::Proceed
        }
    }

    /// Records the descriptor of a created file.
    pub fn finish_create(&mut self, fd: i32)
        requires
            old(self).spec_fd() is None,
        ensures
            final(self).spec_fd() == Some(fd),
            final(self).spec_path() == old(self).spec_path(),
    {
        self.fd = Some(fd);
    }

    /// Takes the descriptor to release: the file is no longer created.
    pub fn take_fd(&mut self) -> (res: Option<i32>)
        ensures
            res == old(self).spec_fd(),
            final(self).spec_fd() is None,
            final(self).spec_path() == old(self).spec_path(),
    {
        let res = self.fd;
        self.fd = None;
        res
    }
}

/// The text written to the file for a process id.
pub fn pid_text(pid: i32) -> (res: String)
    ensures
        res@ == spec_pid_text(pid as int),
{
    let mut t = signed_decimal_exec(pid as i64);
    t.push('\n');
    proof {
        reveal_strlit("\n");
    }
    assert(t@ =~= spec_pid_text(pid as int));
    string_of(&t)
}

/// Whether a write put the whole text down.
pub fn wrote_all(written: isize, len: usize) -> (res: bool)
    ensures
        res == (written as int == len as int),
{
    written >= 0 && written as usize == len
}

/// The error of a failed step.
pub fn failure_error(failure: PidFileFailure, path: &str) -> (res: AppError)
    ensures
        res.message@ == spec_failure_message(failure, path@),
{
    let mut m = match failure {
        PidFileFailure::Open => chars_of("Could not create pid file: "),
        PidFileFailure::Lock => chars_of("Could not lock pid file: "),
        PidFileFailure::Truncate => chars_of("Could not truncate pid file: "),
        PidFileFailure::Write => chars_of("Could not write to pid file: "),
    };
    append_chars(&mut m, &chars_of(path));
    AppError { message: string_of(&m) }
}

/// What is undone after a failed step.
pub fn cleanup_after(failure: PidFileFailure) -> (res: PidCleanup)
    ensures
        res == spec_cleanup(failure),
{
    match failure {
        PidFileFailure::Open => PidCleanup { unlock: false, close: false },
        PidFileFailure::Lock => PidCleanup { unlock: false, close: true },
        _ => PidCleanup { unlock: true, close: true },
    }
}

} // verus!
