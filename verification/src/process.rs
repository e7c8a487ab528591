//! Exit statuses: `ExitCode` and the `Termination` conversion from what
//! `main` returns.
use vstd::prelude::*;

verus! {

/// A process exit status.
#[derive(Clone, Copy, Debug, PartialEq, Eq, Structural)]
pub struct ExitCode(pub i32);

impl ExitCode {
    /// Successful termination (`SUCCESS`).
    pub fn success() -> (c: ExitCode)
        ensures
            c.0 == 0,
    {
        ExitCode(0)
    }

    /// Unsuccessful termination (`FAILURE`).
    pub fn failure() -> (c: ExitCode)
        ensures
            c.0 == 1,
    {
        ExitCode(1)
    }
}

/// The exit status `abort` ends the process with (128 + `SIGABRT`).
pub const ABORT_STATUS: i32 = 134;

/// The conversion from a value `main` returns into the exit code of the
/// process.
pub trait Termination {
    /// The exit code this value stands for.
    spec fn code(&self) -> i32;

    /// Consume the value and produce its exit code.
    fn report(self) -> (c: i32)
        ensures
            c == self.code(),
    ;
}

impl Termination for () {
    open spec fn code(&self) -> i32 {
        0
    }

    fn report(self) -> (c: i32) {
        0
    }
}

impl Termination for i32 {
    open spec fn code(&self) -> i32 {
        *self
    }

    fn report(self) -> (c: i32) {
        self
    }
}

impl Termination for ExitCode {
    open spec fn code(&self) -> i32 {
        self.0
    }

    fn report(self) -> (c: i32) {
        self.0
    }
}

impl<T: Termination, E> Termination for Result<T, E> {
    /// The value's own code on success, 1 on failure.
    open spec fn code(&self) -> i32 {
        match self {
            Ok(v) => v.code(),
            Err(_) => 1,
        }
    }

    fn report(self) -> (c: i32) {
        match self {
            Ok(v) => v.report(),
            Err(_) => 1,
        }
    }
}

} // verus!
