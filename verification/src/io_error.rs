//! I/O error values: the error kind taxonomy, errno classification and the
//! three representations an error can carry.
use vstd::prelude::*;
use crate::syscall::Errno;

verus! {

/// Categories of I/O error.
#[derive(Clone, Copy, PartialEq, Eq, Debug, Structural)]
#[non_exhaustive]
pub enum ErrorKind {
    NotFound,
    PermissionDenied,
    ConnectionRefused,
    ConnectionReset,
    ConnectionAborted,
    NotConnected,
    AddrInUse,
    AddrNotAvailable,
    BrokenPipe,
    AlreadyExists,
    WouldBlock,
    InvalidInput,
    InvalidData,
    TimedOut,
    WriteZero,
    Interrupted,
    UnexpectedEof,
    Unsupported,
    OutOfMemory,
    Other,
}

/// The human-readable description of each kind.
pub open spec fn kind_text(k: ErrorKind) -> Seq<char> {
    match k {
        ErrorKind::NotFound => "entity not found"@,
        ErrorKind::PermissionDenied => "permission denied"@,
        ErrorKind::ConnectionRefused => "connection refused"@,
        ErrorKind::ConnectionReset => "connection reset"@,
        ErrorKind::ConnectionAborted => "connection aborted"@,
        ErrorKind::NotConnected => "not connected"@,
        ErrorKind::AddrInUse => "address in use"@,
        ErrorKind::AddrNotAvailable => "address not available"@,
        ErrorKind::BrokenPipe => "broken pipe"@,
        ErrorKind::AlreadyExists => "entity already exists"@,
        ErrorKind::WouldBlock => "operation would block"@,
        ErrorKind::InvalidInput => "invalid input parameter"@,
        ErrorKind::InvalidData => "invalid data"@,
        ErrorKind::TimedOut => "timed out"@,
        ErrorKind::WriteZero => "write zero"@,
        ErrorKind::Interrupted => "operation interrupted"@,
        ErrorKind::UnexpectedEof => "unexpected end of file"@,
        ErrorKind::Unsupported => "unsupported"@,
        ErrorKind::OutOfMemory => "out of memory"@,
        ErrorKind::Other => "other error"@,
    }
}

/// Which description a text is, by its length and two of its characters.
spec fn text_key(t: Seq<char>) -> (int, char, char) {
    (t.len() as int, t[0], t[t.len() - 3])
}

/// No two kinds share a description.
pub proof fn lemma_kind_text_distinct(a: ErrorKind, b: ErrorKind)
    requires
        a != b,
    ensures
        kind_text(a) != kind_text(b),
{
    reveal_strlit("entity not found");
    reveal_strlit("permission denied");
    reveal_strlit("connection refused");
    reveal_strlit("connection reset");
    reveal_strlit("connection aborted");
    reveal_strlit("not connected");
    reveal_strlit("address in use");
    reveal_strlit("address not available");
    reveal_strlit("broken pipe");
    reveal_strlit("entity already exists");
    reveal_strlit("operation would block");
    reveal_strlit("invalid input parameter");
    reveal_strlit("invalid data");
    reveal_strlit("timed out");
    reveal_strlit("write zero");
    reveal_strlit("operation interrupted");
    reveal_strlit("unexpected end of file");
    reveal_strlit("unsupported");
    reveal_strlit("out of memory");
    reveal_strlit("other error");
    assert(text_key(kind_text(a)) != text_key(kind_text(b)));
}

impl ErrorKind {
    /// The description of this kind.
    pub fn as_str(&self) -> (s: &'static str)
        ensures
            s@ == kind_text(*self),
    {
        match self {
            ErrorKind::NotFound => "entity not found",
            ErrorKind::PermissionDenied => "permission denied",
            ErrorKind::ConnectionRefused => "connection refused",
            ErrorKind::ConnectionReset => "connection reset",
            ErrorKind::ConnectionAborted => "connection aborted",
            ErrorKind::NotConnected => "not connected",
            ErrorKind::AddrInUse => "address in use",
            ErrorKind::AddrNotAvailable => "address not available",
            ErrorKind::BrokenPipe => "broken pipe",
            ErrorKind::AlreadyExists => "entity already exists",
            ErrorKind::WouldBlock => "operation would block",
            ErrorKind::InvalidInput => "invalid input parameter",
            ErrorKind::InvalidData => "invalid data",
            ErrorKind::TimedOut => "timed out",
            ErrorKind::WriteZero => "write zero",
            ErrorKind::Interrupted => "operation interrupted",
            ErrorKind::UnexpectedEof => "unexpected end of file",
            ErrorKind::Unsupported => "unsupported",
            ErrorKind::OutOfMemory => "out of memory",
            ErrorKind::Other => "other error",
        }
    }
}

/// The kind that a Linux error number belongs to.
pub open spec fn errno_kind_spec(e: i32) -> ErrorKind {
    if e == 2 {
        ErrorKind::NotFound
    } else if e == 1 || e == 13 {
        ErrorKind::PermissionDenied
    } else if e == 111 {
        ErrorKind::ConnectionRefused
    } else if e == 104 {
        ErrorKind::ConnectionReset
    } else if e == 103 {
        ErrorKind::ConnectionAborted
    } else if e == 107 {
        ErrorKind::NotConnected
    } else if e == 98 {
        ErrorKind::AddrInUse
    } else if e == 99 {
        ErrorKind::AddrNotAvailable
    } else if e == 32 {
        ErrorKind::BrokenPipe
    } else if e == 17 {
        ErrorKind::AlreadyExists
    } else if e == 11 {
        ErrorKind::WouldBlock
    } else if e == 22 {
        ErrorKind::InvalidInput
    } else if e == 110 {
        ErrorKind::TimedOut
    } else if e == 4 {
        ErrorKind::Interrupted
    } else if e == 12 {
        ErrorKind::OutOfMemory
    } else {
        ErrorKind::Other
    }
}

/// Classify a Linux error number.
pub fn errno_kind(e: i32) -> (k: ErrorKind)
    ensures
        k == errno_kind_spec(e),
{
    match e {
        2 => ErrorKind::NotFound,
        1 | 13 => ErrorKind::PermissionDenied,
        111 => ErrorKind::ConnectionRefused,
        104 => ErrorKind::ConnectionReset,
        103 => ErrorKind::ConnectionAborted,
        107 => ErrorKind::NotConnected,
        98 => ErrorKind::AddrInUse,
        99 => ErrorKind::AddrNotAvailable,
        32 => ErrorKind::BrokenPipe,
        17 => ErrorKind::AlreadyExists,
        11 => ErrorKind::WouldBlock,
        22 => ErrorKind::InvalidInput,
        110 => ErrorKind::TimedOut,
        4 => ErrorKind::Interrupted,
        12 => ErrorKind::OutOfMemory,
        _ => ErrorKind::Other,
    }
}

/// How an error is represented: a raw OS error number, a bare kind, or a
/// kind with a message.
#[derive(Debug)]
pub enum Repr {
    Os(i32),
    Simple(ErrorKind),
    Custom(ErrorKind, String),
}

/// The error type for I/O operations.
#[derive(Debug)]
pub struct Error {
    pub repr: Repr,
}

impl Error {
    /// The category of this error, as a spec function.
    pub open spec fn kind_spec(&self) -> ErrorKind {
        match self.repr {
            Repr::Os(c) => errno_kind_spec(c),
            Repr::Simple(k) => k,
            Repr::Custom(k, _) => k,
        }
    }

    /// The raw OS error number, as a spec function.
    pub open spec fn raw_os_error_spec(&self) -> Option<i32> {
        match self.repr {
            Repr::Os(c) => Some(c),
            _ => None,
        }
    }

    /// Create an error from a kind and a message.
    pub fn new(kind: ErrorKind, msg: &str) -> (e: Error)
        ensures
            e.repr matches Repr::Custom(k, m) && k == kind && m@ == msg@,
    {
        Error { repr: Repr::Custom(kind, msg.to_owned()) }
    }

    /// Create an error carrying only a kind (no message).
    pub fn from_kind(kind: ErrorKind) -> (e: Error)
        ensures
            e.repr == Repr::Simple(kind),
    {
        Error { repr: Repr::Simple(kind) }
    }

    /// Build from a raw errno.
    pub fn from_raw_os_error(code: i32) -> (e: Error)
        ensures
            e.repr == Repr::Os(code),
    {
        Error { repr: Repr::Os(code) }
    }

    /// Build from a decoded syscall error number.
    pub fn from_errno(e: Errno) -> (err: Error)
        ensures
            err.repr == Repr::Os(e.0),
    {
        Error { repr: Repr::Os(e.0) }
    }

    /// The raw OS error, if this came from one.
    pub fn raw_os_error(&self) -> (r: Option<i32>)
        ensures
            r == self.raw_os_error_spec(),
    {
        match self.repr {
            Repr::Os(c) => Some(c),
            _ => None,
        }
    }

    /// The error's category.
    pub fn kind(&self) -> (k: ErrorKind)
        ensures
            k == self.kind_spec(),
    {
        match &self.repr {
            Repr::Os(c) => errno_kind(*c),
            Repr::Simple(k) => *k,
            Repr::Custom(k, _) => *k,
        }
    }
}

} // verus!
