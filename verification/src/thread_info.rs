//! Thread handles, thread ids, the thread builder, and the decisions that
//! `spawn` makes around the `clone` system call.
use vstd::prelude::*;

verus! {

/// Default stack size of a spawned thread.
pub const STACK_SIZE: usize = 2 * 1024 * 1024;

/// Share the address space.
pub const CLONE_VM: usize = 0x100;
/// Share the filesystem information.
pub const CLONE_FS: usize = 0x200;
/// Share the descriptor table.
pub const CLONE_FILES: usize = 0x400;
/// Share the signal handlers.
pub const CLONE_SIGHAND: usize = 0x800;
/// Join the caller's thread group.
pub const CLONE_THREAD: usize = 0x10000;
/// Share System V semaphore adjustments.
pub const CLONE_SYSVSEM: usize = 0x40000;
/// Store the child's id in its id word.
pub const CLONE_CHILD_SETTID: usize = 0x0100_0000;
/// Clear the id word, and wake a waiter, when the child exits.
pub const CLONE_CHILD_CLEARTID: usize = 0x0020_0000;

/// The flags `spawn` passes to `clone`: a thread sharing memory, files and
/// signal handlers, whose id word is set at start and cleared at exit.
pub fn clone_flags() -> (f: usize)
    ensures
        f == CLONE_VM | CLONE_FS | CLONE_FILES | CLONE_SIGHAND | CLONE_THREAD | CLONE_SYSVSEM
            | CLONE_CHILD_SETTID | CLONE_CHILD_CLEARTID,
{
    CLONE_VM | CLONE_FS | CLONE_FILES | CLONE_SIGHAND | CLONE_THREAD | CLONE_SYSVSEM
        | CLONE_CHILD_SETTID | CLONE_CHILD_CLEARTID
}

/// A thread identifier.
#[derive(Clone, Copy, PartialEq, Eq, Debug, Structural)]
pub struct ThreadId(pub u64);

/// An opaque thread handle.
#[derive(Clone, Copy, Debug)]
pub struct Thread {
    pub id: ThreadId,
}

impl Thread {
    /// The thread's id (every handle reports id 0).
    pub fn id(&self) -> (t: ThreadId)
        ensures
            t == self.id,
    {
        self.id
    }

    /// The thread's name (threads are unnamed here).
    pub fn name(&self) -> (n: Option<&str>)
        ensures
            n is None,
    {
        None
    }
}

/// The current thread handle.
pub fn current() -> (t: Thread)
    ensures
        t.id == ThreadId(0),
{
    Thread { id: ThreadId(0) }
}

/// Thread builder (`name` and `stack_size` are recorded).
#[derive(Debug)]
pub struct Builder {
    pub name: Option<String>,
    pub stack_size: Option<usize>,
}

impl Builder {
    /// No name, default stack size.
    pub fn new() -> (b: Builder)
        ensures
            b.name is None,
            b.stack_size is None,
    {
        Builder { name: None, stack_size: None }
    }

    /// Set the thread name.
    pub fn name(self, name: String) -> (b: Builder)
        ensures
            b.name matches Some(n) && n@ == name@,
            b.stack_size == self.stack_size,
    {
        Builder { name: Some(name), stack_size: self.stack_size }
    }

    /// Set the stack size.
    pub fn stack_size(self, size: usize) -> (b: Builder)
        ensures
            b.stack_size == Some(size),
            b.name == self.name,
    {
        Builder { name: self.name, stack_size: Some(size) }
    }

    /// The stack size a spawned thread gets.
    pub fn effective_stack_size(&self) -> (s: usize)
        ensures
            s == match self.stack_size {
                Some(v) => v,
                None => STACK_SIZE,
            },
    {
        match self.stack_size {
            Some(v) => v,
            None => STACK_SIZE,
        }
    }
}

/// How a spawn continues after its attempts to map a stack and to clone.
#[derive(Clone, Copy, PartialEq, Eq, Debug, Structural)]
pub enum SpawnOutcome {
    /// No stack could be mapped: run the closure inline.
    InlineNoStack,
    /// `clone` failed: release the stack and run the closure inline.
    InlineAfterFailedClone,
    /// A real thread with this id is running.
    Started(isize),
}

/// Decide how a spawn continues: `stack_mapped` says whether the stack
/// mapping succeeded, `tid` is what `clone` returned (if it was called).
pub fn spawn_outcome(stack_mapped: bool, tid: isize) -> (o: SpawnOutcome)
    ensures
        !stack_mapped ==> o == SpawnOutcome::InlineNoStack,
        stack_mapped && tid <= 0 ==> o == SpawnOutcome::InlineAfterFailedClone,
        stack_mapped && tid > 0 ==> o == SpawnOutcome::Started(tid),
{
    if !stack_mapped {
        SpawnOutcome::InlineNoStack
    } else if tid <= 0 {
        SpawnOutcome::InlineAfterFailedClone
    } else {
        SpawnOutcome::Started(tid)
    }
}

/// Whether a joined thread has finished: it ran inline, or the kernel has
/// cleared its id word.
pub fn is_finished(inline: bool, ctid: i32) -> (b: bool)
    ensures
        b == (inline || ctid == 0),
{
    inline || ctid == 0
}

/// Error returned by `LocalKey::try_with` (never produced here).
#[derive(Clone, Copy, PartialEq, Eq, Debug, Structural)]
pub struct AccessError;

/// The `(seconds, nanoseconds)` of the `timespec` a sleep of `d` uses.
pub fn sleep_timespec(d: crate::time::Duration) -> (ts: (i64, i64))
    ensures
        ts.0 == d.secs as i64,
        ts.1 == d.nanos as i64,
{
    (d.as_secs() as i64, d.subsec_nanos() as i64)
}

} // verus!
