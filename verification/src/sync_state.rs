//! The state transitions behind the spinning `Mutex`, `RwLock` and `Once`,
//! and the poison/try-lock result types.
use vstd::prelude::*;

verus! {

/// Lock word of a free mutex.
pub const UNLOCKED: usize = 0;
/// Lock word of a held mutex.
pub const LOCKED: usize = 1;
/// RwLock state of a write-locked lock (otherwise the state counts readers).
pub const WRITER: usize = usize::MAX;
/// A `Once` whose closure has not run.
pub const INCOMPLETE: usize = 0;
/// A `Once` whose closure is running.
pub const RUNNING: usize = 1;
/// A `Once` whose closure has run.
pub const COMPLETE: usize = 2;

/// Try to take a mutex whose lock word is `word`: the new word on success.
pub fn mutex_try_acquire(word: usize) -> (r: Option<usize>)
    ensures
        r == acquire_spec(word),
{
    if word == UNLOCKED { Some(LOCKED) } else { None }
}

/// The lock word after the holder releases the mutex.
pub fn mutex_release(word: usize) -> (r: usize)
    ensures
        r == UNLOCKED,
{
    UNLOCKED
}

/// Try to add a reader to a lock in state `s`: fails only while a writer
/// holds it.
pub fn rwlock_try_read(s: usize) -> (r: Option<usize>)
    ensures
        r == read_spec(s),
{
    if s != WRITER { Some(s + 1) } else { None }
}

/// Try to take the lock for writing: succeeds only when it is free.
pub fn rwlock_try_write(s: usize) -> (r: Option<usize>)
    ensures
        r == write_spec(s),
{
    if s == 0 { Some(WRITER) } else { None }
}

/// The state after a reader leaves.
pub fn rwlock_read_release(s: usize) -> (r: usize)
    requires
        s > 0,
        s != WRITER,
    ensures
        r == s - 1,
{
    s - 1
}

/// The state after the writer leaves.
pub fn rwlock_write_release(s: usize) -> (r: usize)
    ensures
        r == 0,
{
    0
}

/// What a caller of `call_once` does next, given the state it observed and
/// whether its own attempt to move the state from incomplete to running won.
#[derive(Clone, Copy, PartialEq, Eq, Debug, Structural)]
pub enum OnceAction {
    /// The initialization has happened; return.
    Return,
    /// This caller runs the closure, then stores the complete state.
    Run,
    /// Another caller is running the closure; yield and look again.
    Wait,
}

/// Decide the next action of a `call_once` caller that saw `observed` and
/// whose compare-exchange from incomplete to running `won`.
pub fn once_step(observed: usize, won: bool) -> (a: OnceAction)
    ensures
        observed == COMPLETE ==> a == OnceAction::Return,
        observed != COMPLETE && won ==> a == OnceAction::Run,
        observed != COMPLETE && !won && observed == RUNNING ==> a == OnceAction::Wait,
        a == OnceAction::Run ==> won,
        a == OnceAction::Return ==> observed == COMPLETE,
{
    if observed == COMPLETE {
        OnceAction::Return
    } else if won {
        OnceAction::Run
    } else if observed == RUNNING {
        OnceAction::Wait
    } else {
        OnceAction::Wait
    }
}

/// Whether a `Once` in state `s` has completed.
pub fn once_is_completed(s: usize) -> (b: bool)
    ensures
        b == (s == COMPLETE),
{
    s == COMPLETE
}

/// The mutex transition `mutex_try_acquire` performs.
pub open spec fn acquire_spec(word: usize) -> Option<usize> {
    if word == UNLOCKED { Some(LOCKED) } else { None }
}

/// The rwlock read transition `rwlock_try_read` performs.
pub open spec fn read_spec(s: usize) -> Option<usize> {
    if s != WRITER { Some((s + 1) as usize) } else { None }
}

/// The rwlock write transition `rwlock_try_write` performs.
pub open spec fn write_spec(s: usize) -> Option<usize> {
    if s == 0 { Some(WRITER) } else { None }
}

/// A mutex just taken cannot be taken again; once released it can.
pub proof fn lemma_mutex_exclusive(word: usize)
    ensures
        acquire_spec(word) matches Some(w) ==> acquire_spec(w) is None,
        acquire_spec(UNLOCKED) == Some(LOCKED),
{
}

/// While a writer holds the lock no reader or writer gets in; while readers
/// hold it no writer gets in; and releasing every reader lets a writer in.
pub proof fn lemma_rwlock_exclusion(s: usize)
    ensures
        write_spec(s) matches Some(w) ==> read_spec(w) is None && write_spec(w) is None,
        read_spec(s) matches Some(r) ==> write_spec(r) is None,
        write_spec(0) == Some(WRITER),
{
}

/// Once a `Once` is complete every caller returns without running the
/// closure, and the closure runs only for the caller whose attempt won.
pub proof fn lemma_once_runs_at_most_once(observed: usize, won: bool, a: OnceAction)
    requires
        observed == COMPLETE ==> a == OnceAction::Return,
        a == OnceAction::Run ==> won,
    ensures
        observed == COMPLETE ==> a != OnceAction::Run,
        !won ==> a != OnceAction::Run,
{
}

/// The error side of what `lock()` returns; the locks here never poison.
pub struct PoisonError<T> {
    pub guard: T,
}

impl<T> PoisonError<T> {
    /// Wrap a guard.
    pub fn new(guard: T) -> (e: PoisonError<T>)
        ensures
            e.guard == guard,
    {
        PoisonError { guard }
    }

    /// The guard.
    pub fn into_inner(self) -> (g: T)
        ensures
            g == self.guard,
    {
        self.guard
    }

    /// A reference to the guard.
    pub fn get_ref(&self) -> (g: &T)
        ensures
            *g == self.guard,
    {
        &self.guard
    }

    /// The error's description.
    pub fn description(&self) -> (s: &'static str)
        ensures
            s@ == "poisoned lock"@,
    {
        "poisoned lock"
    }
}

/// Why `try_lock` failed.
pub enum TryLockError<T> {
    Poisoned(PoisonError<T>),
    WouldBlock,
}

} // verus!
