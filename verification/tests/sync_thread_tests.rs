use fullrust::sync_state::{
    mutex_release, mutex_try_acquire, once_is_completed, once_step, rwlock_read_release, rwlock_try_read,
    rwlock_try_write, rwlock_write_release, OnceAction, PoisonError, COMPLETE, INCOMPLETE, LOCKED, RUNNING,
    UNLOCKED, WRITER,
};
use fullrust::thread_info::{clone_flags, current, is_finished, sleep_timespec, spawn_outcome, Builder, SpawnOutcome, ThreadId, STACK_SIZE};
use fullrust::time::Duration;

#[test]
fn mutex_words() {
    assert_eq!(mutex_try_acquire(UNLOCKED), Some(LOCKED));
    assert_eq!(mutex_try_acquire(LOCKED), None);
    assert_eq!(mutex_release(LOCKED), UNLOCKED);
    assert_eq!(mutex_try_acquire(mutex_release(LOCKED)), Some(LOCKED));
}

#[test]
fn rwlock_states() {
    assert_eq!(rwlock_try_read(0), Some(1));
    assert_eq!(rwlock_try_read(3), Some(4));
    assert_eq!(rwlock_try_read(WRITER), None);
    assert_eq!(rwlock_try_write(0), Some(WRITER));
    assert_eq!(rwlock_try_write(2), None);
    assert_eq!(rwlock_try_write(WRITER), None);
    assert_eq!(rwlock_read_release(2), 1);
    assert_eq!(rwlock_write_release(WRITER), 0);
    assert_eq!(rwlock_try_write(rwlock_read_release(1)), Some(WRITER));
}

#[test]
fn once_decisions() {
    assert_eq!(once_step(COMPLETE, false), OnceAction::Return);
    assert_eq!(once_step(COMPLETE, true), OnceAction::Return);
    assert_eq!(once_step(INCOMPLETE, true), OnceAction::Run);
    assert_eq!(once_step(RUNNING, false), OnceAction::Wait);
    assert!(once_is_completed(COMPLETE));
    assert!(!once_is_completed(RUNNING));
}

#[test]
fn poison_wrapper() {
    let e = PoisonError::new(5u32);
    assert_eq!(*e.get_ref(), 5);
    assert_eq!(e.description(), "poisoned lock");
    assert_eq!(e.into_inner(), 5);
}

#[test]
fn thread_handles_and_builder() {
    assert_eq!(current().id(), ThreadId(0));
    assert!(current().name().is_none());
    let b = Builder::new();
    assert_eq!(b.effective_stack_size(), STACK_SIZE);
    let b = b.name(String::from("worker")).stack_size(65536);
    assert_eq!(b.effective_stack_size(), 65536);
    assert_eq!(b.name.as_deref(), Some("worker"));
    assert_eq!(clone_flags(), 0x100 | 0x200 | 0x400 | 0x800 | 0x10000 | 0x40000 | 0x0100_0000 | 0x0020_0000);
}

#[test]
fn spawn_and_join_decisions() {
    assert_eq!(spawn_outcome(false, 0), SpawnOutcome::InlineNoStack);
    assert_eq!(spawn_outcome(true, -12), SpawnOutcome::InlineAfterFailedClone);
    assert_eq!(spawn_outcome(true, 4242), SpawnOutcome::Started(4242));
    assert!(is_finished(true, 99));
    assert!(is_finished(false, 0));
    assert!(!is_finished(false, 1234));
    assert_eq!(sleep_timespec(Duration::new(2, 5)), (2, 5));
}
