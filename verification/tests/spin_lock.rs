use page_store::sync::spin_lock::{take_step, SpinLock};

#[test]
fn lock_is_free_at_first() {
    let mut lock = SpinLock::new();
    assert!(lock.try_lock().is_some());
}

#[test]
fn only_one_is_inside() {
    let mut lock = SpinLock::new();
    // A guard that is never dropped stays inside for good.
    std::mem::forget(lock.lock());
    assert!(lock.try_lock().is_none());
    assert!(lock.try_lock().is_none());
}

#[test]
fn drop_of_the_guard_leaves_the_lock() {
    let mut lock = SpinLock::new();
    {
        let guard = lock.lock();
        assert!(guard.lock.is_some());
    }
    assert!(lock.try_lock().is_some());
    drop(lock.lock());
    let _ = lock.try_lock();
    assert!(lock.try_lock().is_some());
}

#[test]
fn unlock_lets_the_next_one_in() {
    let mut lock = SpinLock::new();
    let guard = lock.lock();
    guard.unlock();
    match lock.try_lock() {
        Some(guard) => guard.unlock(),
        None => panic!("the lock is free"),
    }
    assert!(lock.try_lock().is_some());
}

#[test]
fn flag_is_exchanged_only_while_it_is_clear() {
    assert_eq!(take_step(false), Some(true));
    assert_eq!(take_step(true), None);
}
