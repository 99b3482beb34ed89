use kernel::spinlock::SpinLock;

#[test]
fn new_lock_is_free() {
    let l = SpinLock::new(5u32);
    assert!(!l.is_locked());
    assert_eq!(l.into_inner(), 5);
}

#[test]
fn lock_gives_access_and_unlock_frees() {
    let mut l = SpinLock::new(5u32);
    let mut g = l.lock();
    assert_eq!(*g.get(), 5);
    g.set(7);
    *g.get_mut() += 1;
    assert_eq!(*g.get(), 8);
    g.unlock();
    assert!(!l.is_locked());
    assert_eq!(l.into_inner(), 8);
}

#[test]
fn lock_stays_taken_until_it_is_freed() {
    let mut l = SpinLock::new(1u8);
    {
        let _g = l.lock();
    }
    assert!(l.is_locked());
    assert!(l.try_lock().is_none());
    l.force_unlock();
    assert!(!l.is_locked());
    assert!(l.try_lock().is_some());
    assert!(l.is_locked());
}

#[test]
fn try_lock_takes_a_free_lock_only() {
    let mut l = SpinLock::new(String::from("a"));
    match l.try_lock() {
        Some(mut g) => {
            g.get_mut().push('b');
            g.unlock();
        }
        None => panic!("a free lock was refused"),
    }
    assert!(!l.is_locked());
    assert_eq!(l.into_inner(), "ab");
}

#[test]
fn force_unlock_keeps_the_value() {
    let mut l = SpinLock::new(9u64);
    l.force_unlock();
    assert!(!l.is_locked());
    {
        let mut g = l.lock();
        g.set(10);
    }
    l.force_unlock();
    assert_eq!(l.into_inner(), 10);
}
