//! A lock for a single core: the state of a spin lock, and the guard
//! through which its holder reaches what it protects.

use vstd::prelude::*;

verus! {

/// A value behind a lock. On one core, whoever finds the lock taken would
/// wait for ever: taking it is for those who know it to be free, and
/// `try_lock` is for the others.
pub struct SpinLock<T> {
    lock: bool,
    data: T,
}

/// Access to the value of a lock that is held. Giving the guard up with
/// `unlock` frees the lock.
pub struct SpinLockGuard<'a, T> {
    pub lock: &'a mut SpinLock<T>,
}

impl<T> SpinLock<T> {
    /// Whether the lock is taken.
    pub closed spec fn locked(&self) -> bool {
        self.lock
    }

    /// The value behind the lock.
    pub closed spec fn value(&self) -> T {
        self.data
    }

    /// A free lock round `data`.
    pub fn new(data: T) -> (l: SpinLock<T>)
        ensures
            !l.locked(),
            l.value() == data,
    {
        SpinLock { lock: false, data }
    }

    /// Takes the lock, which is free.
    pub fn lock(&mut self) -> (g: SpinLockGuard<'_, T>)
        requires
            !old(self).locked(),
        ensures
            g.lock.locked(),
            g.lock.value() == old(self).value(),
            *final(self) == *final(g.lock),
    {
        self.lock = true;
        SpinLockGuard { lock: self }
    }

    /// Takes the lock if it is free.
    pub fn try_lock(&mut self) -> (r: Option<SpinLockGuard<'_, T>>)
        ensures
            r is Some <==> !old(self).locked(),
            r is None ==> *final(self) == *old(self),
            r is Some ==> r->0.lock.locked() && r->0.lock.value() == old(self).value()
                && *final(self) == *final(r->0.lock),
    {
        if self.lock {
            None
        } else {
            self.lock = true;
            Some(SpinLockGuard { lock: self })
        }
    }

    /// Frees the lock, whoever holds it.
    pub fn force_unlock(&mut self)
        ensures
            !final(self).locked(),
            final(self).value() == old(self).value(),
    {
        self.lock = false;
    }

    /// Whether the lock is taken.
    pub fn is_locked(&self) -> (r: bool)
        ensures
            r == self.locked(),
    {
        self.lock
    }

    /// The value, the lock given up for good.
    pub fn into_inner(self) -> (r: T)
        ensures
            r == self.value(),
    {
        self.data
    }
}

impl<'a, T> SpinLockGuard<'a, T> {
    /// The value behind the lock.
    pub fn get(&self) -> (r: &T)
        ensures
            *r == old(self.lock).value(),
    {
        &self.lock.data
    }

    /// The value behind the lock, to change it in place.
    pub fn get_mut(&mut self) -> (r: &mut T)
        ensures
            *r == old(self).lock.value(),
            final(self).lock.value() == *final(r),
            final(self).lock.locked() == old(self).lock.locked(),
            *final(final(self).lock) == *final(old(self).lock),
    {
        &mut self.lock.data
    }

    /// Puts `value` behind the lock.
    pub fn set(&mut self, value: T)
        ensures
            final(self).lock.value() == value,
            final(self).lock.locked() == old(self).lock.locked(),
            *final(final(self).lock) == *final(old(self).lock),
    {
        self.lock.data = value;
    }

    /// Gives the guard up and frees the lock.
    pub fn unlock(self)
        ensures
            !final(self.lock).locked(),
            final(self.lock).value() == old(self.lock).value(),
    {
        self.lock.lock = false;
    }
}

} // verus!
