//! Locks for exclusive accesses, seen from the one context that holds the
//! exclusive reference.
use vstd::prelude::*;

verus! {

/// A spin lock without a specific resource connected to it.
#[derive(Debug)]
pub struct SpinLock {
    locked: bool,
}

impl View for SpinLock {
    type V = bool;

    /// Whether the lock is held.
    closed spec fn view(&self) -> bool {
        self.locked
    }
}

impl SpinLock {
    pub fn new() -> (r: Self)
        ensures
            !r@,
    {
        Self { locked: false }
    }

    /// Takes the lock. Through an exclusive reference nobody else can
    /// release it, so a held lock would spin forever.
    pub fn lock(&mut self)
        requires
            !old(self)@,
        ensures
            final(self)@,
    {
        self.locked = true;
    }

    pub fn unlock(&mut self)
        ensures
            !final(self)@,
    {
        self.locked = false;
    }

    pub fn is_locked(&self) -> (r: bool)
        ensures
            r == self@,
    {
        self.locked
    }
}

/// A hold of a [`SpinMutex`], taken by `try_lock` and ended by `unlock`.
pub struct SpinMutexGuard {
    _held: (),
}

/// A locking primitive for mutually exclusive accesses.
/// `T` is the type of the inner value to store.
pub struct SpinMutex<T> {
    spin: SpinLock,
    data: T,
}

impl<T> SpinMutex<T> {
    pub closed spec fn spec_locked(&self) -> bool {
        self.spin@
    }

    pub closed spec fn spec_data(&self) -> T {
        self.data
    }

    pub fn new(data: T) -> (r: Self)
        ensures
            !r.spec_locked(),
            r.spec_data() == data,
    {
        Self { spin: SpinLock::new(), data }
    }

    pub fn is_locked(&self) -> (r: bool)
        ensures
            r == self.spec_locked(),
    {
        self.spin.is_locked()
    }

    /// Takes the lock if it is free, giving a guard of the hold; a held
    /// lock gives [`None`] and stays as it is.
    pub fn try_lock(&mut self) -> (r: Option<SpinMutexGuard>)
        ensures
            old(self).spec_locked() ==> r is None && *final(self) == *old(self),
            !old(self).spec_locked() ==> r is Some && final(self).spec_locked() && final(self).spec_data()
                == old(self).spec_data(),
    {
        if self.spin.is_locked() {
            return None;
        }
        self.spin.lock();
        Some(SpinMutexGuard { _held: () })
    }

    /// The data, while the lock is held.
    pub fn data_mut(&mut self, guard: &SpinMutexGuard) -> (r: &mut T)
        requires
            old(self).spec_locked(),
        ensures
            *r == old(self).spec_data(),
            final(self).spec_locked(),
            final(self).spec_data() == *final(r),
    {
        &mut self.data
    }

    /// Ends a hold: the guard goes and the lock is released, keeping the
    /// data.
    pub fn unlock(&mut self, guard: SpinMutexGuard)
        requires
            old(self).spec_locked(),
        ensures
            !final(self).spec_locked(),
            final(self).spec_data() == old(self).spec_data(),
    {
        self.spin.unlock();
    }

    /// Forcefully unlocks this mutex.
    pub fn force_unlock(&mut self)
        ensures
            !final(self).spec_locked(),
            final(self).spec_data() == old(self).spec_data(),
    {
        self.spin.unlock();
    }

    /// Consumes the mutex and returns the data.
    pub fn into_inner(self) -> (r: T)
        ensures
            r == self.spec_data(),
    {
        self.data
    }
}

/// A value that is written once and read afterwards.
pub struct Once<T> {
    value: Option<T>,
}

impl<T> Once<T> {
    pub closed spec fn spec_value(&self) -> Option<T> {
        self.value
    }

    pub fn new() -> (r: Self)
        ensures
            r.spec_value() is None,
    {
        Self { value: None }
    }

    /// Initializes the value; it must never have been initialized before.
    pub fn init(&mut self, val: T)
        requires
            old(self).spec_value() is None,
        ensures
            final(self).spec_value() == Some(val),
    {
        self.value = Some(val);
    }

    /// Returns the value; it must have been initialized.
    pub fn get(&self) -> (r: &T)
        requires
            self.spec_value() is Some,
        ensures
            *r == self.spec_value()->0,
    {
        match &self.value {
            Some(v) => v,
            None => vstd::pervasive::unreached(),
        }
    }
}

/// A reader-writer lock (not implemented yet).
pub struct RwLock<T> {
    _p: core::marker::PhantomData<T>,
}

} // verus!
