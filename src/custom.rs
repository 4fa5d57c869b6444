use vstd::prelude::*;
use std::sync::{Arc, Mutex};

verus! {

#[verifier::external_type_specification]
#[verifier::external_body]
#[verifier::reject_recursive_types(T)]
pub struct ExMutex<T: ?Sized>(Mutex<T>);

/// Relies on `Mutex::new`: a new, unlocked mutex around the value.
pub assume_specification<T>[ Mutex::<T>::new ](t: T) -> Mutex<T>;

/// A native value shared with the host runtime, behind a mutex: every access
/// takes the lock, and the value lives as long as any of its handles.
#[verifier::reject_recursive_types(T)]
pub struct Custom<T> {
    inner: Arc<Mutex<T>>,
}

/// A native value shared with the host runtime that is only ever read.
pub struct CustomConst<T> {
    inner: Arc<T>,
}

impl<T> Custom<T> {
    /// The mutex that guards the value.
    pub closed spec fn mutex(&self) -> Mutex<T> {
        *self.inner
    }

    /// Wraps `t` in a new mutex, shared by reference counting.
    pub fn new(t: T) -> Self {
        Custom { inner: Arc::new(Mutex::new(t)) }
    }

    /// The mutex that guards the value.
    pub fn inner(&self) -> (r: &Mutex<T>)
        ensures
            *r == self.mutex(),
    {
        &*self.inner
    }
}

impl<T> CustomConst<T> {
    /// The shared value.
    pub closed spec fn view(&self) -> T {
        *self.inner
    }

    /// Shares `t` by reference counting.
    pub fn new(t: T) -> (r: Self)
        ensures
            r.view() == t,
    {
        CustomConst { inner: Arc::new(t) }
    }

    /// The shared value.
    pub fn inner(&self) -> (r: &T)
        ensures
            *r == self.view(),
    {
        &*self.inner
    }
}

} // verus!
