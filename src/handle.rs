use vstd::prelude::*;
use vstd::pervasive::VecAdditionalExecFns;

verus! {

/// Why an access to an opaque handle failed.
#[derive(Debug, PartialEq, Eq, Structural)]
pub enum HandleError {
    /// The handle was closed, or its last reference dropped.
    AlreadyClosed,
    /// No more references to the handle can be counted.
    TooManyReferences,
}

/// A native value owned by exactly one host-side reference, which can be
/// closed explicitly.
pub struct OpaqueHandle<T> {
    value: Option<T>,
}

impl<T> OpaqueHandle<T> {
    /// The value, or `None` once closed.
    pub closed spec fn view(&self) -> Option<T> {
        self.value
    }

    /// Moves `t` behind a new handle.
    pub fn new(t: T) -> (r: Self)
        ensures
            r@ == Some(t),
    {
        OpaqueHandle { value: Some(t) }
    }

    /// Whether the handle has been closed.
    pub fn is_closed(&self) -> (r: bool)
        ensures
            r == (self@ is None),
    {
        self.value.is_none()
    }

    /// The value, unless the handle has been closed.
    pub fn get(&self) -> (r: Result<&T, HandleError>)
        ensures
            match r {
                Ok(v) => self@ == Some(*v),
                Err(e) => self@ is None && e == HandleError::AlreadyClosed,
            },
    {
        match &self.value {
            Some(v) => Ok(v),
            None => Err(HandleError::AlreadyClosed),
        }
    }

    /// Closes the handle and hands its value out, exactly once.
    pub fn close(&mut self) -> (r: Result<T, HandleError>)
        ensures
            final(self)@ is None,
            match r {
                Ok(v) => old(self)@ == Some(v),
                Err(e) => old(self)@ is None && e == HandleError::AlreadyClosed,
            },
    {
        match self.value.take() {
            Some(v) => Ok(v),
            None => Err(HandleError::AlreadyClosed),
        }
    }
}

/// The state of one shared handle: its value while alive, and how many
/// references to it exist.
pub open spec fn clone_step<T>(e: (Option<T>, nat)) -> (Option<T>, nat) {
    (e.0, e.1 + 1)
}

/// The state after one reference is dropped: the value is destroyed with the
/// last reference.
pub open spec fn drop_step<T>(e: (Option<T>, nat)) -> (Option<T>, nat) {
    if e.1 <= 1 {
        (None, 0)
    } else {
        (e.0, (e.1 - 1) as nat)
    }
}

/// `n` clones in a row.
pub open spec fn clones<T>(e: (Option<T>, nat), n: nat) -> (Option<T>, nat)
    decreases n,
{
    if n == 0 {
        e
    } else {
        clone_step(clones(e, (n - 1) as nat))
    }
}

/// `n` drops in a row.
pub open spec fn drops<T>(e: (Option<T>, nat), n: nat) -> (Option<T>, nat)
    decreases n,
{
    if n == 0 {
        e
    } else {
        drop_step(drops(e, (n - 1) as nat))
    }
}

proof fn lemma_clones<T>(v: T, c: nat, n: nat)
    ensures
        clones((Some(v), c), n) == (Some(v), c + n),
    decreases n,
{
    if n > 0 {
        lemma_clones(v, c, (n - 1) as nat);
    }
}

proof fn lemma_drops<T>(v: T, c: nat, n: nat, k: nat)
    requires
        c >= 1,
        k <= n,
    ensures
        drops((Some(v), c + n), k) == (Some(v), (c + n - k) as nat),
    decreases k,
{
    if k > 0 {
        lemma_drops(v, c, n, (k - 1) as nat);
    }
}

/// A shared handle created and then cloned `n` times stays alive, with its
/// value, through `n` drops; the next drop destroys the value, and no
/// reference is left to reach it.
pub proof fn lemma_shared_lifecycle<T>(v: T, n: nat)
    ensures
        forall|k: nat| k <= n ==> #[trigger] drops(clones((Some(v), 1nat), n), k) == (Some(v), (1 + n - k) as nat),
        drops(clones((Some(v), 1nat), n), n + 1) == (None::<T>, 0nat),
{
    lemma_clones(v, 1, n);
    assert forall|k: nat| k <= n implies #[trigger] drops(clones((Some(v), 1nat), n), k) == (
        Some(v),
        (1 + n - k) as nat,
    ) by {
        lemma_drops(v, 1, n, k);
    }
    lemma_drops(v, 1, n, n);
}

/// The host-visible references to shared native values, each with a count of
/// references; a value is destroyed when its last reference is dropped.
pub struct SharedHandles<T> {
    values: Vec<Option<T>>,
    counts: Vec<usize>,
}

impl<T> SharedHandles<T> {
    pub closed spec fn wf(&self) -> bool {
        &&& self.values@.len() == self.counts@.len()
        &&& forall|i: int|
            0 <= i < self.values@.len() ==> (#[trigger] self.values@[i] is Some <==> self.counts@[i]
                > 0)
    }

    /// The number of handles created so far.
    pub closed spec fn len(&self) -> nat {
        self.values@.len()
    }

    /// The value and reference count of handle `id`.
    pub closed spec fn entry(&self, id: int) -> (Option<T>, nat) {
        if 0 <= id < self.values@.len() {
            (self.values@[id], self.counts@[id] as nat)
        } else {
            (None, 0)
        }
    }

    /// No handles.
    pub fn new() -> (r: Self)
        ensures
            r.wf(),
            r.len() == 0,
    {
        SharedHandles { values: Vec::new(), counts: Vec::new() }
    }

    /// Shares `v` behind a new handle with one reference.
    pub fn share(&mut self, v: T) -> (id: usize)
        requires
            old(self).wf(),
        ensures
            final(self).wf(),
            id == old(self).len(),
            final(self).len() == old(self).len() + 1,
            final(self).entry(id as int) == (Some(v), 1nat),
            forall|i: int| i != id ==> #[trigger] final(self).entry(i) == old(self).entry(i),
    {
        let id = self.values.len();
        self.values.push(Some(v));
        self.counts.push(1);
        id
    }

    /// Adds a reference to a live handle.
    pub fn clone_handle(&mut self, id: usize) -> (r: Result<(), HandleError>)
        requires
            old(self).wf(),
        ensures
            final(self).wf(),
            final(self).len() == old(self).len(),
            forall|i: int| i != id ==> #[trigger] final(self).entry(i) == old(self).entry(i),
            old(self).entry(id as int).0 is Some && old(self).entry(id as int).1 < usize::MAX ==> r is Ok,
            match r {
                Ok(()) => old(self).entry(id as int).0 is Some && final(self).entry(id as int)
                    == clone_step(old(self).entry(id as int)),
                Err(e) => final(self).entry(id as int) == old(self).entry(id as int) && (
                e == HandleError::AlreadyClosed <==> old(self).entry(id as int).0 is None),
            },
    {
        if id >= self.values.len() || self.counts[id] == 0 {
            return Err(HandleError::AlreadyClosed);
        }
        if self.counts[id] == usize::MAX {
            return Err(HandleError::TooManyReferences);
        }
        let c = self.counts[id];
        self.counts.set(id, c + 1);
        Ok(())
    }

    /// Drops a reference to a live handle. The last one destroys the value,
    /// which is handed out here.
    pub fn drop_handle(&mut self, id: usize) -> (r: Result<Option<T>, HandleError>)
        requires
            old(self).wf(),
        ensures
            final(self).wf(),
            final(self).len() == old(self).len(),
            forall|i: int| i != id ==> #[trigger] final(self).entry(i) == old(self).entry(i),
            match r {
                Ok(destroyed) => {
                    &&& old(self).entry(id as int).0 is Some
                    &&& final(self).entry(id as int) == drop_step(old(self).entry(id as int))
                    &&& destroyed == if old(self).entry(id as int).1 == 1 {
                        old(self).entry(id as int).0
                    } else {
                        None
                    }
                },
                Err(e) => e == HandleError::AlreadyClosed && old(self).entry(id as int).0 is None
                    && final(self).entry(id as int) == old(self).entry(id as int),
            },
    {
        if id >= self.values.len() || self.counts[id] == 0 {
            return Err(HandleError::AlreadyClosed);
        }
        let c = self.counts[id];
        if c == 1 {
            let mut taken: Option<T> = None;
            self.values.set_and_swap(id, &mut taken);
            self.counts.set(id, 0);
            Ok(taken)
        } else {
            self.counts.set(id, c - 1);
            Ok(None)
        }
    }

    /// The value behind a live handle.
    pub fn get(&self, id: usize) -> (r: Result<&T, HandleError>)
        requires
            self.wf(),
        ensures
            match r {
                Ok(v) => self.entry(id as int).0 == Some(*v),
                Err(e) => e == HandleError::AlreadyClosed && self.entry(id as int).0 is None,
            },
    {
        if id >= self.values.len() {
            return Err(HandleError::AlreadyClosed);
        }
        match &self.values[id] {
            Some(v) => Ok(v),
            None => Err(HandleError::AlreadyClosed),
        }
    }
}

} // verus!
