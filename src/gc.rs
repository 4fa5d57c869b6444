use vstd::prelude::*;
use vstd::pervasive::VecAdditionalExecFns;
use crate::value::{Value, Shape, NativeValue, shape_m, native_m, value_m};
use crate::model::{well_typed, enc, EncodedM};
use vstd::utf8::encode_utf8;
use crate::value::{values_m, lemma_values_m};
use crate::codec::encode;

verus! {

/// The host runtime's heap as native code sees it: blocks at addresses that a
/// collection may change, and a root table that the collector keeps up to
/// date. Calls that may allocate (and so may collect) take it as `&mut`;
/// calls that only read take it as `&`.
pub struct Gc {
    cells: Vec<Option<Value>>,
    roots: Vec<Option<usize>>,
}

/// A registration that keeps one host value alive across collections. The
/// value's address is read again from the root table on every access.
pub struct RootedValue {
    slot: usize,
}

impl Gc {
    /// Every root names a distinct live block.
    pub closed spec fn wf(&self) -> bool {
        &&& forall|h: int|
            0 <= h < self.roots@.len() && (#[trigger] self.roots@[h]) is Some ==> {
                &&& self.roots@[h]->0 < self.cells@.len()
                &&& self.cells@[self.roots@[h]->0 as int] is Some
            }
        &&& forall|h1: int, h2: int|
            0 <= h1 < self.roots@.len() && 0 <= h2 < self.roots@.len() && h1 != h2
                && (#[trigger] self.roots@[h1]) is Some && (#[trigger] self.roots@[h2]) is Some
                ==> self.roots@[h1]->0 != self.roots@[h2]->0
    }

    /// The number of root slots handed out so far.
    pub closed spec fn slots(&self) -> nat {
        self.roots@.len()
    }

    /// The value that root slot `h` keeps alive, if it is registered.
    pub closed spec fn rooted(&self, h: int) -> Option<Value> {
        if 0 <= h < self.roots@.len() && self.roots@[h] is Some {
            self.cells@[self.roots@[h]->0 as int]
        } else {
            None
        }
    }

    /// The number of blocks on the heap, live or not.
    pub closed spec fn heap_size(&self) -> nat {
        self.cells@.len()
    }

    /// Every value rooted in `self` is still rooted in `after`, unchanged.
    pub open spec fn keeps_roots(&self, after: &Gc) -> bool {
        &&& self.slots() <= after.slots()
        &&& forall|h: int| #[trigger] self.rooted(h) is Some ==> after.rooted(h) == self.rooted(h)
    }

    /// An empty heap with no roots.
    pub fn new() -> (r: Gc)
        ensures
            r.wf(),
            r.slots() == 0,
            r.heap_size() == 0,
    {
        Gc { cells: Vec::new(), roots: Vec::new() }
    }

    /// A compacting collection: the rooted blocks move to the front of the
    /// heap, in the order of their roots, and every other block is freed.
    pub fn collect(&mut self)
        requires
            old(self).wf(),
        ensures
            final(self).wf(),
            old(self).keeps_roots(&*final(self)),
            final(self).slots() == old(self).slots(),
            forall|h: int| #[trigger] final(self).rooted(h) is Some <==> old(self).rooted(h) is Some,
            final(self).heap_size() <= old(self).slots(),
    {
        let ghost old_cells = self.cells@;
        let ghost old_roots = self.roots@;
        let mut moved: Vec<Option<Value>> = Vec::new();
        let mut i: usize = 0;
        while i < self.roots.len()
            invariant
                self.roots@.len() == old_roots.len(),
                self.cells@.len() == old_cells.len(),
                i <= old_roots.len(),
                moved@.len() <= i,
                forall|h: int| i <= h < old_roots.len() ==> #[trigger] self.roots@[h] == old_roots[h],
                forall|h: int|
                    0 <= h < old_roots.len() && (#[trigger] old_roots[h]) is Some ==> {
                        &&& old_roots[h]->0 < old_cells.len()
                        &&& old_cells[old_roots[h]->0 as int] is Some
                    },
                forall|h1: int, h2: int|
                    0 <= h1 < old_roots.len() && 0 <= h2 < old_roots.len() && h1 != h2
                        && (#[trigger] old_roots[h1]) is Some && (#[trigger] old_roots[h2]) is Some
                        ==> old_roots[h1]->0 != old_roots[h2]->0,
                forall|h: int|
                    i <= h < old_roots.len() && (#[trigger] old_roots[h]) is Some
                        ==> self.cells@[old_roots[h]->0 as int] == old_cells[old_roots[h]->0 as int],
                forall|h: int|
                    0 <= h < i ==> ((#[trigger] self.roots@[h]) is Some <==> old_roots[h] is Some),
                forall|h: int|
                    0 <= h < i && (#[trigger] self.roots@[h]) is Some ==> {
                        &&& self.roots@[h]->0 < moved@.len()
                        &&& moved@[self.roots@[h]->0 as int] == old_cells[old_roots[h]->0 as int]
                    },
                forall|h1: int, h2: int|
                    0 <= h1 < i && 0 <= h2 < i && h1 != h2 && (#[trigger] self.roots@[h1]) is Some
                        && (#[trigger] self.roots@[h2]) is Some ==> self.roots@[h1]->0
                        != self.roots@[h2]->0,
            decreases old_roots.len() - i,
        {
            match self.roots[i] {
                Some(a) => {
                    let mut taken: Option<Value> = None;
                    self.cells.set_and_swap(a, &mut taken);
                    let addr = moved.len();
                    moved.push(taken);
                    self.roots.set(i, Some(addr));
                },
                None => {},
            }
            i = i + 1;
        }
        self.cells = moved;
    }

    /// Places `v` on the heap. The heap is collected first, so the addresses
    /// of all blocks may change; only rooted values survive.
    pub fn allocate(&mut self, v: Value) -> (addr: usize)
        requires
            old(self).wf(),
        ensures
            final(self).wf(),
            old(self).keeps_roots(&*final(self)),
            final(self).slots() == old(self).slots(),
            forall|h: int| #[trigger] final(self).rooted(h) is Some <==> old(self).rooted(h) is Some,
            addr < final(self).heap_size(),
            final(self).block_at(addr as int) == Some(v),
            final(self).unrooted(addr as int),
    {
        self.collect();
        let addr = self.cells.len();
        self.cells.push(Some(v));
        addr
    }

    /// No root names address `a`.
    pub closed spec fn unrooted(&self, a: int) -> bool {
        forall|h: int|
            0 <= h < self.roots@.len() && (#[trigger] self.roots@[h]) is Some ==> self.roots@[h]->0
                != a
    }

    /// The block at an address, if one is there.
    pub closed spec fn block_at(&self, a: int) -> Option<Value> {
        if 0 <= a < self.cells@.len() {
            self.cells@[a]
        } else {
            None
        }
    }
}

impl RootedValue {
    /// The root slot of this registration.
    pub closed spec fn slot(&self) -> int {
        self.slot as int
    }

    /// Allocates `v` and registers it as a root.
    pub fn create(gc: &mut Gc, v: Value) -> (r: RootedValue)
        requires
            old(gc).wf(),
            old(gc).slots() < usize::MAX,
        ensures
            final(gc).wf(),
            old(gc).keeps_roots(&*final(gc)),
            r.slot() == old(gc).slots(),
            final(gc).slots() == old(gc).slots() + 1,
            final(gc).rooted(r.slot()) == Some(v),
            forall|h: int|
                h != r.slot() ==> (#[trigger] final(gc).rooted(h) is Some <==> old(gc).rooted(h) is Some),
    {
        let ghost before = *gc;
        let addr = gc.allocate(v);
        let ghost mid = *gc;
        let slot = gc.roots.len();
        gc.roots.push(Some(addr));
        assert(forall|h: int| #[trigger] before.rooted(h) is Some ==> mid.rooted(h) == before.rooted(h));
        assert forall|h: int| #[trigger] before.rooted(h) is Some implies gc.rooted(h) == before.rooted(h) by {
            assert(mid.rooted(h) == before.rooted(h));
            assert(gc.roots@[h] == mid.roots@[h]);
        }
        RootedValue { slot }
    }

    /// The rooted value, read again from the root table.
    pub fn value<'a>(&self, gc: &'a Gc) -> (r: &'a Value)
        requires
            gc.wf(),
            gc.rooted(self.slot()) is Some,
        ensures
            gc.rooted(self.slot()) == Some(*r),
    {
        let a = gc.roots[self.slot].unwrap();
        match &gc.cells[a] {
            Some(v) => v,
            None => {
                assert(false);
                &gc.cells[a].as_ref().unwrap()
            },
        }
    }

    /// Removes the registration; the value is no longer kept alive.
    pub fn release(self, gc: &mut Gc)
        requires
            old(gc).wf(),
        ensures
            final(gc).wf(),
            final(gc).slots() == old(gc).slots(),
            final(gc).rooted(self.slot()) is None,
            forall|h: int|
                h != self.slot() ==> #[trigger] final(gc).rooted(h) == old(gc).rooted(h),
    {
        if self.slot < gc.roots.len() {
            gc.roots.set(self.slot, None);
        }
    }
}

/// Runs `f` on a fresh, empty heap. Only one heap should be in use on a call
/// stack at a time; this is a precondition of the design, not checked.
pub fn with_gc<F, T>(f: F) -> (r: T)
    where
        F: FnOnce(&mut Gc) -> T,
    requires
        forall|g: &mut Gc| g.wf() && g.slots() == 0 ==> #[trigger] f.requires((g,)),
    ensures
        exists|g: &mut Gc| g.wf() && g.slots() == 0 && #[trigger] f.ensures((g,), r),
{
    let mut gc = Gc::new();
    f(&mut gc)
}

/// Encodes a native value and roots the result.
pub fn to_rooted_value(gc: &mut Gc, shape: &Shape, v: &NativeValue) -> (r: RootedValue)
    requires
        old(gc).wf(),
        old(gc).slots() < usize::MAX,
        well_typed(shape_m(*shape), native_m(*v)),
    ensures
        final(gc).wf(),
        old(gc).keeps_roots(&*final(gc)),
        final(gc).slots() == old(gc).slots() + 1,
        final(gc).rooted(r.slot()) matches Some(e) && value_m(e) == enc(shape_m(*shape), native_m(*v)),
{
    let e = encode(shape, v);
    RootedValue::create(gc, e)
}

/// A value kept by a sequence of root-keeping steps is kept by the whole
/// sequence: whatever allocations and collections happen in between, a value
/// rooted before them is rooted after them, unchanged, and so decodes to the
/// same native value.
pub proof fn lemma_rooting_safety(a: Gc, b: Gc, c: Gc)
    requires
        a.keeps_roots(&b),
        b.keeps_roots(&c),
    ensures
        a.keeps_roots(&c),
{
    assert forall|h: int| #[trigger] a.rooted(h) is Some implies c.rooted(h) == a.rooted(h) by {
        assert(b.rooted(h) == a.rooted(h));
    }
}

/// A block of tag 0 holding `vs`, as the host runtime lays out tuples and
/// arrays. Building it takes the allocation capability.
pub fn array(_gc: &mut Gc, vs: Vec<Value>) -> (r: Value)
    ensures
        value_m(r) == EncodedM::Block(0, values_m(vs@)),
{
    Value::Block(0, vs)
}

/// A pair.
pub fn tuple2(gc: &mut Gc, v1: Value, v2: Value) -> (r: Value)
    ensures
        value_m(r) == EncodedM::Block(0, seq![value_m(v1), value_m(v2)]),
{
    let vs = vec![v1, v2];
    proof {
        lemma_values_m(vs@);
        assert(values_m(vs@) =~= seq![value_m(v1), value_m(v2)]);
    }
    array(gc, vs)
}

/// A triple.
pub fn tuple3(gc: &mut Gc, v1: Value, v2: Value, v3: Value) -> (r: Value)
    ensures
        value_m(r) == EncodedM::Block(0, seq![value_m(v1), value_m(v2), value_m(v3)]),
{
    let vs = vec![v1, v2, v3];
    proof {
        lemma_values_m(vs@);
        assert(values_m(vs@) =~= seq![value_m(v1), value_m(v2), value_m(v3)]);
    }
    array(gc, vs)
}

/// A quadruple.
pub fn tuple4(gc: &mut Gc, v1: Value, v2: Value, v3: Value, v4: Value) -> (r: Value)
    ensures
        value_m(r) == EncodedM::Block(
            0,
            seq![value_m(v1), value_m(v2), value_m(v3), value_m(v4)],
        ),
{
    let vs = vec![v1, v2, v3, v4];
    proof {
        lemma_values_m(vs@);
        assert(values_m(vs@) =~= seq![value_m(v1), value_m(v2), value_m(v3), value_m(v4)]);
    }
    array(gc, vs)
}

/// A string block holding the UTF-8 bytes of `s`.
pub fn string(_gc: &mut Gc, s: &str) -> (r: Value)
    ensures
        value_m(r) == EncodedM::Bytes(encode_utf8(s@)),
{
    Value::Bytes(vstd::slice::slice_to_vec(s.as_bytes()))
}

/// A boxed float, given by its bits.
pub fn double(_gc: &mut Gc, bits: u64) -> (r: Value)
    ensures
        r == Value::Double(bits),
{
    Value::Double(bits)
}

/// A boxed 64-bit integer.
pub fn int64(_gc: &mut Gc, i: i64) -> (r: Value)
    ensures
        r == Value::Int64(i),
{
    Value::Int64(i)
}

} // verus!
