//! The arena itself: one contiguous byte buffer of fixed capacity, a bump
//! cursor marking the first unused byte, and an epoch counter that a reset
//! advances so that views handed out before the reset can be refused.

use vstd::prelude::*;

use crate::repr::ByteRepr;

verus! {

/// Capacity, in bytes, of an arena built by `Arena::new`.
pub const DEFAULT_CAPACITY: usize = 4096;

/// An aligned placement would end past the capacity of the buffer.
///
/// The cursor is left exactly where it was; nothing is written.
#[derive(Clone, Copy, Debug, PartialEq, Eq, Structural)]
pub struct OutOfMemory;

/// A placed view was presented to an arena whose current epoch it does not
/// belong to: a reset has invalidated it, or it came from another arena.
#[derive(Clone, Copy, Debug, PartialEq, Eq, Structural)]
pub struct StaleView;

/// The least multiple of `align` that is at least `cursor`: the offset a
/// placement of alignment `align` receives when the cursor stands at `cursor`.
pub open spec fn align_up(cursor: nat, align: nat) -> nat
    recommends
        align >= 1,
{
    let c = cursor as int;
    let a = align as int;
    (((c + a - 1) / a) * a) as nat
}

/// Whether a placement of `size` bytes at alignment `align` fits below
/// capacity `cap` when the cursor stands at `cursor`.
pub open spec fn fits(cursor: nat, cap: nat, size: nat, align: nat) -> bool {
    align_up(cursor, align) + size <= cap
}

/// Alignment rounding is sound: `align_up(c, a)` is a multiple of `a`, is at
/// least `c`, and padding never reaches a whole extra alignment step.
pub proof fn lemma_align_up(c: nat, a: nat)
    requires
        a >= 1,
    ensures
        align_up(c, a) % a == 0,
        c <= align_up(c, a) < c + a,
{
    let x = c as int + a - 1;
    let q = x / (a as int);
    let r = x % (a as int);
    vstd::arithmetic::div_mod::lemma_fundamental_div_mod(x, a as int);
    vstd::arithmetic::div_mod::lemma_mod_multiples_basic(q, a as int);
    vstd::arithmetic::div_mod::lemma_mod_division_less_than_divisor(x, a as int);
    vstd::arithmetic::mul::lemma_mul_is_commutative(a as int, q);
    assert(q * (a as int) == x - r);
    assert(0 <= r < a);
    assert(c <= x - r < c + a);
}

/// The padding the arena inserts before a placement — nothing when the cursor
/// already sits on the alignment, otherwise the distance to the next multiple
/// — lands the cursor exactly on `align_up`.
proof fn lemma_align_up_padding(c: nat, a: nat)
    requires
        a >= 1,
    ensures
        align_up(c, a) == if c % a == 0 {
            c as int
        } else {
            c + (a - c % a)
        },
{
    let ai = a as int;
    let qc = c as int / ai;
    let r = c as int % ai;
    vstd::arithmetic::div_mod::lemma_fundamental_div_mod(c as int, ai);
    vstd::arithmetic::div_mod::lemma_mod_division_less_than_divisor(c as int, ai);
    let x = c as int + a - 1;
    vstd::arithmetic::mul::lemma_mul_is_commutative(ai, qc);
    if r == 0 {
        vstd::arithmetic::div_mod::lemma_fundamental_div_mod_converse_div(x, ai, qc, ai - 1);
        assert(align_up(c, a) == qc * ai);
    } else {
        assert((qc + 1) * ai == qc * ai + ai) by (nonlinear_arith);
        vstd::arithmetic::div_mod::lemma_fundamental_div_mod_converse_div(x, ai, qc + 1, r - 1);
        assert(align_up(c, a) == (qc + 1) * ai);
    }
}

/// A bump arena: a fixed-capacity byte buffer, a cursor at the first unused
/// byte, and the epoch that a reset advances.
pub struct Arena {
    data: Vec<u8>,
    top: usize,
    epoch: u64,
    marks: Ghost<Seq<(nat, nat)>>,
}

/// An exclusive view of one placed value: the offset of its bytes in the
/// arena's buffer and the epoch the placement was made in. It stays readable
/// and writable through the arena until the next reset.
#[derive(Debug)]
pub struct PlacedValue<T> {
    offset: usize,
    epoch: u64,
    marker: core::marker::PhantomData<T>,
}

impl<T> PlacedValue<T> {
    /// Offset of the first byte of the placed value in the arena's buffer.
    pub closed spec fn spec_offset(&self) -> nat {
        self.offset as nat
    }

    /// Epoch of the arena at the time of the placement.
    pub closed spec fn spec_epoch(&self) -> nat {
        self.epoch as nat
    }

    /// Offset of the first byte of the placed value in the arena's buffer.
    pub fn offset(&self) -> (n: usize)
        ensures
            n == self.spec_offset(),
    {
        self.offset
    }
}

/// Whether the view `p` is live in arena `a`: it belongs to the current epoch
/// and its byte range lies below the cursor.
pub open spec fn view_live<T: ByteRepr>(a: Arena, p: PlacedValue<T>) -> bool {
    &&& p.spec_epoch() == a.epoch()
    &&& p.spec_offset() + T::spec_size() <= a.used()
}

/// The bytes the view `p` denotes in arena `a`.
pub open spec fn view_bytes<T: ByteRepr>(a: Arena, p: PlacedValue<T>) -> Seq<u8> {
    a.contents().subrange(p.spec_offset() as int, (p.spec_offset() + T::spec_size()) as int)
}

impl Arena {
    /// The fixed capacity of the buffer, in bytes.
    pub closed spec fn capacity(&self) -> nat {
        self.data@.len()
    }

    /// The cursor: the offset of the first unused byte, in `[0, capacity]`.
    pub closed spec fn used(&self) -> nat {
        self.top as nat
    }

    /// The current allocation epoch; a reset moves to the next one.
    pub closed spec fn epoch(&self) -> nat {
        self.epoch as nat
    }

    /// The bytes of the buffer.
    pub closed spec fn contents(&self) -> Seq<u8> {
        self.data@
    }

    /// The byte range `(offset, size)` of every placement of the current
    /// epoch, in allocation order.
    pub closed spec fn placements(&self) -> Seq<(nat, nat)> {
        self.marks@
    }

    /// The arena's invariant: the cursor never passes the capacity, every
    /// placement of the epoch ends at or below the cursor, and the placements
    /// stand in allocation order, each ending before the next begins.
    pub closed spec fn wf(&self) -> bool {
        &&& self.top as nat <= self.data@.len()
        &&& forall|i: int|
            0 <= i < self.marks@.len() ==> (#[trigger] self.marks@[i]).0 + self.marks@[i].1
                <= self.top as nat
        &&& forall|i: int, j: int|
            0 <= i < j < self.marks@.len() ==> (#[trigger] self.marks@[i]).0 + self.marks@[i].1
                <= (#[trigger] self.marks@[j]).0
    }

    /// Builds an arena over a zero-filled buffer of `capacity` bytes.
    ///
    /// Acquisition of the buffer is the one fatal condition of the library:
    /// if the allocator cannot supply it, the process aborts, as the global
    /// allocator does; no arena with a smaller buffer is ever returned.
    pub fn with_capacity(capacity: usize) -> (a: Arena)
        ensures
            a.wf(),
            a.capacity() == capacity,
            a.used() == 0,
            a.epoch() == 0,
            a.placements() == Seq::<(nat, nat)>::empty(),
    {
        let mut data: Vec<u8> = Vec::new();
        while data.len() < capacity
            invariant
                data@.len() <= capacity,
            decreases capacity - data@.len(),
        {
            data.push(0);
        }
        Arena { data, top: 0, epoch: 0, marks: Ghost(Seq::empty()) }
    }

    /// Builds an arena with the default capacity.
    pub fn new() -> (a: Arena)
        ensures
            a.wf(),
            a.capacity() == DEFAULT_CAPACITY,
            a.used() == 0,
            a.epoch() == 0,
            a.placements() == Seq::<(nat, nat)>::empty(),
    {
        Arena::with_capacity(DEFAULT_CAPACITY)
    }

    /// The cursor: the offset of the first unused byte.
    pub fn top(&self) -> (n: usize)
        ensures
            n == self.used(),
    {
        self.top
    }

    /// Places `value` in the buffer at the next offset aligned for `T`.
    ///
    /// On success the bytes of `value` are written there, the cursor advances
    /// to the end of the placement, and the returned view hands the placement
    /// back for reading and writing until the next reset. When the aligned
    /// placement would end past the capacity, nothing is written, the cursor
    /// keeps its value, and `OutOfMemory` comes back.
    pub fn allocate<T: ByteRepr>(&mut self, value: T) -> (r: Result<PlacedValue<T>, OutOfMemory>)
        requires
            old(self).wf(),
        ensures
            final(self).wf(),
            final(self).capacity() == old(self).capacity(),
            final(self).epoch() == old(self).epoch(),
            r is Ok <==> fits(
                old(self).used(),
                old(self).capacity(),
                T::spec_size(),
                T::spec_align(),
            ),
            r is Err ==> *final(self) == *old(self),
            r matches Ok(p) ==> ({
                let off = align_up(old(self).used(), T::spec_align());
                &&& p.spec_offset() == off
                &&& p.spec_epoch() == old(self).epoch()
                &&& off % T::spec_align() == 0
                &&& old(self).used() <= off
                &&& final(self).used() == off + T::spec_size()
                &&& final(self).placements() == old(self).placements().push(
                    (off, T::spec_size()),
                )
                &&& view_live(*final(self), p)
                &&& view_bytes(*final(self), p) == value.repr()
                &&& forall|k: int|
                    0 <= k < old(self).contents().len() && !(off <= k < off + T::spec_size())
                        ==> final(self).contents()[k] == old(self).contents()[k]
            }),
    {
        let ghost c0 = self.top as nat;
        let align = T::align_of_value();
        let size = T::size_of_value();
        proof {
            lemma_align_up(c0, T::spec_align());
            lemma_align_up_padding(c0, T::spec_align());
        }
        let rem = self.top % align;
        let pad: usize = if rem == 0 {
            0
        } else {
            align - rem
        };
        assert(c0 + pad == align_up(c0, T::spec_align()));
        if pad > self.data.len() - self.top {
            return Err(OutOfMemory);
        }
        let off = self.top + pad;
        if size > self.data.len() - off {
            return Err(OutOfMemory);
        }
        let bytes = value.to_bytes();
        proof {
            value.repr_properties();
        }
        let ghost pre = self.data@;
        let ghost top0 = self.top;
        let ghost epoch0 = self.epoch;
        let ghost marks0 = self.marks@;
        let mut i: usize = 0;
        while i < size
            invariant
                i <= size,
                off + size <= usize::MAX,
                off + size <= self.data@.len(),
                bytes@.len() == size,
                bytes@ == value.repr(),
                self.data@.len() == pre.len(),
                self.top == top0,
                self.epoch == epoch0,
                self.marks@ == marks0,
                forall|k: int| 0 <= k < i ==> self.data@[off + k] == bytes@[k],
                forall|k: int|
                    0 <= k < pre.len() && !(off <= k < off + i) ==> self.data@[k] == pre[k],
            decreases size - i,
        {
            let b = bytes[i];
            self.data.set(off + i, b);
            i = i + 1;
        }
        self.top = off + size;
        self.marks = Ghost(self.marks@.push(((off as nat), (size as nat))));
        let p = PlacedValue { offset: off, epoch: self.epoch, marker: core::marker::PhantomData };
        proof {
            assert(view_bytes(*self, p) =~= value.repr());
            assert forall|x: int|
                0 <= x < self.marks@.len() implies (#[trigger] self.marks@[x]).0 + self.marks@[x].1
                <= self.top as nat by {
                if x < marks0.len() {
                    assert(marks0[x].0 + marks0[x].1 <= top0 as nat);
                }
            }
            assert forall|x: int, y: int|
                0 <= x < y < self.marks@.len() implies (#[trigger] self.marks@[x]).0
                + self.marks@[x].1 <= (#[trigger] self.marks@[y]).0 by {
                if y < marks0.len() {
                    assert(marks0[x].0 + marks0[x].1 <= marks0[y].0);
                } else {
                    assert(marks0[x].0 + marks0[x].1 <= top0 as nat);
                }
            }
        }
        Ok(p)
    }

    /// Reads the value a placed view denotes back out of the buffer.
    ///
    /// A view is honoured only while it is live: made in the arena's current
    /// epoch, so that no reset lies between the placement and this read. A
    /// view that is not live is refused with `StaleView` instead of yielding
    /// bytes that a later epoch may have overwritten.
    pub fn get<T: ByteRepr>(&self, p: &PlacedValue<T>) -> (r: Result<T, StaleView>)
        requires
            self.wf(),
        ensures
            r is Ok <==> view_live(*self, *p),
            r matches Ok(v) ==> v.repr() == view_bytes(*self, *p),
    {
        let size = T::size_of_value();
        if p.epoch != self.epoch {
            return Err(StaleView);
        }
        if p.offset > self.top || size > self.top - p.offset {
            return Err(StaleView);
        }
        let bytes = vstd::slice::slice_subrange(self.data.as_slice(), p.offset, p.offset + size);
        Ok(T::of_bytes(bytes))
    }

    /// Writes `value` over the bytes of a live placed view, leaving every
    /// other byte, the cursor and the epoch untouched. A view that is not
    /// live is refused with `StaleView` and nothing is written.
    pub fn update<T: ByteRepr>(&mut self, p: &PlacedValue<T>, value: T) -> (r: Result<
        (),
        StaleView,
    >)
        requires
            old(self).wf(),
        ensures
            final(self).wf(),
            final(self).capacity() == old(self).capacity(),
            final(self).used() == old(self).used(),
            final(self).epoch() == old(self).epoch(),
            final(self).placements() == old(self).placements(),
            r is Ok <==> view_live(*old(self), *p),
            r is Err ==> *final(self) == *old(self),
            r is Ok ==> view_bytes(*final(self), *p) == value.repr(),
            r is Ok ==> forall|k: int|
                0 <= k < old(self).contents().len() && !(p.spec_offset() <= k < p.spec_offset()
                    + T::spec_size()) ==> final(self).contents()[k] == old(self).contents()[k],
    {
        let size = T::size_of_value();
        if p.epoch != self.epoch {
            return Err(StaleView);
        }
        if p.offset > self.top || size > self.top - p.offset {
            return Err(StaleView);
        }
        let off = p.offset;
        let bytes = value.to_bytes();
        proof {
            value.repr_properties();
        }
        let ghost pre = self.data@;
        let ghost top0 = self.top;
        let ghost epoch0 = self.epoch;
        let ghost marks0 = self.marks@;
        let mut i: usize = 0;
        while i < size
            invariant
                i <= size,
                off + size <= usize::MAX,
                off + size <= self.data@.len(),
                bytes@.len() == size,
                bytes@ == value.repr(),
                self.data@.len() == pre.len(),
                self.top == top0,
                self.epoch == epoch0,
                self.marks@ == marks0,
                forall|k: int| 0 <= k < i ==> self.data@[off + k] == bytes@[k],
                forall|k: int|
                    0 <= k < pre.len() && !(off <= k < off + i) ==> self.data@[k] == pre[k],
            decreases size - i,
        {
            let b = bytes[i];
            self.data.set(off + i, b);
            i = i + 1;
        }
        proof {
            assert(view_bytes(*self, *p) =~= value.repr());
        }
        Ok(())
    }

    /// Moves the cursor back to zero and opens the next epoch, so that every
    /// view handed out before this call is refused from now on. The buffer
    /// contents are left untouched; after this call the arena hands out the
    /// same offsets as a freshly built arena of the same capacity.
    pub fn reset(&mut self)
        requires
            old(self).wf(),
            old(self).epoch() < u64::MAX,
        ensures
            final(self).wf(),
            final(self).used() == 0,
            final(self).epoch() == old(self).epoch() + 1,
            final(self).capacity() == old(self).capacity(),
            final(self).contents() == old(self).contents(),
            final(self).placements() == Seq::<(nat, nat)>::empty(),
    {
        self.top = 0;
        self.epoch = self.epoch + 1;
        self.marks = Ghost(Seq::empty());
    }
}

/// Non-overlap: the byte ranges of any two distinct placements of one epoch
/// are disjoint — the earlier one ends at or before the later one begins.
pub proof fn lemma_placements_disjoint(a: Arena, i: int, j: int)
    requires
        a.wf(),
        0 <= i < a.placements().len(),
        0 <= j < a.placements().len(),
        i != j,
    ensures
        a.placements()[i].0 + a.placements()[i].1 <= a.placements()[j].0 || a.placements()[j].0
            + a.placements()[j].1 <= a.placements()[i].0,
{
}

/// Capacity bound: every placement of the current epoch ends at or below the
/// cursor, and the cursor never passes the capacity.
pub proof fn lemma_capacity_bound(a: Arena, i: int)
    requires
        a.wf(),
        0 <= i < a.placements().len(),
    ensures
        a.placements()[i].0 + a.placements()[i].1 <= a.used() <= a.capacity(),
{
}

/// The offsets a sequence of `(size, align)` requests receives, one request
/// per entry, starting with the cursor at `cursor` in a buffer of `cap`
/// bytes: `Some(offset)` where the request fits and moves the cursor on,
/// `None` where it does not and the cursor stands still. This is the whole
/// allocation behaviour of an epoch, as `allocate`'s contract states it.
pub open spec fn replay(cursor: nat, cap: nat, reqs: Seq<(nat, nat)>) -> Seq<Option<nat>>
    decreases reqs.len(),
{
    if reqs.len() == 0 {
        Seq::empty()
    } else {
        let size = reqs[0].0;
        let align = reqs[0].1;
        if fits(cursor, cap, size, align) {
            seq![Some(align_up(cursor, align))] + replay(
                align_up(cursor, align) + size,
                cap,
                reqs.skip(1),
            )
        } else {
            seq![Option::<nat>::None] + replay(cursor, cap, reqs.skip(1))
        }
    }
}

/// Every request of a replayed sequence is answered: the replay yields one
/// outcome, `Some` offset or `None`, per request.
pub proof fn lemma_replay_len(cursor: nat, cap: nat, reqs: Seq<(nat, nat)>)
    ensures
        replay(cursor, cap, reqs).len() == reqs.len(),
    decreases reqs.len(),
{
    if reqs.len() > 0 {
        let size = reqs[0].0;
        let align = reqs[0].1;
        if fits(cursor, cap, size, align) {
            lemma_replay_len(align_up(cursor, align) + size, cap, reqs.skip(1));
        } else {
            lemma_replay_len(cursor, cap, reqs.skip(1));
        }
    }
}

/// Reset determinism: an arena that has just been reset and an arena that has
/// just been built hand out identical offsets for an identical sequence of
/// requests, provided their capacities agree — the offsets depend on nothing
/// but the cursor, the capacity and the requests.
pub proof fn lemma_reset_determinism(a: Arena, b: Arena, reqs: Seq<(nat, nat)>)
    requires
        a.used() == 0,
        b.used() == 0,
        a.capacity() == b.capacity(),
    ensures
        replay(a.used(), a.capacity(), reqs) == replay(b.used(), b.capacity(), reqs),
{
}

/// Round trip: reading a view straight after its placement yields a
/// byte-for-byte copy of the value placed. `allocate`'s contract makes the
/// view's bytes the representation of the value `v` it placed; `get`'s
/// contract makes the representation of the value `w` it reads those very
/// bytes; so the two values' representations are equal.
pub proof fn lemma_round_trip<T: ByteRepr>(a: Arena, p: PlacedValue<T>, v: T, w: T)
    requires
        view_bytes(a, p) == v.repr(),
        w.repr() == view_bytes(a, p),
    ensures
        w.repr() == v.repr(),
{
}

} // verus!

