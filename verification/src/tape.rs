use vstd::prelude::*;

verus! {

/// The byte that an (idealized, infinite) tape holds at position `p`, when
/// `mem` is the backing store: positions at or beyond the store's length
/// hold the default value 0.
pub open spec fn tape_read(mem: Seq<u8>, p: nat) -> u8 {
    if p < mem.len() {
        mem[p as int]
    } else {
        0u8
    }
}

/// The backing store after `v` is written at position `p`: the store is
/// extended with the default value 0 up to `p` if `p` lies beyond it, and
/// position `p` then holds `v`.
pub open spec fn tape_write(mem: Seq<u8>, p: nat, v: u8) -> Seq<u8> {
    if p < mem.len() {
        mem.update(p as int, v)
    } else {
        Seq::new(
            p + 1,
            |i: int|
                if i < mem.len() {
                    mem[i]
                } else if i == p {
                    v
                } else {
                    0u8
                },
        )
    }
}

/// Law of the tape: a position never written reads as 0 (a fresh tape has an
/// empty backing store), a write lands exactly where it was aimed, a write
/// changes no other position — independent of whether the write had to grow
/// the store — and the store only ever grows.
pub proof fn lemma_tape_write_read(mem: Seq<u8>, p: nat, v: u8, q: nat)
    ensures
        tape_read(tape_write(mem, p, v), p) == v,
        p != q ==> tape_read(tape_write(mem, p, v), q) == tape_read(mem, q),
        tape_read(Seq::<u8>::empty(), q) == 0,
        tape_write(mem, p, v).len() >= mem.len(),
{
}

/// An auto-growing, zero-initialized array of bytes: the tape's backing
/// store. Reads beyond the current extent yield 0; writes beyond it extend
/// the store first. Its view is the backing store itself; `tape_read` says
/// what any position of the idealized tape holds.
pub struct GrowableVec {
    arr: Vec<u8>,
}

impl View for GrowableVec {
    type V = Seq<u8>;

    closed spec fn view(&self) -> Seq<u8> {
        self.arr@
    }
}

impl GrowableVec {
    /// A fresh tape: empty backing store, every position reads as 0.
    pub fn new() -> (r: GrowableVec)
        ensures
            r@ == Seq::<u8>::empty(),
    {
        GrowableVec { arr: Vec::new() }
    }

    /// The byte at `position`; 0 if `position` is beyond the current extent.
    /// Total over all positions and free of side effects.
    pub fn read_at(&self, position: usize) -> (r: u8)
        ensures
            r == tape_read(self@, position as nat),
    {
        if position < self.arr.len() {
            self.arr[position]
        } else {
            0
        }
    }

    /// Stores `value` at `position`, growing the backing store (filled with
    /// 0) first when `position` lies beyond it. `position` must leave room
    /// for a store of `position + 1` bytes, hence the machine-size bound.
    pub fn write_at(&mut self, position: usize, value: u8)
        requires
            position < usize::MAX,
        ensures
            final(self)@ == tape_write(old(self)@, position as nat, value),
    {
        if position < self.arr.len() {
            self.arr[position] = value;
            proof {
                assert(self@ =~= tape_write(old(self)@, position as nat, value));
            }
        } else {
            while self.arr.len() < position
                invariant
                    position < usize::MAX,
                    old(self)@.len() <= self.arr@.len() <= position,
                    forall|i: int|
                        0 <= i < self.arr@.len() ==> self.arr@[i] == tape_read(old(self)@, i as nat),
                decreases position - self.arr.len(),
            {
                self.arr.push(0);
            }
            self.arr.push(value);
            proof {
                assert(self@ =~= tape_write(old(self)@, position as nat, value));
            }
        }
    }
}

} // verus!
