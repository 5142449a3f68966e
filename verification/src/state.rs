use crate::error::BfError;
use crate::error::BfStateResult;
use crate::tape::GrowableVec;
use crate::tape::tape_read;
use crate::tape::tape_write;
use vstd::prelude::*;

verus! {

/// The mathematical model of one interpreter state: the tape's backing
/// store, the cursor, the remaining-input position within the input buffer,
/// and the bytes emitted so far.
#[verifier::ext_equal]
pub struct MachView {
    pub mem: Seq<u8>,
    pub ptr: nat,
    pub input: Seq<u8>,
    pub in_pos: nat,
    pub output: Seq<u8>,
}

/// Incrementing a cell wraps modulo 256.
pub open spec fn wrap_inc(b: u8) -> u8 {
    ((b + 1) % 256) as u8
}

/// Decrementing a cell wraps modulo 256.
pub open spec fn wrap_dec(b: u8) -> u8 {
    ((b + 255) % 256) as u8
}

/// The state a Brainfuck program runs against: the tape with its cursor,
/// plus the byte source and byte sink as plain buffers. `input` with
/// `input_pos` plays the part of standard input (a `,` takes the next unread
/// byte), and `output` collects what `.` emits, so a run can be driven and
/// observed without a terminal.
pub struct BfState {
    pub memory: GrowableVec,
    pub pointer: usize,
    pub input: Vec<u8>,
    pub input_pos: usize,
    pub output: Vec<u8>,
}

impl View for BfState {
    type V = MachView;

    open spec fn view(&self) -> MachView {
        MachView {
            mem: self.memory@,
            ptr: self.pointer as nat,
            input: self.input@,
            in_pos: self.input_pos as nat,
            output: self.output@,
        }
    }
}

impl BfState {
    /// A fresh state: empty tape, cursor at 0, no input, nothing emitted.
    pub fn new() -> (r: BfState)
        ensures
            r@ == (MachView {
                mem: Seq::<u8>::empty(),
                ptr: 0,
                input: Seq::<u8>::empty(),
                in_pos: 0,
                output: Seq::<u8>::empty(),
            }),
    {
        BfState {
            memory: GrowableVec::new(),
            pointer: 0,
            input: Vec::new(),
            input_pos: 0,
            output: Vec::new(),
        }
    }

    /// The byte under the cursor.
    pub fn curr(&self) -> (r: u8)
        ensures
            r == tape_read(self@.mem, self@.ptr),
    {
        self.memory.read_at(self.pointer)
    }

    /// Stores `value` under the cursor.
    pub fn set_curr(&mut self, value: u8)
        requires
            old(self).pointer < usize::MAX,
        ensures
            final(self)@ == (MachView {
                mem: tape_write(old(self)@.mem, old(self)@.ptr, value),
                ..old(self)@
            }),
    {
        self.memory.write_at(self.pointer, value);
    }

    /// `+`: increments the byte under the cursor, wrapping modulo 256.
    pub fn inc(&mut self)
        requires
            old(self).pointer < usize::MAX,
        ensures
            final(self)@ == (MachView {
                mem: tape_write(
                    old(self)@.mem,
                    old(self)@.ptr,
                    wrap_inc(tape_read(old(self)@.mem, old(self)@.ptr)),
                ),
                ..old(self)@
            }),
    {
        let v = self.curr();
        let w = if v == 255 {
            0
        } else {
            v + 1
        };
        self.set_curr(w);
    }

    /// `-`: decrements the byte under the cursor, wrapping modulo 256.
    pub fn dec(&mut self)
        requires
            old(self).pointer < usize::MAX,
        ensures
            final(self)@ == (MachView {
                mem: tape_write(
                    old(self)@.mem,
                    old(self)@.ptr,
                    wrap_dec(tape_read(old(self)@.mem, old(self)@.ptr)),
                ),
                ..old(self)@
            }),
    {
        let v = self.curr();
        let w = if v == 0 {
            255
        } else {
            v - 1
        };
        self.set_curr(w);
    }

    /// `<`: moves the cursor one position down. At position 0 it fails with
    /// tape underflow and leaves the state untouched; at any position above
    /// 0 it decrements the cursor by exactly 1.
    pub fn left(&mut self) -> (r: BfStateResult)
        ensures
            old(self)@.ptr == 0 ==> r == Err::<(), BfError>(BfError::Segfault) && final(self)@
                == old(self)@,
            old(self)@.ptr > 0 ==> r == Ok::<(), BfError>(()) && final(self)@ == (MachView {
                ptr: (old(self)@.ptr - 1) as nat,
                ..old(self)@
            }),
    {
        if self.pointer == 0 {
            return Err(BfError::Segfault);
        }
        self.pointer = self.pointer - 1;
        Ok(())
    }

    /// `>`: moves the cursor one position up. The cursor is a machine word,
    /// hence the bound; the engine turns running into it into an error.
    pub fn right(&mut self)
        requires
            old(self).pointer < usize::MAX,
        ensures
            final(self)@ == (MachView { ptr: old(self)@.ptr + 1, ..old(self)@ }),
    {
        self.pointer = self.pointer + 1;
    }
}

} // verus!
