//! Interrupt-side data structures: the vector numbers the kernel programs
//! the interrupt controller with, and the fixed-capacity ring buffer the
//! keyboard handler pushes decoded characters into. Handlers are producers
//! that must never block; the buffer simply drops input when full.

use vstd::prelude::*;

verus! {

/// Vector base the primary interrupt controller is remapped to.
pub const PIC_1_OFFSET: u8 = 32;

/// Vector base of the secondary, chained controller.
pub const PIC_2_OFFSET: u8 = PIC_1_OFFSET + 8;

/// Capacity of the keyboard character buffer.
pub const KEYBUFFER_SIZE: usize = 128;

/// The hardware interrupt lines this kernel handles, by name.
#[derive(Clone, Copy, PartialEq, Eq, Structural, Debug)]
pub enum InterruptIndex {
    Timer,
    Keyboard,
    AtaPrimary,
    AtaSecondary,
}

impl InterruptIndex {
    /// The interrupt vector each line is mapped to: the timer and keyboard
    /// on the first two lines of the primary controller, the two ATA
    /// channels on the last two lines of the secondary.
    pub open spec fn vector(self) -> int {
        match self {
            InterruptIndex::Timer => PIC_1_OFFSET as int,
            InterruptIndex::Keyboard => PIC_1_OFFSET + 1,
            InterruptIndex::AtaPrimary => PIC_1_OFFSET + 14,
            InterruptIndex::AtaSecondary => PIC_1_OFFSET + 15,
        }
    }

    /// The vector number as a byte.
    pub fn as_u8(self) -> (r: u8)
        ensures
            r == self.vector(),
    {
        match self {
            InterruptIndex::Timer => PIC_1_OFFSET,
            InterruptIndex::Keyboard => PIC_1_OFFSET + 1,
            InterruptIndex::AtaPrimary => PIC_1_OFFSET + 14,
            InterruptIndex::AtaSecondary => PIC_1_OFFSET + 15,
        }
    }

    /// The vector number as a table index.
    pub fn as_usize(self) -> (r: usize)
        ensures
            r == self.vector(),
    {
        self.as_u8() as usize
    }
}

/// Position in the backing store of the element `i` places after `tail`,
/// for a buffer of capacity `cap`.
pub open spec fn ring_slot(tail: int, i: int, cap: int) -> int {
    if tail + i < cap {
        tail + i
    } else {
        tail + i - cap
    }
}

/// A fixed-capacity single-reader ring of decoded characters. `head` is the
/// next write position, `tail` the next read position; the buffer holds
/// `head - tail` (mod capacity) characters and can never hold more than
/// capacity − 1, so a full buffer drops what is pushed.
pub struct RingBuffer {
    pub buffer: Vec<Option<char>>,
    pub head: usize,
    pub tail: usize,
}

impl RingBuffer {
    /// Number of characters currently buffered.
    pub open spec fn len_spec(&self) -> int {
        if self.head >= self.tail {
            self.head - self.tail
        } else {
            self.head + KEYBUFFER_SIZE - self.tail
        }
    }

    /// The buffered characters, oldest first.
    pub open spec fn contents(&self) -> Seq<char> {
        Seq::new(
            self.len_spec() as nat,
            |i: int| self.buffer@[ring_slot(self.tail as int, i, KEYBUFFER_SIZE as int)].unwrap(),
        )
    }

    /// The backing store has exactly the capacity, the cursors are in range,
    /// and every buffered position holds a character.
    pub open spec fn wf(&self) -> bool {
        &&& self.buffer@.len() == KEYBUFFER_SIZE
        &&& self.head < KEYBUFFER_SIZE
        &&& self.tail < KEYBUFFER_SIZE
        &&& forall|i: int|
            0 <= i < self.len_spec() ==> self.buffer@[ring_slot(
                self.tail as int,
                i,
                KEYBUFFER_SIZE as int,
            )] is Some
    }

    /// An empty buffer.
    pub fn new() -> (r: RingBuffer)
        ensures
            r.wf(),
            r.contents() == Seq::<char>::empty(),
    {
        let buffer: Vec<Option<char>> = vec![None; KEYBUFFER_SIZE];
        let r = RingBuffer { buffer, head: 0, tail: 0 };
        proof {
            assert(r.contents() =~= Seq::<char>::empty());
        }
        r
    }

    /// Append a character, oldest-first order preserved; when the buffer is
    /// full (capacity − 1 characters) the input is dropped, since an
    /// interrupt handler can neither block nor grow the store.
    pub fn push(&mut self, c: char)
        requires
            old(self).wf(),
        ensures
            final(self).wf(),
            old(self).len_spec() < KEYBUFFER_SIZE - 1 ==> final(self).contents() == old(
                self,
            ).contents().push(c),
            old(self).len_spec() == KEYBUFFER_SIZE - 1 ==> *final(self) == *old(self),
    {
        let next = (self.head + 1) % KEYBUFFER_SIZE;
        if next != self.tail {
            self.buffer[self.head] = Some(c);
            self.head = next;
            proof {
                let t = self.tail as int;
                let cap = KEYBUFFER_SIZE as int;
                let n0 = old(self).len_spec();
                assert(self.len_spec() == n0 + 1);
                assert(ring_slot(t, n0, cap) == old(self).head as int);
                assert forall|i: int|
                    0 <= i < self.len_spec() implies self.buffer@[ring_slot(t, i, cap)] is Some by {
                    if i < n0 {
                        assert(ring_slot(t, i, cap) != old(self).head as int);
                        assert(self.buffer@[ring_slot(t, i, cap)] == old(self).buffer@[ring_slot(
                            t,
                            i,
                            cap,
                        )]);
                    }
                }
                assert forall|i: int|
                    0 <= i < n0 implies self.contents()[i] == old(self).contents()[i] by {
                    assert(ring_slot(t, i, cap) != old(self).head as int);
                }
                assert(self.contents() =~= old(self).contents().push(c));
            }
        }
    }

    /// Take the oldest buffered character, if any.
    pub fn pop(&mut self) -> (r: Option<char>)
        requires
            old(self).wf(),
        ensures
            final(self).wf(),
            r is Some <==> old(self).len_spec() > 0,
            r is Some ==> r == Some(old(self).contents()[0]) && final(self).contents() == old(
                self,
            ).contents().drop_first(),
            r is None ==> *final(self) == *old(self),
    {
        if self.head == self.tail {
            None
        } else {
            let c = self.buffer[self.tail];
            self.buffer[self.tail] = None;
            self.tail = (self.tail + 1) % KEYBUFFER_SIZE;
            proof {
                let t0 = old(self).tail as int;
                let cap = KEYBUFFER_SIZE as int;
                let n0 = old(self).len_spec();
                assert(ring_slot(t0, 0, cap) == t0);
                assert(self.len_spec() == n0 - 1);
                assert forall|i: int|
                    0 <= i < self.len_spec() implies self.buffer@[ring_slot(
                        self.tail as int,
                        i,
                        cap,
                    )] is Some && self.buffer@[ring_slot(self.tail as int, i, cap)] == old(
                        self,
                    ).buffer@[ring_slot(t0, i + 1, cap)] by {
                    assert(ring_slot(self.tail as int, i, cap) == ring_slot(t0, i + 1, cap));
                    assert(ring_slot(t0, i + 1, cap) != t0);
                }
                assert(self.contents() =~= old(self).contents().drop_first());
            }
            c
        }
    }
}

} // verus!
