//! Keyboard input path: the scancode decoding that turns bytes from the
//! keyboard port into characters, and the larger ring buffer the decoded
//! characters wait in until a thread reads them. The port read, the
//! interrupt acknowledgment and the async scancode stream live outside the
//! crate; the decoding itself is the work of the `pc_keyboard` crate, called
//! here behind trusted wrappers, with the buffer bookkeeping around it
//! verified.

use crate::interrupts::ring_slot;
use pc_keyboard::{KeyEvent, Keyboard, ScancodeSet1, layouts};
use vstd::prelude::*;

verus! {

/// Capacity of the decoded-character buffer on this path.
pub const KEYBUFFER_SIZE: usize = 1024;

#[verifier::external_type_specification]
#[verifier::external_body]
pub struct ExKeyEvent(KeyEvent);

/// The stateful PS/2 scancode decoder: a `pc_keyboard::Keyboard` configured
/// with scancode set 1 and the US-104 layout. The decoder's own state is
/// opaque here; what it yields per byte is stated on the wrappers below.
#[verifier::external_body]
pub struct KeyDecoder {
    inner: Keyboard<layouts::Us104Key, ScancodeSet1>,
}

impl KeyDecoder {
    /// Relies on pc_keyboard::Keyboard::new, with scancode set 1, the
    /// US-104 layout, and control characters left as letters.
    #[verifier::external_body]
    pub fn new() -> KeyDecoder {
        KeyDecoder {
            inner: Keyboard::new(
                ScancodeSet1::new(),
                layouts::Us104Key,
                pc_keyboard::HandleControl::Ignore,
            ),
        }
    }

    /// Relies on pc_keyboard::Keyboard::add_byte: one scancode byte
    /// advances the decoder state and yields a key event when one
    /// completes. A decode error is collapsed into "no event", as the
    /// interrupt handler treats it.
    #[verifier::external_body]
    fn add_byte(&mut self, scancode: u8) -> Option<KeyEvent> {
        match self.inner.add_byte(scancode) {
            Ok(ev) => ev,
            Err(_) => None,
        }
    }

    /// Relies on pc_keyboard::Keyboard::process_keyevent: a key event that
    /// decodes to a Unicode character comes back as that character; a raw
    /// key with no Unicode equivalent comes back as nothing.
    #[verifier::external_body]
    fn process_keyevent(&mut self, ev: KeyEvent) -> Option<char> {
        match self.inner.process_keyevent(ev) {
            Some(pc_keyboard::DecodedKey::Unicode(c)) => Some(c),
            Some(pc_keyboard::DecodedKey::RawKey(_)) => None,
            None => None,
        }
    }
}

/// The compute part of the keyboard interrupt: feed one scancode byte
/// through the decoder and, if it completes a character, push that character
/// into the buffer. Whatever the decoder does, the buffer either stays as it
/// was or gains exactly the returned character at its back.
pub fn handle_scancode(kb: &mut KeyDecoder, buffer: &mut RingBuffer, scancode: u8) -> (r: Option<
    char,
>)
    requires
        old(buffer).wf(),
    ensures
        final(buffer).wf(),
        r is None ==> *final(buffer) == *old(buffer),
        r matches Some(c) ==> {
            &&& (old(buffer).len_spec() < KEYBUFFER_SIZE - 1 ==> final(buffer).contents() == old(
                buffer,
            ).contents().push(c))
            &&& (old(buffer).len_spec() == KEYBUFFER_SIZE - 1 ==> *final(buffer) == *old(buffer))
        },
{
    match kb.add_byte(scancode) {
        None => None,
        Some(ev) => {
            match kb.process_keyevent(ev) {
                None => None,
                Some(c) => {
                    buffer.push(c);
                    Some(c)
                },
            }
        },
    }
}

/// A fixed-capacity single-reader ring of decoded characters. `head` is the
/// next write position, `tail` the next read position; the buffer holds
/// `head - tail` (mod capacity) characters and can never hold more than
/// capacity − 1, so a full buffer drops what is pushed.
pub struct RingBuffer {
    pub buffer: Vec<Option<char>>,
    pub head: usize,
    pub tail: usize,
}

impl RingBuffer {
    /// Number of characters currently buffered.
    pub open spec fn len_spec(&self) -> int {
        if self.head >= self.tail {
            self.head - self.tail
        } else {
            self.head + KEYBUFFER_SIZE - self.tail
        }
    }

    /// The buffered characters, oldest first.
    pub open spec fn contents(&self) -> Seq<char> {
        Seq::new(
            self.len_spec() as nat,
            |i: int| self.buffer@[ring_slot(self.tail as int, i, KEYBUFFER_SIZE as int)].unwrap(),
        )
    }

    /// The backing store has exactly the capacity, the cursors are in range,
    /// and every buffered position holds a character.
    pub open spec fn wf(&self) -> bool {
        &&& self.buffer@.len() == KEYBUFFER_SIZE
        &&& self.head < KEYBUFFER_SIZE
        &&& self.tail < KEYBUFFER_SIZE
        &&& forall|i: int|
            0 <= i < self.len_spec() ==> self.buffer@[ring_slot(
                self.tail as int,
                i,
                KEYBUFFER_SIZE as int,
            )] is Some
    }

    /// An empty buffer.
    pub fn new() -> (r: RingBuffer)
        ensures
            r.wf(),
            r.contents() == Seq::<char>::empty(),
    {
        let buffer: Vec<Option<char>> = vec![None; KEYBUFFER_SIZE];
        let r = RingBuffer { buffer, head: 0, tail: 0 };
        proof {
            assert(r.contents() =~= Seq::<char>::empty());
        }
        r
    }

    /// Append a character, oldest-first order preserved; when the buffer is
    /// full (capacity − 1 characters) the input is dropped, since an
    /// interrupt handler can neither block nor grow the store.
    pub fn push(&mut self, c: char)
        requires
            old(self).wf(),
        ensures
            final(self).wf(),
            old(self).len_spec() < KEYBUFFER_SIZE - 1 ==> final(self).contents() == old(
                self,
            ).contents().push(c),
            old(self).len_spec() == KEYBUFFER_SIZE - 1 ==> *final(self) == *old(self),
    {
        let next = (self.head + 1) % KEYBUFFER_SIZE;
        if next != self.tail {
            self.buffer[self.head] = Some(c);
            self.head = next;
            proof {
                let t = self.tail as int;
                let cap = KEYBUFFER_SIZE as int;
                let n0 = old(self).len_spec();
                assert(self.len_spec() == n0 + 1);
                assert(ring_slot(t, n0, cap) == old(self).head as int);
                assert forall|i: int|
                    0 <= i < self.len_spec() implies self.buffer@[ring_slot(t, i, cap)] is Some by {
                    if i < n0 {
                        assert(ring_slot(t, i, cap) != old(self).head as int);
                        assert(self.buffer@[ring_slot(t, i, cap)] == old(self).buffer@[ring_slot(
                            t,
                            i,
                            cap,
                        )]);
                    }
                }
                assert forall|i: int|
                    0 <= i < n0 implies self.contents()[i] == old(self).contents()[i] by {
                    assert(ring_slot(t, i, cap) != old(self).head as int);
                }
                assert(self.contents() =~= old(self).contents().push(c));
            }
        }
    }

    /// Take the oldest buffered character, if any.
    pub fn pop(&mut self) -> (r: Option<char>)
        requires
            old(self).wf(),
        ensures
            final(self).wf(),
            r is Some <==> old(self).len_spec() > 0,
            r is Some ==> r == Some(old(self).contents()[0]) && final(self).contents() == old(
                self,
            ).contents().drop_first(),
            r is None ==> *final(self) == *old(self),
    {
        if self.head == self.tail {
            None
        } else {
            let c = self.buffer[self.tail];
            self.buffer[self.tail] = None;
            self.tail = (self.tail + 1) % KEYBUFFER_SIZE;
            proof {
                let t0 = old(self).tail as int;
                let cap = KEYBUFFER_SIZE as int;
                let n0 = old(self).len_spec();
                assert(ring_slot(t0, 0, cap) == t0);
                assert(self.len_spec() == n0 - 1);
                assert forall|i: int|
                    0 <= i < self.len_spec() implies self.buffer@[ring_slot(
                        self.tail as int,
                        i,
                        cap,
                    )] is Some && self.buffer@[ring_slot(self.tail as int, i, cap)] == old(
                        self,
                    ).buffer@[ring_slot(t0, i + 1, cap)] by {
                    assert(ring_slot(self.tail as int, i, cap) == ring_slot(t0, i + 1, cap));
                    assert(ring_slot(t0, i + 1, cap) != t0);
                }
                assert(self.contents() =~= old(self).contents().drop_first());
            }
            c
        }
    }
}

} // verus!
