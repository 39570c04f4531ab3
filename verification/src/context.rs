//! Execution contexts: a fixed-layout snapshot of the callee-saved registers
//! and stack pointer of a suspended computation, plus (for contexts that back
//! fresh threads) an owned stack whose top word is pre-seeded with the entry
//! address so that the first switch into the context behaves like a call.
//!
//! The machine-level register swap is represented by [`ctx_switch`] over an
//! explicit register file: the one architecture-specific primitive of the
//! design, everything above it is written in portable terms.

use vstd::prelude::*;

verus! {

/// Size in bytes of one machine word (a saved register or return address).
pub const WORD_SIZE: usize = 8;

/// Default stack size for dispatch-loop contexts.
pub const LOOP_STACK_SIZE: usize = 16 * 1024;

/// Low-level saved register state for a context: the callee-saved general
/// registers and the stack pointer, each addressed by a fixed field.
///
/// Invariant maintained by the scheduler: whenever a `RawContext` is not the
/// one currently executing, `rsp` designates an in-progress stack whose top
/// word is the address execution resumes at.
#[derive(Clone, Copy, PartialEq, Eq, Structural, Debug)]
pub struct RawContext {
    pub r15: u64,
    pub r14: u64,
    pub r13: u64,
    pub r12: u64,
    pub rbx: u64,
    pub rbp: u64,
    /// Stored stack pointer (designates where the resume address sits).
    pub rsp: u64,
}

impl RawContext {
    /// A register file with every field zeroed.
    pub fn zeroed() -> (r: RawContext)
        ensures
            r == (RawContext { r15: 0, r14: 0, r13: 0, r12: 0, rbx: 0, rbp: 0, rsp: 0 }),
    {
        RawContext { r15: 0, r14: 0, r13: 0, r12: 0, rbx: 0, rbp: 0, rsp: 0 }
    }
}

/// The effect of one register swap: the executing core's registers are saved
/// into the outgoing snapshot and the incoming snapshot becomes the register
/// file. Returns `(registers after, outgoing snapshot after)`.
pub open spec fn switch_spec(cpu: RawContext, prev: RawContext, next: RawContext) -> (
    RawContext,
    RawContext,
) {
    (next, cpu)
}

/// The switch primitive: saves the executing core's live callee-saved
/// registers and stack pointer into `prev` and loads `next`'s, so that
/// execution continues wherever `next` was suspended. `cpu` is the register
/// file of the core performing the switch.
///
/// Caller-saved registers are not preserved; only what the calling convention
/// already excludes survives. The primitive takes no lock: at most two
/// contexts are ever in flight on one core, and a context is never switched
/// to while another core owns it.
pub fn ctx_switch(cpu: &mut RawContext, prev: &mut RawContext, next: &RawContext)
    ensures
        (*final(cpu), *final(prev)) == switch_spec(*old(cpu), *old(prev), *next),
{
    *prev = *cpu;
    *cpu = *next;
}

/// Round trip law: switching from context A to context B and immediately back
/// restores every callee-saved register and the stack pointer the core held
/// before the first switch, byte for byte.
pub proof fn lemma_context_round_trip(cpu: RawContext, a: RawContext, b: RawContext)
    ensures
        ({
            let (cpu1, a1) = switch_spec(cpu, a, b);
            let (cpu2, b1) = switch_spec(cpu1, b, a1);
            &&& cpu2 == cpu
            &&& b1 == b
        }),
{
}

/// The byte an entry address contributes at offset `i` of the seeded top
/// word, least significant byte first.
pub open spec fn entry_byte(entry: u64, i: int) -> u8 {
    ((entry >> (8 * i)) & 0xff) as u8
}

/// A context able to stand in for a suspended computation on the local core.
pub trait LocalContext: Sized {
    /// The register snapshot this context holds.
    spec fn raw_spec(&self) -> RawContext;

    /// Read access to the snapshot.
    fn raw_ref(&self) -> (r: &RawContext)
        ensures
            *r == self.raw_spec(),
    ;

    /// Switch from this context (`self`) to `next`: the core's registers are
    /// saved into `self` and `next`'s snapshot is loaded.
    fn switch_to(&mut self, cpu: &mut RawContext, next: &RawContext)
        ensures
            final(self).raw_spec() == *old(cpu),
            *final(cpu) == *next,
    ;
}

/// Concrete context: owns a register snapshot and (for thread contexts) the
/// stack the snapshot's `rsp` points into. The stack is sized at creation and
/// never resized; it is freed only when the context is dropped.
pub struct ContextImpl {
    pub raw: RawContext,
    pub stack: Vec<u8>,
}

impl ContextImpl {
    /// The bytes a freshly seeded stack holds: zero everywhere except the top
    /// word, which carries the entry address in little-endian order.
    pub open spec fn seeded_stack(stack_size: nat, entry: u64) -> Seq<u8> {
        Seq::new(
            stack_size,
            |i: int|
                if i < stack_size - WORD_SIZE {
                    0u8
                } else {
                    entry_byte(entry, i - (stack_size - WORD_SIZE))
                },
        )
    }

    /// Create a context with a fresh `stack_size`-byte stack whose top word
    /// is seeded with `entry_fn` (the address of the thread's entry
    /// trampoline) and whose stack pointer sits one word below the top, so
    /// the first switch into the context begins executing `entry_fn`.
    pub fn new_with_entry(stack_size: usize, entry_fn: u64) -> (r: ContextImpl)
        requires
            stack_size >= WORD_SIZE,
        ensures
            r.stack@ == Self::seeded_stack(stack_size as nat, entry_fn),
            r.raw.rsp == stack_size - WORD_SIZE,
            r.raw.r15 == 0 && r.raw.r14 == 0 && r.raw.r13 == 0 && r.raw.r12 == 0,
            r.raw.rbx == 0 && r.raw.rbp == 0,
    {
        let mut stack: Vec<u8> = vec![0u8; stack_size];
        let top = stack_size - WORD_SIZE;
        let mut i: usize = 0;
        while i < WORD_SIZE
            invariant
                i <= WORD_SIZE,
                stack_size >= WORD_SIZE,
                top == stack_size - WORD_SIZE,
                stack@.len() == stack_size,
                forall|j: int| 0 <= j < top ==> stack@[j] == 0u8,
                forall|j: int| top + i <= j < stack_size ==> stack@[j] == 0u8,
                forall|j: int| top <= j < top + i ==> stack@[j] == entry_byte(entry_fn, j - top),
            decreases WORD_SIZE - i,
        {
            let shift: u64 = 8 * (i as u64);
            let byte_val: u64 = (entry_fn >> shift) & 0xff;
            assert(byte_val <= 0xff) by (bit_vector)
                requires
                    byte_val == (entry_fn >> shift) & 0xff,
            ;
            stack[top + i] = byte_val as u8;
            proof {
                assert(8 * (i as u64) == 8 * (i as int)) by {
                    assert(i < WORD_SIZE);
                };
            }
            i = i + 1;
        }
        proof {
            assert(stack@ =~= Self::seeded_stack(stack_size as nat, entry_fn));
        }
        let raw = RawContext { r15: 0, r14: 0, r13: 0, r12: 0, rbx: 0, rbp: 0, rsp: top as u64 };
        ContextImpl { raw, stack }
    }
}

impl LocalContext for ContextImpl {
    open spec fn raw_spec(&self) -> RawContext {
        self.raw
    }

    fn raw_ref(&self) -> (r: &RawContext) {
        &self.raw
    }

    fn switch_to(&mut self, cpu: &mut RawContext, next: &RawContext)
        ensures
            final(self).raw_spec() == *old(cpu),
            *final(cpu) == *next,
            final(self).stack@ == old(self).stack@,
    {
        ctx_switch(cpu, &mut self.raw, next);
    }
}

/// Create the idle/dispatch-loop context for a core entering the scheduler:
/// a fixed-size stack seeded with the idle loop's entry address.
pub fn create_loop_context_for_thread_pool(idle_entry: u64) -> (r: ContextImpl)
    ensures
        r.stack@ == ContextImpl::seeded_stack(LOOP_STACK_SIZE as nat, idle_entry),
        r.raw.rsp == LOOP_STACK_SIZE - WORD_SIZE,
{
    ContextImpl::new_with_entry(LOOP_STACK_SIZE, idle_entry)
}

} // verus!
