//! Multiprocessor bring-up: the per-core descriptor table the bootstrap
//! processor prepares, the startup-data block published for the fixed
//! low-memory trampoline, and the INIT/Startup-IPI sequence that wakes a
//! secondary core.
//!
//! The local-APIC register writes and busy-wait delays are hardware actions;
//! here the sequence is computed as data, exactly as the machine must issue
//! it, and the performing of the writes stays outside the crate. Likewise the
//! trampoline-side entry is the state transition it performs on the CPU
//! table, with the halt-on-unpublished-state failure mode made explicit in
//! the result.

use crate::context::{ContextImpl, create_loop_context_for_thread_pool};
use crate::processor::Processor;
use vstd::prelude::*;

verus! {

/// Number of per-core descriptor slots allocated at image-link time.
pub const MAX_CPUS: usize = 8;

/// Bytes of stack set aside for each application processor.
pub const AP_STACK_SIZE: usize = 16 * 1024;

/// Fixed, page-aligned low physical address the trampoline code lives at.
pub const TRAMPOLINE_PADDR: usize = 0x7000;

/// Startup-IPI vector: the page number of [`TRAMPOLINE_PADDR`].
pub const TRAMPOLINE_VECTOR: u8 = 0x07;

/// Local-APIC interrupt-command-register offsets and field encodings.
pub const APIC_ICR_LOW: usize = 0x300;

pub const APIC_ICR_HIGH: usize = 0x310;

pub const DELIVERY_MODE_INIT: u32 = 0x5 << 8;

pub const DELIVERY_MODE_STARTUP: u32 = 0x6 << 8;

pub const LEVEL_ASSERT: u32 = 1 << 14;

pub const TRIGGER_MODE_LEVEL: u32 = 1 << 15;

/// One per-core descriptor: written once by the bootstrap core at `init`,
/// then mutated only by the owning core, whose first act is to record its
/// local-APIC id and flip `online` — read elsewhere to confirm startup.
#[derive(Clone, Copy, PartialEq, Eq, Structural, Debug)]
pub struct CpuInfo {
    /// Core index: position in the table.
    pub id: usize,
    /// Local-APIC identifier, recorded by the core itself.
    pub apic_id: u32,
    /// Flipped exactly once, by the owning core, after it has its stack and
    /// before it touches shared kernel state. In the machine this flag is an
    /// atomic written by one core and read by others.
    pub online: bool,
}

/// The fixed-size, statically allocated table of per-core descriptors.
pub struct CpuStorage {
    pub cpus: Vec<CpuInfo>,
}

impl CpuStorage {
    /// The table slot for link time, before `init` runs.
    pub fn new() -> (r: CpuStorage)
        ensures
            r.cpus@.len() == 0,
    {
        CpuStorage { cpus: Vec::new() }
    }

    /// Zero-initialize all descriptors. Must run on the bootstrap core
    /// before any application processor is started.
    pub fn init(&mut self)
        ensures
            final(self).cpus@.len() == MAX_CPUS,
            forall|i: int|
                0 <= i < MAX_CPUS ==> final(self).cpus@[i] == (CpuInfo {
                    id: i as usize,
                    apic_id: 0,
                    online: false,
                }),
    {
        self.cpus = Vec::new();
        let mut i: usize = 0;
        while i < MAX_CPUS
            invariant
                i <= MAX_CPUS,
                self.cpus@.len() == i,
                forall|j: int|
                    0 <= j < i ==> self.cpus@[j] == (CpuInfo {
                        id: j as usize,
                        apic_id: 0,
                        online: false,
                    }),
            decreases MAX_CPUS - i,
        {
            self.cpus.push(CpuInfo { id: i, apic_id: 0, online: false });
            i = i + 1;
        }
    }

    /// Read one core's descriptor.
    pub fn get(&self, idx: usize) -> (r: &CpuInfo)
        requires
            idx < self.cpus@.len(),
        ensures
            *r == self.cpus@[idx as int],
    {
        &self.cpus[idx]
    }

    /// Mutable access to one core's descriptor, for the owning core.
    pub fn get_mut(&mut self, idx: usize) -> (r: &mut CpuInfo)
        requires
            idx < old(self).cpus@.len(),
        ensures
            *r == old(self).cpus@[idx as int],
            final(self).cpus@ == old(self).cpus@.update(idx as int, *final(r)),
    {
        &mut self.cpus[idx]
    }
}

/// The startup-data block published at a fixed address for the real-mode
/// trampoline to read without relocation: the new core's stack top, its
/// table index and its local-APIC id. Written completely before the IPI that
/// triggers any read, so no torn read is possible.
#[derive(Clone, Copy, PartialEq, Eq, Structural, Debug)]
pub struct ApStartupData {
    pub stack_top: u64,
    pub pml4_phys: u64,
    pub cpu_id: u32,
    pub apic_id: u32,
}

/// One application processor's statically allocated stack.
#[derive(Clone, Copy)]
pub struct AlignedStack(pub [u8; 16384]);

/// The shared state the bootstrap core publishes for arriving application
/// processors: the startup block plus the handles to the thread pool and
/// the processor table. An AP that finds a handle unpublished halts.
pub struct SmpHandoff {
    pub startup: ApStartupData,
    /// The shared thread-pool handle has been published.
    pub pool_published: bool,
    /// The processor-table pointer has been published.
    pub procs_published: bool,
}

impl SmpHandoff {
    /// The handoff before bring-up: nothing published yet.
    pub fn new() -> (r: SmpHandoff)
        ensures
            r.startup == (ApStartupData { stack_top: 0, pml4_phys: 0, cpu_id: 0, apic_id: 0 }),
            !r.pool_published,
            !r.procs_published,
    {
        SmpHandoff {
            startup: ApStartupData { stack_top: 0, pml4_phys: 0, cpu_id: 0, apic_id: 0 },
            pool_published: false,
            procs_published: false,
        }
    }
}

/// One hardware action of the wake-up sequence: a local-APIC register write,
/// or a busy-wait delay whose length hardware timing dictates.
#[derive(Clone, Copy, PartialEq, Eq, Structural, Debug)]
pub enum ApicOp {
    Write { offset: usize, value: u32 },
    Delay { nops: usize },
}

/// The Intel MP wake-up sequence for the core with the given local-APIC id:
/// assert INIT, de-assert INIT, then send the Startup IPI twice — the
/// architecture allows the first to be missed — with the hardware-dictated
/// delays in between.
pub open spec fn ipi_sequence(apic_id: u8, vector: u8) -> Seq<ApicOp> {
    seq![
        ApicOp::Write { offset: APIC_ICR_HIGH, value: (apic_id as u32) << 24 },
        ApicOp::Write {
            offset: APIC_ICR_LOW,
            value: DELIVERY_MODE_INIT | LEVEL_ASSERT | TRIGGER_MODE_LEVEL,
        },
        ApicOp::Delay { nops: 10_000 },
        ApicOp::Write { offset: APIC_ICR_LOW, value: DELIVERY_MODE_INIT },
        ApicOp::Delay { nops: 20_000 },
        ApicOp::Write { offset: APIC_ICR_HIGH, value: (apic_id as u32) << 24 },
        ApicOp::Write { offset: APIC_ICR_LOW, value: DELIVERY_MODE_STARTUP | (vector as u32) },
        ApicOp::Delay { nops: 20_000 },
        ApicOp::Write { offset: APIC_ICR_HIGH, value: (apic_id as u32) << 24 },
        ApicOp::Write { offset: APIC_ICR_LOW, value: DELIVERY_MODE_STARTUP | (vector as u32) },
    ]
}

/// Compute the INIT/Startup-IPI action sequence for one target core. The
/// machine performs these writes and delays against the local APIC, in
/// order.
pub fn send_init_sipi(apic_id: u8, vector: u8) -> (r: Vec<ApicOp>)
    ensures
        r@ == ipi_sequence(apic_id, vector),
{
    let mut ops: Vec<ApicOp> = Vec::new();
    ops.push(ApicOp::Write { offset: APIC_ICR_HIGH, value: (apic_id as u32) << 24 });
    ops.push(
        ApicOp::Write {
            offset: APIC_ICR_LOW,
            value: DELIVERY_MODE_INIT | LEVEL_ASSERT | TRIGGER_MODE_LEVEL,
        },
    );
    ops.push(ApicOp::Delay { nops: 10_000 });
    ops.push(ApicOp::Write { offset: APIC_ICR_LOW, value: DELIVERY_MODE_INIT });
    ops.push(ApicOp::Delay { nops: 20_000 });
    ops.push(ApicOp::Write { offset: APIC_ICR_HIGH, value: (apic_id as u32) << 24 });
    ops.push(
        ApicOp::Write { offset: APIC_ICR_LOW, value: DELIVERY_MODE_STARTUP | (vector as u32) },
    );
    ops.push(ApicOp::Delay { nops: 20_000 });
    ops.push(ApicOp::Write { offset: APIC_ICR_HIGH, value: (apic_id as u32) << 24 });
    ops.push(
        ApicOp::Write { offset: APIC_ICR_LOW, value: DELIVERY_MODE_STARTUP | (vector as u32) },
    );
    proof {
        assert(ops@ =~= ipi_sequence(apic_id, vector));
    }
    ops
}

/// Start one application processor: publish the shared handles and the
/// startup-data block — stack top for the target's statically allocated
/// stack, its table index, its local-APIC id — then return the IPI action
/// sequence for the machine to issue. Returns without waiting: completion is
/// observed asynchronously through the core's online flag.
pub fn start_one_ap(
    handoff: &mut SmpHandoff,
    ap_index: usize,
    apic_id: u32,
    stacks_base: u64,
) -> (r: Vec<ApicOp>)
    requires
        ap_index < MAX_CPUS,
        apic_id <= 0xFF,
        stacks_base + (ap_index + 1) * AP_STACK_SIZE <= u64::MAX,
    ensures
        final(handoff).pool_published,
        final(handoff).procs_published,
        final(handoff).startup == (ApStartupData {
            stack_top: (stacks_base + (ap_index + 1) * AP_STACK_SIZE) as u64,
            pml4_phys: 0,
            cpu_id: ap_index as u32,
            apic_id,
        }),
        r@ == ipi_sequence(apic_id as u8, TRAMPOLINE_VECTOR),
{
    handoff.pool_published = true;
    handoff.procs_published = true;
    let stack_top: u64 = stacks_base + ((ap_index as u64) + 1) * (AP_STACK_SIZE as u64);
    handoff.startup = ApStartupData {
        stack_top,
        pml4_phys: 0,
        cpu_id: ap_index as u32,
        apic_id,
    };
    send_init_sipi(apic_id as u8, TRAMPOLINE_VECTOR)
}

/// The fixed-signature entry an arriving application processor reaches from
/// the trampoline: take the published stack, record the local-APIC id, flip
/// `online` — exactly once, before touching shared kernel state — then build
/// the core's idle/dispatch-loop context and an initialized processor, ready
/// to enter the dispatch loop forever.
///
/// If a shared handle is unpublished when the core reaches that point — a
/// programming error, not a runtime condition — the core halts in a tight
/// loop rather than dereference nothing: that fatal, core-local outcome is
/// the `None` result. Other cores are unaffected either way.
pub fn ap_trampoline_entry(cpus: &mut CpuStorage, handoff: &SmpHandoff, idle_entry: u64) -> (r:
    Option<Processor>)
    requires
        handoff.startup.cpu_id < old(cpus).cpus@.len(),
    ensures
        r is None <==> !(handoff.pool_published && handoff.procs_published),
        r is None ==> final(cpus).cpus == old(cpus).cpus,
        r is Some ==> ({
            let idx = handoff.startup.cpu_id as int;
            let proc = r.unwrap();
            &&& final(cpus).cpus@ == old(cpus).cpus@.update(
                idx,
                CpuInfo {
                    id: old(cpus).cpus@[idx].id,
                    apic_id: handoff.startup.apic_id,
                    online: true,
                },
            )
            &&& final(cpus).cpus@[idx].online
            &&& final(cpus).cpus@[idx].apic_id == handoff.startup.apic_id
            &&& proc.initialized()
            &&& !proc.running()
            &&& proc.inner.unwrap().id == handoff.startup.cpu_id as usize
            &&& proc.inner.unwrap().loop_context.raw.rsp == crate::context::LOOP_STACK_SIZE
                - crate::context::WORD_SIZE
        }),
{
    if !handoff.pool_published {
        return None;
    }
    if !handoff.procs_published {
        return None;
    }
    let cpu_id = handoff.startup.cpu_id as usize;
    let cpu = cpus.get_mut(cpu_id);
    cpu.apic_id = handoff.startup.apic_id;
    cpu.online = true;
    let loop_ctx: ContextImpl = create_loop_context_for_thread_pool(idle_entry);
    let mut processor = Processor::new();
    processor.init(cpu_id, loop_ctx);
    Some(processor)
}

} // verus!
