//! Execution contexts and multiprocessor bring-up: the register round trip,
//! stack seeding, the IPI sequence, and the three-core startup scenario.

use sos::context::{ContextImpl, RawContext, ctx_switch};
use sos::smp::{
    ApicOp, CpuStorage, MAX_CPUS, SmpHandoff, TRAMPOLINE_VECTOR, ap_trampoline_entry,
    send_init_sipi, start_one_ap,
};

fn regs(seed: u64) -> RawContext {
    RawContext {
        r15: seed,
        r14: seed + 1,
        r13: seed + 2,
        r12: seed + 3,
        rbx: seed + 4,
        rbp: seed + 5,
        rsp: seed + 6,
    }
}

#[test]
fn context_round_trip_restores_registers() {
    // Switching from context A to B and immediately back restores every
    // callee-saved register and the stack pointer, byte for byte.
    let mut cpu = regs(100);
    let cpu_before = cpu;
    let mut a = RawContext::zeroed();
    let b = regs(200);
    let mut b_slot = b;
    ctx_switch(&mut cpu, &mut a, &b_slot);
    assert_eq!(cpu, b, "the core now runs B");
    assert_eq!(a, cpu_before, "A holds what the core held");
    ctx_switch(&mut cpu, &mut b_slot, &a);
    assert_eq!(cpu, cpu_before, "back on A, every register as before");
    assert_eq!(b_slot, b, "B's snapshot is what B held");
}

#[test]
fn new_context_seeds_entry_address() {
    let entry: u64 = 0x1122_3344_5566_7788;
    let ctx = ContextImpl::new_with_entry(4096, entry);
    assert_eq!(ctx.stack.len(), 4096);
    assert_eq!(ctx.raw.rsp, 4096 - 8);
    // the top word carries the entry address, least significant byte first
    let top = &ctx.stack[4096 - 8..];
    assert_eq!(top, &[0x88, 0x77, 0x66, 0x55, 0x44, 0x33, 0x22, 0x11]);
    for i in 0..4096 - 8 {
        assert_eq!(ctx.stack[i], 0);
    }
    assert_eq!(ctx.raw.rbx, 0);
    assert_eq!(ctx.raw.rbp, 0);
}

#[test]
fn ipi_sequence_exact() {
    let ops = send_init_sipi(3, TRAMPOLINE_VECTOR);
    let id_high = ApicOp::Write { offset: 0x310, value: 3u32 << 24 };
    assert_eq!(ops.len(), 10);
    assert_eq!(ops[0], id_high);
    assert_eq!(ops[1], ApicOp::Write { offset: 0x300, value: (0x5 << 8) | (1 << 14) | (1 << 15) });
    assert_eq!(ops[2], ApicOp::Delay { nops: 10_000 });
    assert_eq!(ops[3], ApicOp::Write { offset: 0x300, value: 0x5 << 8 });
    assert_eq!(ops[4], ApicOp::Delay { nops: 20_000 });
    assert_eq!(ops[5], id_high);
    assert_eq!(ops[6], ApicOp::Write { offset: 0x300, value: (0x6 << 8) | 0x07 });
    assert_eq!(ops[7], ApicOp::Delay { nops: 20_000 });
    assert_eq!(ops[8], id_high);
    assert_eq!(ops[9], ApicOp::Write { offset: 0x300, value: (0x6 << 8) | 0x07 });
}

#[test]
fn cpu_storage_init_zeroes_all() {
    let mut cpus = CpuStorage::new();
    cpus.init();
    assert_eq!(cpus.cpus.len(), MAX_CPUS);
    for i in 0..MAX_CPUS {
        let c = cpus.get(i);
        assert_eq!(c.id, i);
        assert_eq!(c.apic_id, 0);
        assert!(!c.online);
    }
}

#[test]
fn three_aps_come_online_with_their_apic_ids() {
    // Scenario: bring-up for three simulated application processors leaves
    // exactly three descriptors online, each with the apic id passed in.
    let mut cpus = CpuStorage::new();
    cpus.init();
    let mut handoff = SmpHandoff::new();
    let stacks_base: u64 = 0x10_0000;
    for ap in 1..=3usize {
        let apic_id = ap as u32;
        let ops = start_one_ap(&mut handoff, ap, apic_id, stacks_base);
        assert_eq!(ops.len(), 10, "the wake-up sequence is issued per core");
        assert_eq!(handoff.startup.cpu_id, ap as u32);
        assert_eq!(handoff.startup.apic_id, apic_id);
        assert_eq!(handoff.startup.stack_top, stacks_base + (ap as u64 + 1) * 16384);
        let proc = ap_trampoline_entry(&mut cpus, &handoff, 0x8000);
        let proc = proc.expect("published state lets the core come up");
        assert!(!proc.is_running());
    }
    let online: Vec<(usize, u32)> = (0..MAX_CPUS)
        .filter(|i| cpus.get(*i).online)
        .map(|i| (cpus.get(i).id, cpus.get(i).apic_id))
        .collect();
    assert_eq!(online, vec![(1, 1), (2, 2), (3, 3)]);
}

#[test]
fn unpublished_handoff_halts_the_core() {
    let mut cpus = CpuStorage::new();
    cpus.init();
    let handoff = SmpHandoff::new();
    assert!(ap_trampoline_entry(&mut cpus, &handoff, 0x8000).is_none());
    for i in 0..MAX_CPUS {
        assert!(!cpus.get(i).online, "a halted core never flips its flag");
    }
}

#[test]
fn processor_lifecycle() {
    let mut p = sos::processor::Processor::new();
    p.init(2, sos::context::create_loop_context_for_thread_pool(0x8000));
    assert!(!p.is_running());
    let mut pool = sos::thread_pool::ThreadPool::new(sos::rr::RRScheduler::new(20), 8);
    let mut cpu = RawContext::zeroed();
    p.run_next(2, &mut pool, &mut cpu);
    assert!(!p.is_running(), "an empty pool leaves the core idle");
    sos::std_thread::spawn(&mut pool, 0x6000);
    p.run_next(2, &mut pool, &mut cpu);
    assert!(p.is_running());
    assert_eq!(p.tid(), 0);
    assert_eq!(cpu.rsp, 16 * 1024 - 8, "the core now holds the thread's seeded stack pointer");
    p.stop_running(&mut pool);
    assert!(!p.is_running());
}
