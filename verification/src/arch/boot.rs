//! The first decisions of a core after reset: which core goes on, and how
//! it gets from the hypervisor's exception level to the kernel's.

use vstd::prelude::*;
use crate::arch::hw::HwStep;
use crate::registers::Field;

verus! {

/// What the current exception level register reads at the kernel's level.
pub const CURRENT_EL1: u64 = 0x4;

/// What the current exception level register reads at the hypervisor's
/// level.
pub const CURRENT_EL2: u64 = 0x8;

/// All four interrupt classes masked: debug, system error, IRQ and FIQ.
pub const DAIF_ALL_MASKED: u64 = 0x3C0;

/// Floating point and SIMD trapped at no level.
pub const CPACR_FPEN_NONE: u64 = 0x30_0000;

/// The physical timer and counter open to the kernel's level.
pub const CNTHCTL_VALUE: u64 = 0x3;

/// The kernel's level runs in the 64-bit state.
pub const HCR_VALUE: u64 = 0x8000_0000;

/// The saved status for the return to the kernel's level: all interrupt
/// classes masked, the kernel level's own stack pointer selected.
pub const SPSR_EL2_VALUE: u64 = 0x3C5;

/// The exception level that a core runs at.
#[derive(Copy, Clone, Debug, PartialEq, Eq, Structural)]
pub enum ExceptionLevel {
    HypervisorLevel,
    KernelLevel,
    Other,
}

/// The level that a reading of the current exception level register
/// stands for.
pub open spec fn level_spec(current_el: u64) -> ExceptionLevel {
    if current_el == CURRENT_EL2 {
        ExceptionLevel::HypervisorLevel
    } else if current_el == CURRENT_EL1 {
        ExceptionLevel::KernelLevel
    } else {
        ExceptionLevel::Other
    }
}

/// The steps of the return from the hypervisor's level to `entry` at the
/// kernel's level, on the stack that ends at `stack_end`.
pub open spec fn transition_steps(entry: u64, stack_end: u64) -> Seq<HwStep> {
    seq![
        HwStep::SetCnthctl(CNTHCTL_VALUE),
        HwStep::SetCntvoff(0),
        HwStep::SetHcr(HCR_VALUE),
        HwStep::SetSpsrEl2(SPSR_EL2_VALUE),
        HwStep::SetElrEl2(entry),
        HwStep::SetSpEl1(stack_end),
        HwStep::Eret,
    ]
}

/// The steps that prepare a core that is at the kernel's level already.
pub open spec fn config_steps() -> Seq<HwStep> {
    seq![HwStep::SetDaif(DAIF_ALL_MASKED), HwStep::SetCpacr(CPACR_FPEN_NONE)]
}

/// What a core does after reset. A core that is not the boot core waits
/// for good. The boot core returns to the kernel's level if it is at the
/// hypervisor's, goes on with the runtime initialization if it is at the
/// kernel's, and waits for good at any other level.
pub open spec fn start_steps(
    core_id: u64,
    boot_core_id: u64,
    current_el: u64,
    entry: u64,
    stack_end: u64,
) -> Seq<HwStep> {
    if core_id != boot_core_id {
        seq![HwStep::WaitForever]
    } else {
        match level_spec(current_el) {
            ExceptionLevel::HypervisorLevel => transition_steps(entry, stack_end),
            ExceptionLevel::KernelLevel => config_steps().push(HwStep::RuntimeInit),
            ExceptionLevel::Other => seq![HwStep::WaitForever],
        }
    }
}

proof fn lemma_level_values()
    by (bit_vector)
    ensures
        (1u64 & 0x3u64) << 2u32 == 0x4u64,
        (2u64 & 0x3u64) << 2u32 == 0x8u64,
        (1u64 & 0x1u64) << 9u32 | (1u64 & 0x1u64) << 8u32 | (1u64 & 0x1u64) << 6u32 | (1u64
            & 0x1u64) << 7u32 == 0x3C0u64,
        (3u64 & 0x3u64) << 20u32 == 0x30_0000u64,
        (1u64 & 0x1u64) << 1u32 | (1u64 & 0x1u64) << 0u32 == 0x3u64,
        (1u64 & 0x1u64) << 31u32 == 0x8000_0000u64,
        (1u64 & 0x1u64) << 9u32 | (1u64 & 0x1u64) << 8u32 | (1u64 & 0x1u64) << 7u32 | (1u64
            & 0x1u64) << 6u32 | (5u64 & 0xFu64) << 0u32 == 0x3C5u64,
{
}

/// The exception level that a reading of the current exception level
/// register stands for: a reading with anything but the level field set
/// stands for no level that the kernel knows.
pub fn current_level(current_el: u64) -> (r: ExceptionLevel)
    ensures
        r == level_spec(current_el),
{
    let el = Field::new(0x3, 2);
    proof {
        lemma_level_values();
    }
    if current_el == el.val(2).value {
        ExceptionLevel::HypervisorLevel
    } else if current_el == el.val(1).value {
        ExceptionLevel::KernelLevel
    } else {
        ExceptionLevel::Other
    }
}

/// Transition from the hypervisor's level to the kernel's: opens the
/// timer and counter to the kernel's level, clears the offset of the
/// virtual counter, selects the 64-bit state, and returns "from an
/// exception" that never happened, to `entry`, with all interrupts masked,
/// on the stack that ends at `stack_end`.
pub fn el2_to_el1_transition(entry: u64, stack_end: u64) -> (r: Vec<HwStep>)
    ensures
        r@ == transition_steps(entry, stack_end),
        r@.last().is_terminal(),
{
    proof {
        lemma_level_values();
    }
    // Enable timer counter registers for the kernel's level.
    let cnthctl = Field::new(0x1, 1).val(1).with(Field::new(0x1, 0).val(1)).written();
    // Set the kernel level's execution state to AArch64.
    let hcr = Field::new(0x1, 31).val(1).written();
    // A saved program status where all interrupts were masked and the
    // kernel level's stack pointer was in use.
    let spsr = Field::new(0x1, 9).val(1).with(Field::new(0x1, 8).val(1)).with(
        Field::new(0x1, 7).val(1),
    ).with(Field::new(0x1, 6).val(1)).with(Field::new(0xF, 0).val(0b0101)).written();
    let mut steps: Vec<HwStep> = Vec::new();
    steps.push(HwStep::SetCnthctl(cnthctl));
    // No offset for reading the counters.
    steps.push(HwStep::SetCntvoff(0));
    steps.push(HwStep::SetHcr(hcr));
    steps.push(HwStep::SetSpsrEl2(spsr));
    // The link register points to the entry.
    steps.push(HwStep::SetElrEl2(entry));
    steps.push(HwStep::SetSpEl1(stack_end));
    steps.push(HwStep::Eret);
    proof {
        assert(steps@ =~= transition_steps(entry, stack_end));
    }
    steps
}

/// Masks all interrupts and stops the trapping of floating point and SIMD.
pub fn config_el1() -> (r: Vec<HwStep>)
    ensures
        r@ == config_steps(),
{
    proof {
        lemma_level_values();
    }
    let daif = Field::new(0x1, 9).val(1).with(Field::new(0x1, 8).val(1)).with(
        Field::new(0x1, 6).val(1),
    ).with(Field::new(0x1, 7).val(1)).written();
    let cpacr = Field::new(0x3, 20).val(0b11).written();
    let mut steps: Vec<HwStep> = Vec::new();
    steps.push(HwStep::SetDaif(daif));
    steps.push(HwStep::SetCpacr(cpacr));
    proof {
        assert(steps@ =~= config_steps());
    }
    steps
}

/// The entry of the kernel: decides what the core does, from its number,
/// the number of the boot core and the reading of the current exception
/// level register. `entry` is the address of the runtime initialization
/// and `stack_end` the end of the boot core's stack.
pub fn start(core_id: u64, boot_core_id: u64, current_el: u64, entry: u64, stack_end: u64) -> (r:
    Vec<HwStep>)
    ensures
        r@ == start_steps(core_id, boot_core_id, current_el, entry, stack_end),
        r@.len() > 0,
        r@.last().is_terminal(),
{
    if boot_core_id == core_id {
        match current_level(current_el) {
            ExceptionLevel::HypervisorLevel => el2_to_el1_transition(entry, stack_end),
            ExceptionLevel::KernelLevel => {
                let mut steps = config_el1();
                steps.push(HwStep::RuntimeInit);
                steps
            },
            ExceptionLevel::Other => {
                let mut steps: Vec<HwStep> = Vec::new();
                steps.push(HwStep::WaitForever);
                proof {
                    assert(steps@ =~= seq![HwStep::WaitForever]);
                }
                steps
            },
        }
    } else {
        // If not the boot core, infinitely wait for events.
        let mut steps: Vec<HwStep> = Vec::new();
        steps.push(HwStep::WaitForever);
        proof {
            assert(steps@ =~= seq![HwStep::WaitForever]);
        }
        steps
    }
}

} // verus!
