//! The hardware as the library sees it: a list of steps for the caller to
//! carry out, in order. The library never touches a register itself.

use vstd::prelude::*;

verus! {

/// One step on the hardware.
#[derive(Copy, Clone, Debug, PartialEq, Eq, Structural)]
pub enum HwStep {
    /// Write the base address of the low regime's root table.
    SetTtbr0(u64),
    /// Write the base address of the high regime's root table.
    SetTtbr1(u64),
    /// Write the memory attribute indirection register.
    SetMair(u64),
    /// Write the translation control register.
    SetTcr(u64),
    /// Write the system control register.
    SetSctlr(u64),
    /// Instruction synchronization barrier.
    Isb,
    /// Write the interrupt mask bits.
    SetDaif(u64),
    /// Write the architectural feature access control register.
    SetCpacr(u64),
    /// Write the exception vector base address.
    SetVbar(u64),
    /// Write the hypervisor's counter-timer control register.
    SetCnthctl(u64),
    /// Write the virtual counter offset.
    SetCntvoff(u64),
    /// Write the hypervisor configuration register.
    SetHcr(u64),
    /// Write the saved program status of the hypervisor level.
    SetSpsrEl2(u64),
    /// Write the exception link register of the hypervisor level.
    SetElrEl2(u64),
    /// Write the stack pointer of the kernel level.
    SetSpEl1(u64),
    /// Return from the exception, to where the link register points. The
    /// steps end here: control does not come back.
    Eret,
    /// Go on with the kernel's runtime initialization. The steps end here.
    RuntimeInit,
    /// Set the stack pointer and branch to an entry point. The steps end
    /// here.
    Jump { entry: u64, stack: u64 },
    /// Park the core for good. The steps end here.
    WaitForever,
}

impl HwStep {
    /// Whether control does not come back from the step.
    pub open spec fn is_terminal(self) -> bool {
        self is Eret || self is RuntimeInit || self is Jump || self is WaitForever
    }

    /// The step that writes the root table address of a regime.
    pub open spec fn ttbr(high: bool, root: u64) -> HwStep {
        if high {
            HwStep::SetTtbr1(root)
        } else {
            HwStep::SetTtbr0(root)
        }
    }
}

} // verus!
