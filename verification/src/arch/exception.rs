//! Exceptions: the twelve entries of the vector table, which all end in
//! one handler, and the report that the handler makes of the state of the
//! core.

use vstd::prelude::*;
use vstd::string::StringExecFns;
use crate::arch::hw::HwStep;
use crate::registers::{Field, field_is_set_spec, field_read_spec};
use crate::text::{hex, hex10, hex10_spec, hex18, hex18_spec, hex_spec, left2, left2_spec};

verus! {

/// Exception class of a data abort taken without a change of level.
pub const EC_DATA_ABORT_CURRENT_EL: u64 = 0b10_0101;

/// A copy of the saved program status register.
#[derive(Copy, Clone, Debug, PartialEq, Eq, Structural)]
pub struct SpsrEL1 {
    pub value: u64,
}

/// A copy of the exception syndrome register.
#[derive(Copy, Clone, Debug, PartialEq, Eq, Structural)]
pub struct EsrEL1 {
    pub value: u64,
}

/// The exception context as it is stored on the stack on exception entry.
pub struct ExceptionContext {
    /// General Purpose Registers.
    pub gpr: [u64; 30],
    /// The link register, aka x30.
    pub lr: u64,
    /// Exception link register. The program counter at the time the
    /// exception happened.
    pub elr_el1: u64,
    /// Saved program status.
    pub spsr_el1: SpsrEL1,
}

/// The entries of the exception vector table: where the exception came
/// from, and of what kind it is.
#[derive(Copy, Clone, Debug, PartialEq, Eq, Structural)]
pub enum VectorEntry {
    CurrentEl0Synchronous,
    CurrentEl0Irq,
    CurrentEl0Serror,
    CurrentElxSynchronous,
    CurrentElxIrq,
    CurrentElxSerror,
    LowerAarch64Synchronous,
    LowerAarch64Irq,
    LowerAarch64Serror,
    LowerAarch32Synchronous,
    LowerAarch32Irq,
    LowerAarch32Serror,
}

/// Whether bit `bit` of `value` is set.
pub open spec fn bit_set(value: u64, bit: u32) -> bool {
    field_is_set_spec(Field { mask: 0x1, shift: bit }, value)
}

/// A flag in words.
pub open spec fn flag_text(set: bool) -> Seq<char> {
    if set {
        "Set"@
    } else {
        "Not set"@
    }
}

/// A mask bit in words.
pub open spec fn mask_text(masked: bool) -> Seq<char> {
    if masked {
        "Masked"@
    } else {
        "Unmasked"@
    }
}

/// A flag in words.
pub fn to_flag_str(set: bool) -> (r: &'static str)
    ensures
        r@ == flag_text(set),
{
    if set {
        "Set"
    } else {
        "Not set"
    }
}

/// A mask bit in words.
pub fn to_mask_str(masked: bool) -> (r: &'static str)
    ensures
        r@ == mask_text(masked),
{
    if masked {
        "Masked"
    } else {
        "Unmasked"
    }
}

impl SpsrEL1 {
    /// The report of the saved program status: its value, the four
    /// condition flags, the four interrupt masks and the illegal execution
    /// state flag.
    pub open spec fn text_spec(self) -> Seq<char> {
        "SPSR_EL1: "@ + hex10_spec(self.value) + "\n      Flags:\n            Negative (N): "@
            + flag_text(bit_set(self.value, 31)) + "\n            Zero     (Z): "@ + flag_text(
            bit_set(self.value, 30),
        ) + "\n            Carry    (C): "@ + flag_text(bit_set(self.value, 29))
            + "\n            Overflow (V): "@ + flag_text(bit_set(self.value, 28))
            + "\n      Exception handling state:\n            Debug  (D): "@ + mask_text(
            bit_set(self.value, 9),
        ) + "\n            SError (A): "@ + mask_text(bit_set(self.value, 8))
            + "\n            IRQ    (I): "@ + mask_text(bit_set(self.value, 7))
            + "\n            FIQ    (F): "@ + mask_text(bit_set(self.value, 6))
            + "\n      Illegal Execution State (IL): "@ + flag_text(bit_set(self.value, 20))
    }

    /// Whether bit `bit` of the status is set.
    pub fn is_set(&self, bit: u32) -> (r: bool)
        requires
            bit < 64,
        ensures
            r == bit_set(self.value, bit),
    {
        Field::new(0x1, bit).is_set(self.value)
    }

    /// Human readable SPSR_EL1.
    pub fn to_text(&self) -> (r: String)
        ensures
            r@ == self.text_spec(),
    {
        // Raw value.
        let mut out = String::from_str("SPSR_EL1: ");
        out.append(hex10(self.value).as_str());
        out.append("\n      Flags:\n            Negative (N): ");
        out.append(to_flag_str(self.is_set(31)));
        out.append("\n            Zero     (Z): ");
        out.append(to_flag_str(self.is_set(30)));
        out.append("\n            Carry    (C): ");
        out.append(to_flag_str(self.is_set(29)));
        out.append("\n            Overflow (V): ");
        out.append(to_flag_str(self.is_set(28)));
        out.append("\n      Exception handling state:\n            Debug  (D): ");
        out.append(to_mask_str(self.is_set(9)));
        out.append("\n            SError (A): ");
        out.append(to_mask_str(self.is_set(8)));
        out.append("\n            IRQ    (I): ");
        out.append(to_mask_str(self.is_set(7)));
        out.append("\n            FIQ    (F): ");
        out.append(to_mask_str(self.is_set(6)));
        out.append("\n      Illegal Execution State (IL): ");
        out.append(to_flag_str(self.is_set(20)));
        out
    }
}

impl EsrEL1 {
    /// The exception class: bits 31 to 26 of the syndrome.
    pub open spec fn class_spec(self) -> u64 {
        field_read_spec(Field { mask: 0x3F, shift: 26 }, self.value)
    }

    /// The instruction specific syndrome: bits 24 to 0.
    pub open spec fn iss_spec(self) -> u64 {
        field_read_spec(Field { mask: 0x1FF_FFFF, shift: 0 }, self.value)
    }

    /// What an exception class is called. Only the data abort at the
    /// current level has a name so far.
    pub open spec fn class_text(class: u64) -> Seq<char> {
        if class == EC_DATA_ABORT_CURRENT_EL {
            "Data Abort, current EL"@
        } else {
            "N/A"@
        }
    }

    /// The report of the syndrome: its value, the exception class with its
    /// name, and the instruction specific syndrome.
    pub open spec fn text_spec(self) -> Seq<char> {
        "ESR_EL1: "@ + hex10_spec(self.value) + "\n      Exception Class         (EC) : "@
            + hex_spec(self.class_spec()) + " - "@ + Self::class_text(self.class_spec())
            + "\n      Instr Specific Syndrome (ISS): "@ + hex_spec(self.iss_spec())
    }

    /// The exception class.
    pub fn exception_class(&self) -> (r: u64)
        ensures
            r == self.class_spec(),
    {
        Field::new(0x3F, 26).read(self.value)
    }

    /// The instruction specific syndrome.
    pub fn iss(&self) -> (r: u64)
        ensures
            r == self.iss_spec(),
    {
        Field::new(0x1FF_FFFF, 0).read(self.value)
    }

    /// What an exception class is called.
    pub fn ec_translation(class: u64) -> (r: &'static str)
        ensures
            r@ == Self::class_text(class),
    {
        if class == EC_DATA_ABORT_CURRENT_EL {
            "Data Abort, current EL"
        } else {
            "N/A"
        }
    }

    /// Human readable ESR_EL1.
    pub fn to_text(&self) -> (r: String)
        ensures
            r@ == self.text_spec(),
    {
        // Raw print of whole register.
        let mut out = String::from_str("ESR_EL1: ");
        out.append(hex10(self.value).as_str());
        // Raw print of exception class.
        out.append("\n      Exception Class         (EC) : ");
        let class = self.exception_class();
        out.append(hex(class).as_str());
        // Exception class, translation.
        out.append(" - ");
        out.append(Self::ec_translation(class));
        // Raw print of instruction specific syndrome.
        out.append("\n      Instr Specific Syndrome (ISS): ");
        out.append(hex(self.iss()).as_str());
        out
    }
}

/// What follows a register in the list: a gap after an even one, so that
/// two registers share a line, and the end of the line after an odd one.
pub open spec fn alternating_text(index: int) -> Seq<char> {
    if index % 2 == 0 {
        "   "@
    } else {
        "\n"@
    }
}

/// The list of the first `count` general purpose registers, two to a line.
pub open spec fn registers_text(gpr: Seq<u64>, count: nat) -> Seq<char>
    decreases count,
{
    if count == 0 {
        Seq::<char>::empty()
    } else {
        registers_text(gpr, (count - 1) as nat) + "      x"@ + left2_spec((count - 1) as u64)
            + ": "@ + hex18_spec(gpr[count - 1]) + alternating_text(count - 1)
    }
}

impl ExceptionContext {
    /// The report of the context: where the exception happened, the saved
    /// status, and all general purpose registers with the link register.
    pub open spec fn text_spec(&self) -> Seq<char> {
        "ELR_EL1: "@ + hex18_spec(self.elr_el1) + "\n"@ + self.spsr_el1.text_spec()
            + "\n\nGeneral purpose register:\n"@ + registers_text(self.gpr@, 30) + "      lr : "@
            + hex18_spec(self.lr)
    }

    /// Human readable print of the exception context.
    pub fn to_text(&self) -> (r: String)
        ensures
            r@ == self.text_spec(),
    {
        let mut out = String::from_str("ELR_EL1: ");
        out.append(hex18(self.elr_el1).as_str());
        out.append("\n");
        out.append(self.spsr_el1.to_text().as_str());
        out.append("\n\nGeneral purpose register:\n");
        let ghost head = out@;
        // Print two registers per line.
        let mut i: usize = 0;
        while i < 30
            invariant
                i <= 30,
                out@ == head + registers_text(self.gpr@, i as nat),
            decreases 30 - i,
        {
            let ghost before = out@;
            out.append("      x");
            out.append(left2(i as u64).as_str());
            out.append(": ");
            out.append(hex18(self.gpr[i]).as_str());
            out.append(if i % 2 == 0 {
                "   "
            } else {
                "\n"
            });
            proof {
                assert(out@ =~= head + registers_text(self.gpr@, (i + 1) as nat));
            }
            i = i + 1;
        }
        out.append("      lr : ");
        out.append(hex18(self.lr).as_str());
        proof {
            assert(out@ =~= self.text_spec());
        }
        out
    }
}

/// The report of an exception: the fault address, the syndrome and the
/// context.
pub open spec fn report_spec(far: u64, esr: EsrEL1, context: &ExceptionContext) -> Seq<char> {
    "\n\nCPU Exception!\nFAR_EL1: "@ + hex18_spec(far) + "\n"@ + esr.text_spec() + "\n"@
        + context.text_spec()
}

/// Reports verbose information about the exception. No exception is
/// resumed: after the report the core is parked.
pub fn default_exception_handler(e: &ExceptionContext, far: u64, esr: EsrEL1) -> (r: (
    String,
    HwStep,
))
    ensures
        r.0@ == report_spec(far, esr, e),
        r.1 == HwStep::WaitForever,
{
    let mut out = String::from_str("\n\nCPU Exception!\nFAR_EL1: ");
    out.append(hex18(far).as_str());
    out.append("\n");
    out.append(esr.to_text().as_str());
    out.append("\n");
    out.append(e.to_text().as_str());
    (out, HwStep::WaitForever)
}

/// What the vector table does with an exception that arrives at `entry`:
/// every entry ends in [`default_exception_handler`].
pub fn dispatch(entry: VectorEntry, e: &ExceptionContext, far: u64, esr: EsrEL1) -> (r: (
    String,
    HwStep,
))
    ensures
        r.0@ == report_spec(far, esr, e),
        r.1 == HwStep::WaitForever,
{
    default_exception_handler(e, far, esr)
}

/// The steps that install the exception vector table at `vector_start`:
/// the base address, and a barrier so that the next instruction sees it.
pub open spec fn handling_init_steps(vector_start: u64) -> Seq<HwStep> {
    seq![HwStep::SetVbar(vector_start), HwStep::Isb]
}

/// Init exception handling by setting the exception vector base address
/// register.
pub fn handling_init(vector_start: u64) -> (r: Vec<HwStep>)
    ensures
        r@ == handling_init_steps(vector_start),
{
    let mut steps: Vec<HwStep> = Vec::new();
    steps.push(HwStep::SetVbar(vector_start));
    // Force the update to complete before the next instruction.
    steps.push(HwStep::Isb);
    proof {
        assert(steps@ =~= handling_init_steps(vector_start));
    }
    steps
}

} // verus!
