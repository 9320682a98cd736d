use stellaros::arch::exception::{
    default_exception_handler, dispatch, handling_init, to_flag_str, to_mask_str, EsrEL1,
    ExceptionContext, SpsrEL1, VectorEntry,
};
use stellaros::arch::hw::HwStep;

fn context() -> ExceptionContext {
    let mut gpr = [0u64; 30];
    for (i, r) in gpr.iter_mut().enumerate() {
        *r = 0x1000 + i as u64;
    }
    ExceptionContext { gpr, lr: 0x4008_1234, elr_el1: 0x4008_0500, spsr_el1: SpsrEL1 { value: 0x6000_03C5 } }
}

const SPSR_TEXT: &str = "SPSR_EL1: 0x600003c5
      Flags:
            Negative (N): Not set
            Zero     (Z): Set
            Carry    (C): Set
            Overflow (V): Not set
      Exception handling state:
            Debug  (D): Masked
            SError (A): Masked
            IRQ    (I): Masked
            FIQ    (F): Masked
      Illegal Execution State (IL): Not set";

const ESR_TEXT: &str = "ESR_EL1: 0x96000045
      Exception Class         (EC) : 0x25 - Data Abort, current EL
      Instr Specific Syndrome (ISS): 0x45";

fn context_text() -> String {
    let mut expected = String::from("ELR_EL1: 0x0000000040080500\n");
    expected += SPSR_TEXT;
    expected += "\n\nGeneral purpose register:\n";
    for i in 0..30u64 {
        expected += &format!(
            "      x{: <2}: {: >#018x}{}",
            i,
            0x1000 + i,
            if i % 2 == 0 { "   " } else { "\n" }
        );
    }
    expected += "      lr : 0x0000000040081234";
    expected
}

#[test]
fn flags_and_masks_in_words() {
    assert_eq!(to_flag_str(true), "Set");
    assert_eq!(to_flag_str(false), "Not set");
    assert_eq!(to_mask_str(true), "Masked");
    assert_eq!(to_mask_str(false), "Unmasked");
}

#[test]
fn saved_status_is_decoded_bit_by_bit() {
    let spsr = SpsrEL1 { value: 0x6000_03C5 };
    assert!(!spsr.is_set(31));
    assert!(spsr.is_set(30));
    assert!(spsr.is_set(29));
    assert!(!spsr.is_set(28));
    assert!(spsr.is_set(9));
    assert!(!spsr.is_set(20));
    assert_eq!(spsr.to_text(), SPSR_TEXT);
}

#[test]
fn saved_status_with_everything_the_other_way() {
    let spsr = SpsrEL1 { value: 0x9010_0000 };
    let text = spsr.to_text();
    assert!(text.starts_with("SPSR_EL1: 0x90100000\n"));
    assert!(text.contains("Negative (N): Set\n"));
    assert!(text.contains("Zero     (Z): Not set\n"));
    assert!(text.contains("Overflow (V): Set\n"));
    assert!(text.contains("Debug  (D): Unmasked\n"));
    assert!(text.contains("FIQ    (F): Unmasked\n"));
    assert!(text.ends_with("Illegal Execution State (IL): Set"));
}

#[test]
fn syndrome_is_split_into_class_and_details() {
    let esr = EsrEL1 { value: 0x9600_0045 };
    assert_eq!(esr.exception_class(), 0x25);
    assert_eq!(esr.iss(), 0x45);
    assert_eq!(EsrEL1::ec_translation(0x25), "Data Abort, current EL");
    assert_eq!(EsrEL1::ec_translation(0x24), "N/A");
    assert_eq!(esr.to_text(), ESR_TEXT);
    let other = EsrEL1 { value: 0x0200_0000 };
    assert_eq!(
        other.to_text(),
        "ESR_EL1: 0x02000000\n      Exception Class         (EC) : 0x0 - N/A\n      Instr Specific Syndrome (ISS): 0x0"
    );
}

#[test]
fn context_lists_all_registers_two_to_a_line() {
    let text = context().to_text();
    assert_eq!(text, context_text());
    assert!(text.contains("      x0 : 0x0000000000001000         x1 : 0x0000000000001001\n"));
    assert!(text.contains("      x28: 0x000000000000101c         x29: 0x000000000000101d\n"));
}

#[test]
fn handler_reports_and_parks_the_core() {
    let (report, step) = default_exception_handler(&context(), 0xDEAD_0000, EsrEL1 { value: 0x9600_0045 });
    let mut expected = String::from("\n\nCPU Exception!\nFAR_EL1: 0x00000000dead0000\n");
    expected += ESR_TEXT;
    expected += "\n";
    expected += &context_text();
    assert_eq!(report, expected);
    assert_eq!(step, HwStep::WaitForever);
}

#[test]
fn every_vector_entry_ends_in_the_same_handler() {
    let entries = [
        VectorEntry::CurrentEl0Synchronous,
        VectorEntry::CurrentEl0Irq,
        VectorEntry::CurrentEl0Serror,
        VectorEntry::CurrentElxSynchronous,
        VectorEntry::CurrentElxIrq,
        VectorEntry::CurrentElxSerror,
        VectorEntry::LowerAarch64Synchronous,
        VectorEntry::LowerAarch64Irq,
        VectorEntry::LowerAarch64Serror,
        VectorEntry::LowerAarch32Synchronous,
        VectorEntry::LowerAarch32Irq,
        VectorEntry::LowerAarch32Serror,
    ];
    let esr = EsrEL1 { value: 0x9600_0045 };
    let expected = default_exception_handler(&context(), 0x10, esr);
    for entry in entries {
        assert_eq!(dispatch(entry, &context(), 0x10, esr), expected);
    }
}

#[test]
fn vector_table_is_installed_with_a_barrier() {
    assert_eq!(handling_init(0x4008_0800), vec![HwStep::SetVbar(0x4008_0800), HwStep::Isb]);
}
