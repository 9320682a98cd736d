use stellaros::arch::boot::{config_el1, current_level, el2_to_el1_transition, start, ExceptionLevel};
use stellaros::arch::hw::HwStep;

#[test]
fn level_is_read_from_the_level_field_alone() {
    assert_eq!(current_level(0x8), ExceptionLevel::HypervisorLevel);
    assert_eq!(current_level(0x4), ExceptionLevel::KernelLevel);
    assert_eq!(current_level(0x0), ExceptionLevel::Other);
    assert_eq!(current_level(0xC), ExceptionLevel::Other);
    assert_eq!(current_level(0x9), ExceptionLevel::Other);
}

#[test]
fn transition_programs_the_return_to_the_kernel_level() {
    assert_eq!(
        el2_to_el1_transition(0x4008_0000, 0x4008_0000),
        vec![
            HwStep::SetCnthctl(0x3),
            HwStep::SetCntvoff(0),
            HwStep::SetHcr(0x8000_0000),
            HwStep::SetSpsrEl2(0x3C5),
            HwStep::SetElrEl2(0x4008_0000),
            HwStep::SetSpEl1(0x4008_0000),
            HwStep::Eret,
        ]
    );
}

#[test]
fn kernel_level_masks_interrupts_and_frees_the_fpu() {
    assert_eq!(config_el1(), vec![HwStep::SetDaif(0x3C0), HwStep::SetCpacr(0x30_0000)]);
}

#[test]
fn other_cores_wait() {
    assert_eq!(start(1, 0, 0x8, 0x1000, 0x2000), vec![HwStep::WaitForever]);
    assert_eq!(start(3, 0, 0x4, 0x1000, 0x2000), vec![HwStep::WaitForever]);
}

#[test]
fn boot_core_goes_on_by_its_level() {
    assert_eq!(start(0, 0, 0x8, 0x1000, 0x2000), el2_to_el1_transition(0x1000, 0x2000));
    assert_eq!(
        start(0, 0, 0x4, 0x1000, 0x2000),
        vec![HwStep::SetDaif(0x3C0), HwStep::SetCpacr(0x30_0000), HwStep::RuntimeInit]
    );
    assert_eq!(start(0, 0, 0xC, 0x1000, 0x2000), vec![HwStep::WaitForever]);
    assert_eq!(start(0, 0, 0x0, 0x1000, 0x2000), vec![HwStep::WaitForever]);
}
