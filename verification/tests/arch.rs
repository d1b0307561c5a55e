use kernel::arch::{check_core_is_boot_core, shut_down, ExitCode, Interrupt, PortWrite, PIC_1_OFFSET, PIC_2_OFFSET};

#[test]
fn exit_codes() {
    assert_eq!(ExitCode::Success.code(), 0x10);
    assert_eq!(ExitCode::Failed.code(), 0x11);
}

#[test]
fn shut_down_writes_exit_code_to_exit_port() {
    assert_eq!(shut_down(ExitCode::Success), PortWrite { port: 0xf4, value: 0x10 });
    assert_eq!(shut_down(ExitCode::Failed), PortWrite { port: 0xf4, value: 0x11 });
}

#[test]
fn interrupt_vectors_follow_pic_offset() {
    assert_eq!(PIC_1_OFFSET, 32);
    assert_eq!(PIC_2_OFFSET, 40);
    assert_eq!(Interrupt::Timer.vector(), 32);
    assert_eq!(Interrupt::KeyBoard.vector(), 33);
}

#[test]
fn boot_core_is_core_zero() {
    assert!(check_core_is_boot_core(0));
    assert!(check_core_is_boot_core(0x8000_0000));
    assert!(check_core_is_boot_core(0xffff_fffc));
    assert!(!check_core_is_boot_core(1));
    assert!(!check_core_is_boot_core(0x8000_0003));
}
