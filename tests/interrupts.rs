use blog_os::interrupts::{
    end_of_interrupt_vector, init_idt, init_test_idt, Gate, Handler, DOUBLE_FAULT_IST_INDEX,
    KEYBOARD_INTERRUPT_ID, TIMER_INTERRUPT_ID,
};

#[test]
fn kernel_idt_gates() {
    let idt = init_idt();
    assert_eq!(idt.gate(3), Some(Gate { handler: Handler::Breakpoint, stack_index: None }));
    assert_eq!(
        idt.gate(8),
        Some(Gate { handler: Handler::DoubleFault, stack_index: Some(DOUBLE_FAULT_IST_INDEX) })
    );
    assert_eq!(idt.gate(14), Some(Gate { handler: Handler::PageFault, stack_index: None }));
    assert_eq!(idt.gate(32), Some(Gate { handler: Handler::Timer, stack_index: None }));
    assert_eq!(idt.gate(33), Some(Gate { handler: Handler::Keyboard, stack_index: None }));
    let present = (0..=255u8).filter(|v| idt.gate(*v).is_some()).count();
    assert_eq!(present, 5);
}

#[test]
fn test_idt_has_only_double_fault() {
    let idt = init_test_idt();
    assert_eq!(
        idt.gate(8),
        Some(Gate { handler: Handler::DoubleFault, stack_index: Some(DOUBLE_FAULT_IST_INDEX) })
    );
    let present = (0..=255u8).filter(|v| idt.gate(*v).is_some()).count();
    assert_eq!(present, 1);
}

#[test]
fn end_of_interrupt_lines() {
    assert_eq!(end_of_interrupt_vector(Handler::Timer), Some(TIMER_INTERRUPT_ID));
    assert_eq!(end_of_interrupt_vector(Handler::Keyboard), Some(KEYBOARD_INTERRUPT_ID));
    assert_eq!(end_of_interrupt_vector(Handler::PageFault), None);
}
