use kernel::ints::pic::{
    data_port, interrupts_enabled, mask, mask_all, send_eoi, unmask, unmask_all, PortWrite,
};
use kernel::ints::{
    classify, exception_name, init, pushes_error_code, Handlers, IdtEntry, IdtPtr, StackFrame,
    TrapAction, VectorClass,
};

fn write(port: u16, value: u8) -> PortWrite {
    PortWrite { port, value }
}

fn frame_with_vector(vector: u64) -> StackFrame {
    let mut f = StackFrame::default();
    f.vector = vector;
    f
}

#[test]
fn frame_words_lie_in_the_order_of_the_stub() {
    let mut w = [0u64; 22];
    for i in 0..22 {
        w[i] = 100 + i as u64;
    }
    let f = StackFrame::from_words(&w);
    assert_eq!(f.r15, 100);
    assert_eq!(f.r8, 107);
    assert_eq!(f.rbp, 108);
    assert_eq!(f.rdi, 109);
    assert_eq!(f.rsi, 110);
    assert_eq!(f.rax, 114);
    assert_eq!(f.vector, 115);
    assert_eq!(f.ec, 116);
    assert_eq!(f.rip, 117);
    assert_eq!(f.cs, 118);
    assert_eq!(f.rflags, 119);
    assert_eq!(f.rsp, 120);
    assert_eq!(f.ss, 121);
    assert_eq!(f.to_words(), w);
}

#[test]
fn default_frame_is_all_zero() {
    assert_eq!(StackFrame::default().to_words(), [0u64; 22]);
}

#[test]
fn descriptor_splits_the_handler_address() {
    let mut e = IdtEntry::new();
    e.set(0x1122_3344_5566_7788, None, None, 0x08);
    assert_eq!(e.offset0, 0x7788);
    assert_eq!(e.offset1, 0x5566);
    assert_eq!(e.offset2, 0x1122_3344);
    assert_eq!(e.selector, 0x08);
    assert_eq!(e.typeattr, 0x8E);
    assert_eq!(e.ist, 0);
    assert_eq!(e.zero, 0);
    e.set(0, Some(0xEE), Some(3), 0x10);
    assert_eq!(e.typeattr, 0xEE);
    assert_eq!(e.ist, 3);
    assert_eq!(e.offset0, 0);
}

#[test]
fn descriptor_table_points_every_vector_at_its_stub() {
    let mut stubs = [0u64; 256];
    for i in 0..256 {
        stubs[i] = 0xffff_ffff_8000_0000 + 16 * i as u64;
    }
    let idt = init(&stubs, 0x08);
    for i in 0..256 {
        let e = idt.entries[i];
        let addr = e.offset0 as u64 | (e.offset1 as u64) << 16 | (e.offset2 as u64) << 32;
        assert_eq!(addr, stubs[i]);
        assert_eq!(e.selector, 0x08);
        assert_eq!(e.typeattr, if i == 0x80 { 0xEE } else { 0x8E });
    }
    let p = IdtPtr::new(0x1234);
    assert_eq!(p.limit, 4095);
    assert_eq!(p.base, 0x1234);
}

#[test]
fn vectors_are_classified() {
    assert_eq!(classify(0), VectorClass::Exception);
    assert_eq!(classify(31), VectorClass::Exception);
    assert_eq!(classify(0x20), VectorClass::TickTimer);
    assert_eq!(classify(0x21), VectorClass::Keyboard);
    assert_eq!(classify(0x22), VectorClass::Free);
    assert_eq!(classify(0x80), VectorClass::Free);
    assert_eq!(classify(0xFF), VectorClass::Preemption);
}

#[test]
fn error_codes_come_with_the_vectors_that_have_them() {
    let with: Vec<u8> = (0..=255u8).filter(|v| pushes_error_code(*v)).collect();
    assert_eq!(with, vec![8, 10, 11, 12, 13, 14, 17, 21, 29, 30]);
}

#[test]
fn exceptions_have_names() {
    assert_eq!(exception_name(0), "divide by zero");
    assert_eq!(exception_name(8), "double fault");
    assert_eq!(exception_name(13), "general protection fault");
    assert_eq!(exception_name(14), "page fault");
    assert_eq!(exception_name(18), "machine check");
    assert_eq!(exception_name(19), "reserved");
    assert_eq!(exception_name(31), "reserved");
}

#[test]
fn page_fault_reports_the_address() {
    let h = Handlers::new(1, 2);
    assert_eq!(
        h.isr_handler(&frame_with_vector(14), 0xdead_beef),
        TrapAction::PageFault { address: 0xdead_beef }
    );
}

#[test]
fn other_exceptions_are_fatal() {
    let h = Handlers::new(1, 2);
    assert_eq!(h.isr_handler(&frame_with_vector(0), 0), TrapAction::Exception { vector: 0 });
    assert_eq!(h.isr_handler(&frame_with_vector(13), 7), TrapAction::Exception { vector: 13 });
    assert_eq!(h.isr_handler(&frame_with_vector(31), 7), TrapAction::Exception { vector: 31 });
}

#[test]
fn interrupts_go_to_their_handler_or_are_dropped() {
    let mut h = Handlers::new(11, 22);
    assert_eq!(h.isr_handler(&frame_with_vector(0x20), 0), TrapAction::Handle { handler: 11 });
    assert_eq!(h.isr_handler(&frame_with_vector(0x21), 0), TrapAction::Handle { handler: 22 });
    assert_eq!(h.isr_handler(&frame_with_vector(0xFF), 0), TrapAction::Ignore);
    assert_eq!(h.isr_handler(&frame_with_vector(34), 0), TrapAction::Ignore);
    h.install_interrupt(0xFF, 33);
    assert_eq!(h.isr_handler(&frame_with_vector(0xFF), 0), TrapAction::Handle { handler: 33 });
    h.install_interrupt(0xFF, 34);
    assert_eq!(h.isr_handler(&frame_with_vector(0xFF), 0), TrapAction::Handle { handler: 34 });
    h.clear_interrupt(0xFF);
    assert_eq!(h.isr_handler(&frame_with_vector(0xFF), 0), TrapAction::Ignore);
    h.clear_interrupt(0x20);
    assert_eq!(h.isr_handler(&frame_with_vector(0x20), 0), TrapAction::Ignore);
    assert_eq!(h.isr_handler(&frame_with_vector(0x21), 0), TrapAction::Handle { handler: 22 });
}

#[test]
fn end_of_interrupt_goes_to_both_controllers_for_a_high_line() {
    assert_eq!(send_eoi(0), vec![write(0x20, 0x20)]);
    assert_eq!(send_eoi(7), vec![write(0x20, 0x20)]);
    assert_eq!(send_eoi(8), vec![write(0xA0, 0x20), write(0x20, 0x20)]);
    assert_eq!(send_eoi(15), vec![write(0xA0, 0x20), write(0x20, 0x20)]);
}

#[test]
fn all_lines_are_masked_and_unmasked() {
    assert_eq!(mask_all(), vec![write(0x21, 0xff), write(0xA1, 0xff)]);
    assert_eq!(unmask_all(), vec![write(0x21, 0), write(0xA1, 0)]);
}

#[test]
fn one_line_is_masked_and_unmasked() {
    assert_eq!(data_port(3), 0x21);
    assert_eq!(data_port(8), 0xA1);
    assert_eq!(mask(0, 0), write(0x21, 0x01));
    assert_eq!(mask(3, 0x41), write(0x21, 0x49));
    assert_eq!(mask(7, 0), write(0x21, 0x80));
    assert_eq!(mask(8, 0), write(0xA1, 0x01));
    assert_eq!(mask(15, 0x01), write(0xA1, 0x81));
    assert_eq!(unmask(0, 0xff), write(0x21, 0xfe));
    assert_eq!(unmask(1, 0xfd), write(0x21, 0xfd));
    assert_eq!(unmask(12, 0xff), write(0xA1, 0xef));
}

#[test]
fn remap_sends_the_four_words_and_restores_the_masks() {
    assert_eq!(
        kernel::ints::pic::init(0xfb, 0xff),
        vec![
            write(0x20, 0x11),
            write(0xA0, 0x11),
            write(0x21, 0x20),
            write(0xA1, 0x28),
            write(0x21, 0x04),
            write(0xA1, 0x02),
            write(0x21, 0x01),
            write(0xA1, 0x01),
            write(0x21, 0xfb),
            write(0xA1, 0xff),
        ]
    );
}

#[test]
fn interrupt_flag_is_bit_nine() {
    assert!(interrupts_enabled(0x202));
    assert!(!interrupts_enabled(0x002));
    assert!(!interrupts_enabled(0x100));
}

#[test]
fn descriptor_lies_in_memory_in_sixteen_bytes() {
    let mut e = IdtEntry::new();
    e.set(0x1122_3344_5566_7788, Some(0xEE), Some(2), 0x08);
    let mut out = Vec::new();
    e.push_to(&mut out);
    assert_eq!(
        out,
        vec![0x88, 0x77, 0x08, 0x00, 0x02, 0xEE, 0x66, 0x55, 0x44, 0x33, 0x22, 0x11, 0, 0, 0, 0]
    );
    assert_eq!(IdtPtr::new(0x0807_0605_0403_0201).to_bytes(), vec![0xff, 0x0f, 1, 2, 3, 4, 5, 6, 7, 8]);
}

#[test]
fn descriptor_table_lies_in_memory_in_a_page() {
    let mut stubs = [0u64; 256];
    for i in 0..256 {
        stubs[i] = 0x10_0000 + i as u64;
    }
    let bytes = init(&stubs, 0x08).to_bytes();
    assert_eq!(bytes.len(), 4096);
    assert_eq!(&bytes[0..4], &[0x00, 0x00, 0x08, 0x00]);
    assert_eq!(&bytes[16 * 0x80..16 * 0x80 + 8], &[0x80, 0x00, 0x08, 0x00, 0x00, 0xEE, 0x10, 0x00]);
    assert_eq!(&bytes[16 * 255..16 * 255 + 8], &[0xff, 0x00, 0x08, 0x00, 0x00, 0x8E, 0x10, 0x00]);
}
