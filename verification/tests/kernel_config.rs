use blog_os::QemuExitCode;
use blog_os::interrupts::{key_for_scancode, InterruptIndex, PIC_1_OFFSET, PIC_2_OFFSET};
use blog_os::vga_buffer::{Color, ColorCode};

#[test]
fn controller_offsets_avoid_the_exception_range() {
    assert_eq!(PIC_1_OFFSET, 32);
    assert_eq!(PIC_2_OFFSET, 40);
}

#[test]
fn interrupt_vectors() {
    assert_eq!(InterruptIndex::Timer.as_u8(), 32);
    assert_eq!(InterruptIndex::Keyboard.as_u8(), 33);
    assert_eq!(InterruptIndex::Timer.as_usize(), 32);
    assert_eq!(InterruptIndex::Keyboard.as_usize(), 33);
}

#[test]
fn scancodes_decode_the_digit_row() {
    assert_eq!(key_for_scancode(0x02), Some('1'));
    assert_eq!(key_for_scancode(0x09), Some('8'));
    assert_eq!(key_for_scancode(0x0A), Some('9'));
    assert_eq!(key_for_scancode(0x0B), Some('0'));
    assert_eq!(key_for_scancode(0x01), None);
    assert_eq!(key_for_scancode(0x1E), None);
}

#[test]
fn qemu_exit_codes() {
    assert_eq!(QemuExitCode::Success.code(), 0x10);
    assert_eq!(QemuExitCode::Failed.code(), 0x11);
}

#[test]
fn color_codes_pack_background_and_foreground() {
    assert_eq!(ColorCode::new(Color::Yellow, Color::Black).0, 0x0E);
    assert_eq!(ColorCode::new(Color::White, Color::Blue).0, 0x1F);
    assert_eq!(ColorCode::new(Color::Black, Color::Black).0, 0x00);
    assert_eq!(ColorCode::new(Color::LightGray, Color::DarkGray).0, 0x87);
}
