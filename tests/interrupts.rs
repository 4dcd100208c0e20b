use echo_os::echo::{echo_key, EchoBuffer, Key};
use echo_os::interrupts::{
    keyboard_interrupt, timer_interrupt, InterruptIndex, KeyboardDecoder, PIC_1_OFFSET,
    PIC_2_OFFSET,
};
use echo_os::testing::QemuExitCode;
use echo_os::vga::VGAWriter;
use pc_keyboard::layouts::Us104Key;
use pc_keyboard::{HandleControl, Keyboard, ScancodeSet1};

fn decoder() -> KeyboardDecoder {
    KeyboardDecoder { keyboard: Keyboard::new(Us104Key, ScancodeSet1, HandleControl::Ignore) }
}

fn text(w: &VGAWriter, row: usize, len: usize) -> String {
    (0..len).map(|c| w.cell(row, c).ascii_character as char).collect()
}

#[test]
fn vectors_follow_exception_range() {
    assert_eq!(PIC_1_OFFSET, 32);
    assert_eq!(PIC_2_OFFSET, 40);
    assert_eq!(InterruptIndex::Timer.as_u8(), 32);
    assert_eq!(InterruptIndex::Keyboard.as_u8(), 33);
    assert_eq!(InterruptIndex::Keyboard.as_usize(), 33usize);
}

#[test]
fn timer_counts_and_acknowledges() {
    let mut ticks: usize = 41;
    assert_eq!(timer_interrupt(&mut ticks), 32);
    assert_eq!(ticks, 42);
    let mut top = usize::MAX;
    timer_interrupt(&mut top);
    assert_eq!(top, 0);
}

#[test]
fn decoder_maps_scancodes_and_modifiers() {
    let mut k = decoder();
    let mut b = EchoBuffer::new();
    let mut w = VGAWriter::new();
    // h, release, shift down, h, shift up, up arrow, F1
    for byte in [0x23u8, 0xA3, 0x2A, 0x23, 0xAA, 0xE0, 0x48, 0x3B] {
        keyboard_interrupt(&mut k, &mut b, &mut w, byte);
    }
    assert_eq!(b.data(), &['h', 'H']);
    assert_eq!(text(&w, 0, 3), "hH ");
    assert_eq!(w.column(), 2);
    keyboard_interrupt(&mut k, &mut b, &mut w, 0x1C);
    assert_eq!(b.len(), 0);
    assert_eq!(text(&w, 1, 4), "@ hH");
}

#[test]
fn second_key_press_is_decoded_after_first() {
    let mut k = decoder();
    let mut b = EchoBuffer::new();
    let mut w = VGAWriter::new();
    assert_eq!(keyboard_interrupt(&mut k, &mut b, &mut w, 0x23), 33);
    assert_eq!(keyboard_interrupt(&mut k, &mut b, &mut w, 0xA3), 33);
    assert_eq!(keyboard_interrupt(&mut k, &mut b, &mut w, 0x17), 33);
    assert_eq!(b.data(), &['h', 'i']);
}

#[test]
fn keyboard_path_echoes_typed_line() {
    let mut k = decoder();
    let mut b = EchoBuffer::new();
    let mut w = VGAWriter::new();
    for byte in [0x23u8, 0xA3, 0x17, 0x97, 0x1C, 0x9C] {
        assert_eq!(keyboard_interrupt(&mut k, &mut b, &mut w, byte), InterruptIndex::Keyboard.as_u8());
    }
    assert_eq!(b.len(), 0);
    assert_eq!(text(&w, 0, 2), "hi");
    assert_eq!(text(&w, 1, 4), "@ hi");
    assert_eq!(text(&w, 3, 2), "> ");
    assert_eq!(w.row(), 3);
    assert_eq!(w.column(), 2);
}

#[test]
fn raw_keys_change_nothing() {
    let mut k = decoder();
    let mut b = EchoBuffer::new();
    let mut w = VGAWriter::new();
    keyboard_interrupt(&mut k, &mut b, &mut w, 0x3B);
    keyboard_interrupt(&mut k, &mut b, &mut w, 0xFF);
    assert_eq!(b.len(), 0);
    assert_eq!(w.column(), 0);
}

#[test]
fn echo_key_ignores_raw_keys_and_nothing() {
    let mut b = EchoBuffer::new();
    let mut w = VGAWriter::new();
    echo_key(Some(Key::Unicode('a')), &mut b, &mut w);
    echo_key(Some(Key::Raw), &mut b, &mut w);
    echo_key(None, &mut b, &mut w);
    assert_eq!(b.data(), &['a']);
    assert_eq!(w.column(), 1);
    assert_eq!(text(&w, 0, 2), "a ");
}

#[test]
fn exit_codes_match_port_protocol() {
    assert_eq!(QemuExitCode::Success.as_u32(), 0x10);
    assert_eq!(QemuExitCode::Failed.as_u32(), 0x11);
}
