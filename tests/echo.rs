use echo_os::echo::{init, process, EchoBuffer, BUFFER_SIZE};
use echo_os::vga::{Color, ColorCode, VGAWriter};

fn text(w: &VGAWriter, row: usize, len: usize) -> String {
    (0..len).map(|c| w.cell(row, c).ascii_character as char).collect()
}

#[test]
fn flush_returns_pushes_in_order() {
    let mut b = EchoBuffer::new();
    for c in "hello".chars() {
        b.push(c);
    }
    assert_eq!(b.len(), 5);
    let snap = b.clear();
    assert_eq!(snap.data(), &['h', 'e', 'l', 'l', 'o']);
    assert_eq!(b.len(), 0);
    assert!(b.data().is_empty());
    let again = b.clear();
    assert!(again.data().is_empty());
}

#[test]
fn flush_keeps_exactly_capacity_characters() {
    let mut b = EchoBuffer::new();
    let input: Vec<char> = (0..BUFFER_SIZE + 10).map(|i| (b'a' + (i % 26) as u8) as char).collect();
    for &c in &input {
        b.push(c);
        assert!(b.len() <= BUFFER_SIZE);
    }
    assert_eq!(b.len(), BUFFER_SIZE);
    let snap = b.clear();
    assert_eq!(snap.data(), &input[..BUFFER_SIZE]);
}

#[test]
fn buffer_of_exactly_capacity_is_kept_whole() {
    let mut b = EchoBuffer::new();
    let input: Vec<char> = (0..BUFFER_SIZE).map(|i| if i % 2 == 0 { 'x' } else { 'é' }).collect();
    for &c in &input {
        b.push(c);
    }
    b.push('z');
    assert_eq!(b.clear().data(), &input[..]);
}

#[test]
fn init_shows_banner_then_prompt() {
    let mut w = VGAWriter::new();
    let before = w.color();
    init(&mut w);
    assert_eq!(text(&w, 0, 30), "You have fallen into deep cave");
    assert_eq!(w.cell(0, 0).color_code, ColorCode(0x09));
    assert_eq!(text(&w, 5, 11), "Is the Echo");
    assert_eq!(text(&w, 7, 2), "> ");
    assert_eq!(w.cell(7, 0).color_code, before);
    assert_eq!(w.row(), 7);
    assert_eq!(w.column(), 2);
    assert_eq!(w.color(), before);
}

#[test]
fn typed_character_is_buffered_and_shown() {
    let mut w = VGAWriter::new();
    let mut b = EchoBuffer::new();
    process('h', &mut b, &mut w);
    process('i', &mut b, &mut w);
    assert_eq!(b.data(), &['h', 'i']);
    assert_eq!(text(&w, 0, 2), "hi");
    assert_eq!(w.column(), 2);
}

#[test]
fn line_feed_echoes_line_in_echo_color() {
    let mut w = VGAWriter::new();
    let mut b = EchoBuffer::new();
    let normal = w.color();
    for c in "hi\n".chars() {
        process(c, &mut b, &mut w);
    }
    assert_eq!(b.len(), 0);
    assert_eq!(text(&w, 0, 2), "hi");
    assert_eq!(text(&w, 1, 4), "@ hi");
    let light_blue = ColorCode::new_with_black_background(Color::LightBlue);
    for c in 0..4 {
        assert_eq!(w.cell(1, c).color_code, light_blue);
    }
    assert_eq!(text(&w, 3, 2), "> ");
    assert_eq!(w.cell(3, 0).color_code, normal);
    assert_eq!(w.color(), normal);
    assert_eq!(w.row(), 3);
    assert_eq!(w.column(), 2);
}

#[test]
fn empty_line_echoes_marker_only() {
    let mut w = VGAWriter::new();
    let mut b = EchoBuffer::new();
    process('\n', &mut b, &mut w);
    assert_eq!(text(&w, 1, 3), "@  ");
    assert_eq!(text(&w, 3, 2), "> ");
}
