use hello_kernel::kernel::Kernel;
use hello_kernel::vga::writer::{CellWrite, VGAWriter, WriteFault};
use hello_kernel::vga::{Position, VGAChar, VGAColor, VgaLayout};

fn origin_writer(color: VGAColor) -> VGAWriter {
    VGAWriter::new(VgaLayout::standard(), Position { x: 0, y: 0 }, color)
}

fn cells(writes: &[CellWrite]) -> Vec<(usize, u8, u8)> {
    writes.iter().map(|w| (w.offset, w.cell.ascii(), w.cell.color())).collect()
}

#[test]
fn color_codes() {
    assert_eq!(VGAColor::Black.code(), 0x0);
    assert_eq!(VGAColor::Red.code(), 0x4);
    assert_eq!(VGAColor::White.code(), 0xf);
}

#[test]
fn vga_char_holds_character_and_attribute() {
    let cell = VGAChar::new(b'A', VGAColor::Red);
    assert_eq!(cell.ascii(), b'A');
    assert_eq!(cell.color(), 0x4);
    assert_eq!(VgaLayout::blank_cell(), VGAChar::new(b' ', VGAColor::Black));
}

#[test]
fn layout_offsets_are_row_major() {
    let layout = VgaLayout::standard();
    assert_eq!(layout.cell_count(), 2000);
    assert_eq!(layout.cell_offset(Position { x: 0, y: 0 }), Some(0));
    assert_eq!(layout.cell_offset(Position { x: 79, y: 0 }), Some(79));
    assert_eq!(layout.cell_offset(Position { x: 0, y: 1 }), Some(80));
    assert_eq!(layout.cell_offset(Position { x: 79, y: 24 }), Some(1999));
    assert_eq!(layout.cell_offset(Position { x: 80, y: 0 }), None);
    assert_eq!(layout.cell_offset(Position { x: 0, y: 25 }), None);
}

#[test]
fn writer_writes_hello_world_from_the_origin() {
    let mut writer = origin_writer(VGAColor::White);
    let plan = writer.write_bytes(b"Hello, world!");
    assert_eq!(plan.fault, None);
    let expected: Vec<(usize, u8, u8)> = b"Hello, world!".iter().enumerate().map(|(i, b)| (i, *b, 0xf)).collect();
    assert_eq!(cells(&plan.cells), expected);
}

#[test]
fn writer_line_feed_and_carriage_return() {
    let mut writer = VGAWriter::new(VgaLayout::standard(), Position { x: 5, y: 2 }, VGAColor::Red);
    let plan = writer.write_bytes(b"a\nb\rc");
    assert_eq!(plan.fault, None);
    assert_eq!(cells(&plan.cells), vec![(2 * 80 + 5, b'a', 4), (3 * 80, b'b', 4), (3 * 80, b'c', 4)]);
}

#[test]
fn writer_tab_writes_four_spaces() {
    let mut writer = origin_writer(VGAColor::White);
    let plan = writer.write_bytes(b"\tx");
    assert_eq!(plan.fault, None);
    assert_eq!(
        cells(&plan.cells),
        vec![(0, b' ', 0xf), (1, b' ', 0xf), (2, b' ', 0xf), (3, b' ', 0xf), (4, b'x', 0xf)]
    );
}

#[test]
fn writer_replaces_unprintable_bytes() {
    let mut writer = origin_writer(VGAColor::White);
    let plan = writer.write_bytes(&[0x01, 0x7f, 0xc3, b'~']);
    assert_eq!(plan.fault, None);
    assert_eq!(cells(&plan.cells), vec![(0, b'?', 0xf), (1, b'?', 0xf), (2, b'?', 0xf), (3, b'~', 0xf)]);
}

#[test]
fn writer_wraps_at_the_end_of_a_row() {
    let mut writer = VGAWriter::new(VgaLayout::standard(), Position { x: 79, y: 0 }, VGAColor::White);
    let plan = writer.write_bytes(b"ab");
    assert_eq!(plan.fault, None);
    assert_eq!(cells(&plan.cells), vec![(79, b'a', 0xf), (80, b'b', 0xf)]);
}

#[test]
fn writer_stops_below_the_last_row() {
    let mut writer = VGAWriter::new(VgaLayout::standard(), Position { x: 78, y: 24 }, VGAColor::White);
    let plan = writer.write_bytes(b"abc");
    assert_eq!(plan.fault, Some(WriteFault::OutOfBounds));
    assert_eq!(cells(&plan.cells), vec![(1998, b'a', 0xf), (1999, b'b', 0xf)]);
}

#[test]
fn writer_stops_in_a_tab_below_the_last_row() {
    let mut writer = VGAWriter::new(VgaLayout::standard(), Position { x: 78, y: 24 }, VGAColor::White);
    let plan = writer.write_bytes(b"\tz");
    assert_eq!(plan.fault, Some(WriteFault::OutOfBounds));
    assert_eq!(cells(&plan.cells), vec![(1998, b' ', 0xf), (1999, b' ', 0xf)]);
}

#[test]
fn writer_line_feed_on_the_last_representable_row_overflows() {
    let mut writer = VGAWriter::new(VgaLayout::standard(), Position { x: 3, y: u32::MAX }, VGAColor::White);
    let plan = writer.write_bytes(b"\r\nq");
    assert_eq!(plan.fault, Some(WriteFault::LineOverflow));
    assert!(plan.cells.is_empty());
}

#[test]
fn writer_keeps_writes_on_screen() {
    let text: Vec<u8> = (0u16..600).map(|i| (i * 37 % 256) as u8).collect();
    let mut writer = VGAWriter::new(VgaLayout::standard(), Position { x: 17, y: 3 }, VGAColor::Red);
    let plan = writer.write_bytes(&text);
    assert!(!plan.cells.is_empty());
    for write in &plan.cells {
        assert!(write.offset < 2000);
        assert!((0x20..=0x7e).contains(&write.cell.ascii()));
        assert_eq!(write.cell.color(), 0x4);
    }
}

#[test]
fn kernel_tick_does_nothing() {
    let mut kernel = Kernel {};
    kernel.tick();
    kernel.tick();
}
