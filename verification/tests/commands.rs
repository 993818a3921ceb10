use rootvg::commands::{Command, CommandIterator, PackedCommandBuffer, PathBuilderInner, PointBytes};
use rootvg::style::Winding;

fn pt(x: f32, y: f32) -> PointBytes {
    PointBytes { x: x.to_ne_bytes(), y: y.to_ne_bytes() }
}

#[test]
fn new_buffer_is_empty() {
    let b = PackedCommandBuffer::new();
    assert!(b.data.is_empty());
    assert!(b.commands().is_empty());
}

#[test]
fn move_to_layout() {
    let mut b = PackedCommandBuffer::new();
    b.move_to(pt(1.0, 2.0));
    assert_eq!(b.data.len(), 9);
    assert_eq!(b.data[0], 0);
    assert_eq!(&b.data[1..5], &1.0f32.to_ne_bytes());
    assert_eq!(&b.data[5..9], &2.0f32.to_ne_bytes());
}

#[test]
fn bezier_layout_and_close_and_winding() {
    let mut b = PackedCommandBuffer::new();
    b.bezier_to(pt(1.0, 2.0), pt(3.0, 4.0), pt(5.0, 6.0));
    b.close_path();
    b.winding(Winding::Hole);
    assert_eq!(b.data.len(), 25 + 1 + 2);
    assert_eq!(b.data[0], 2);
    assert_eq!(&b.data[17..21], &5.0f32.to_ne_bytes());
    assert_eq!(b.data[25], 3);
    assert_eq!(b.data[26], 4);
    assert_eq!(b.data[27], 1);
}

#[test]
fn commands_roundtrip() {
    let mut b = PackedCommandBuffer::new();
    b.move_to(pt(0.0, 0.0));
    b.line_to(pt(10.0, 0.0));
    b.bezier_to(pt(10.0, 10.0), pt(12.0, 3.0), pt(12.0, 7.0));
    b.close_path();
    b.move_to(pt(-1.5, 2.25));
    b.winding(Winding::Hole);
    let cmds = b.commands();
    assert_eq!(
        cmds,
        vec![
            Command::MoveTo(pt(0.0, 0.0)),
            Command::LineTo(pt(10.0, 0.0)),
            Command::BezierTo { pos: pt(10.0, 10.0), h1_pos: pt(12.0, 3.0), h2_pos: pt(12.0, 7.0) },
            Command::Close,
            Command::MoveTo(pt(-1.5, 2.25)),
            Command::Winding(Winding::Hole),
        ]
    );
}

#[test]
fn winding_byte_is_read_again() {
    // The decoder does not step over the byte of a winding: a solid winding
    // (byte 0) followed by a close is then read as a move with too few bytes.
    let mut b = PackedCommandBuffer::new();
    b.winding(Winding::Solid);
    b.close_path();
    assert_eq!(b.commands(), vec![Command::Winding(Winding::Solid)]);
    let mut it = b.iter();
    assert_eq!(it.next(), Some(Command::Winding(Winding::Solid)));
    assert_eq!(it.curr, 1);
    assert_eq!(it.next(), None);
    assert_eq!(it.curr, 2);
    assert_eq!(it.next(), Some(Command::Close));
    assert_eq!(it.next(), None);
}

#[test]
fn unknown_tag_stops() {
    let data = [3u8, 9, 3];
    let mut it = CommandIterator { data: &data, curr: 0 };
    assert_eq!(it.next(), Some(Command::Close));
    assert_eq!(it.next(), None);
    assert_eq!(it.curr, 1);
    assert_eq!(it.next(), None);
    assert_eq!(it.curr, 1);
}

#[test]
fn truncated_line_stops() {
    let data = [1u8, 0, 0, 0];
    let mut it = CommandIterator { data: &data, curr: 0 };
    assert_eq!(it.next(), None);
    assert_eq!(it.curr, 1);
    let mut it2 = CommandIterator { data: &data, curr: 0 };
    assert!(it2.collect_commands().is_empty());
}

#[test]
fn truncated_bezier_and_winding_stop() {
    let mut data = vec![2u8];
    data.extend_from_slice(&[0u8; 23]);
    let mut it = CommandIterator { data: &data, curr: 0 };
    assert_eq!(it.next(), None);
    let data2 = [4u8];
    let mut it2 = CommandIterator { data: &data2, curr: 0 };
    assert_eq!(it2.next(), None);
    assert_eq!(it2.curr, 1);
}

#[test]
fn nonzero_winding_byte_is_hole() {
    let data = [4u8, 7];
    let mut it = CommandIterator { data: &data, curr: 0 };
    assert_eq!(it.next(), Some(Command::Winding(Winding::Hole)));
}

#[test]
fn clear_removes_commands() {
    let mut b = PackedCommandBuffer::new();
    b.line_to(pt(1.0, 1.0));
    b.clear();
    assert!(b.data.is_empty());
}

#[test]
fn path_builder_inner_iterates_its_buffer() {
    let mut inner = PathBuilderInner { command_buffer: PackedCommandBuffer::new(), antialias: true };
    inner.command_buffer.line_to(pt(3.0, 4.0));
    let mut it = inner.iter_commands();
    assert_eq!(it.curr, 0);
    assert_eq!(it.next(), Some(Command::LineTo(pt(3.0, 4.0))));
    assert_eq!(it.next(), None);
}
