use rootvg::tessellation::{BufferKind, BufferStack, TransformStack};
use rootvg::text::{EditorBorrowStatus, TextBufferState};
use rootvg::texture::{upload_action, SizeU32, TextureReplaceError, TextureSourceKind, TextureState, UploadAction};

fn size(w: u32, h: u32) -> SizeU32 {
    SizeU32 { width: w, height: h }
}

#[test]
fn replace_with_image() {
    let mut t = TextureState::new(size(4, 4));
    assert_eq!(t.replace_with_image(size(4, 5)), Err(TextureReplaceError::DifferentSize));
    assert_eq!(t.generation, 0);
    assert_eq!(t.replace_with_image(size(4, 4)), Ok(()));
    assert_eq!(t.generation, 1);
    assert_eq!(t.replace_prepass_texture(size(4, 4)), Err(TextureReplaceError::DifferentSourceType));
    assert_eq!(t.generation, 1);
    assert_eq!(t.size(), size(4, 4));
}

#[test]
fn replace_prepass() {
    let mut t = TextureState::from_prepass_texture(size(8, 2));
    assert_eq!(t.replace_with_image(size(8, 2)), Err(TextureReplaceError::DifferentSourceType));
    assert_eq!(t.replace_prepass_texture(size(2, 8)), Err(TextureReplaceError::DifferentSize));
    assert_eq!(t.replace_prepass_texture(size(8, 2)), Ok(()));
    t.mark_prepass_texture_dirty();
    assert_eq!(t.generation, 2);
}

#[test]
fn upload_actions() {
    assert_eq!(upload_action(TextureSourceKind::Image, false, false), UploadAction::Nothing);
    assert_eq!(upload_action(TextureSourceKind::Image, true, false), UploadAction::CreateAndWrite);
    assert_eq!(upload_action(TextureSourceKind::Image, true, true), UploadAction::Write);
    assert_eq!(upload_action(TextureSourceKind::Prepass, true, true), UploadAction::Nothing);
    assert_eq!(upload_action(TextureSourceKind::Prepass, false, false), UploadAction::CreateBindGroup);
}

#[test]
fn text_buffer_state() {
    let mut s = TextBufferState::new("");
    assert!(!s.has_text);
    assert!(s.set_text("hello"));
    assert_eq!(s.generation, 1);
    assert!(!s.set_bounds(false));
    assert_eq!(s.generation, 1);
    assert!(s.set_bounds(true));
    assert_eq!(s.generation, 2);
    assert!(!s.with_editor_status(false, EditorBorrowStatus { text_changed: true, has_text: false }));
    assert_eq!(s.generation, 2);
    assert!(!s.with_editor_status(true, EditorBorrowStatus { text_changed: true, has_text: false }));
    assert!(!s.has_text);
    assert_eq!(s.generation, 3);
    s.sync_state_from_editor();
    assert_eq!(s.generation, 4);
    assert!(TextBufferState::new("x").has_text);
}

#[test]
fn buffer_stack() {
    let mut b: BufferStack<u32> = BufferStack::new();
    assert_eq!(b.get_mut(BufferKind::Solid, 1), 0);
    assert_eq!(b.get_mut(BufferKind::Solid, 2), 0);
    assert_eq!(b.get_mut(BufferKind::Gradient, 3), 1);
    assert_eq!(b.get_mut(BufferKind::Solid, 4), 2);
    assert_eq!(b.stack, vec![(BufferKind::Solid, 1), (BufferKind::Gradient, 3), (BufferKind::Solid, 4)]);
}

#[test]
fn transform_stack() {
    let mut t = TransformStack::new(1u32);
    t.push_transform();
    t.current = 5;
    t.push_transform();
    t.current = 9;
    t.pop_transform();
    assert_eq!(t.current, 5);
    t.pop_transform();
    assert_eq!(t.current, 1);
    assert!(t.previous.is_empty());
}
