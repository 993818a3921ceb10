//! Text buffers: when a buffer's text must be shaped again, and the
//! generation by which its changes are seen.
use vstd::prelude::*;

verus! {

/// What a caller reports after editing the text of an editor.
#[derive(Debug, Clone, Copy, PartialEq, Eq, Structural)]
pub struct EditorBorrowStatus {
    pub text_changed: bool,
    pub has_text: bool,
}

/// Whether a text buffer has text, and its generation, which counts its
/// changes (two handles of one buffer are equal only at the same generation).
#[derive(Debug, Clone, Copy, PartialEq, Eq, Structural)]
pub struct TextBufferState {
    pub has_text: bool,
    pub generation: u64,
}

impl TextBufferState {
    /// The state of a new buffer holding `text`; its text is shaped when it
    /// has any.
    pub fn new(text: &str) -> (r: TextBufferState)
        ensures
            r == (TextBufferState { has_text: text@.len() != 0, generation: 0 }),
    {
        TextBufferState { has_text: !text.is_empty(), generation: 0 }
    }

    /// The text (and maybe the properties) were set to `text`: the buffer has
    /// text when `text` is not empty, and is shaped then; the generation
    /// advances. Returns whether to shape.
    pub fn set_text(&mut self, text: &str) -> (shape: bool)
        requires
            old(self).generation < u64::MAX,
        ensures
            final(self).has_text == (text@.len() != 0),
            final(self).generation == old(self).generation + 1,
            shape == final(self).has_text,
    {
        self.has_text = !text.is_empty();
        self.generation = self.generation + 1;
        self.has_text
    }

    /// The bounds were set: when they changed, the text is shaped again (if
    /// there is any) and the generation advances; otherwise nothing happens.
    /// Returns whether to shape.
    pub fn set_bounds(&mut self, bounds_changed: bool) -> (shape: bool)
        requires
            old(self).generation < u64::MAX,
        ensures
            !bounds_changed ==> *final(self) == *old(self) && !shape,
            bounds_changed ==> final(self).has_text == old(self).has_text && final(self).generation
                == old(self).generation + 1 && shape == old(self).has_text,
    {
        if !bounds_changed {
            return false;
        }
        self.generation = self.generation + 1;
        self.has_text
    }

    /// An editor was borrowed and reported `status`: when its text changed,
    /// the buffer has text as reported, is shaped again if so, and the
    /// generation advances. A buffer without an editor is left alone.
    /// Returns whether to shape.
    pub fn with_editor_status(&mut self, is_editor: bool, status: EditorBorrowStatus) -> (shape:
        bool)
        requires
            old(self).generation < u64::MAX,
        ensures
            !(is_editor && status.text_changed) ==> *final(self) == *old(self) && !shape,
            is_editor && status.text_changed ==> final(self).has_text == status.has_text
                && final(self).generation == old(self).generation + 1 && shape == status.has_text,
    {
        if !is_editor || !status.text_changed {
            return false;
        }
        self.has_text = status.has_text;
        self.generation = self.generation + 1;
        self.has_text
    }

    /// The state was brought in line with the editor's: the generation
    /// advances.
    pub fn sync_state_from_editor(&mut self)
        requires
            old(self).generation < u64::MAX,
        ensures
            final(self).has_text == old(self).has_text,
            final(self).generation == old(self).generation + 1,
    {
        self.generation = self.generation + 1;
    }
}

} // verus!
