//! Textures: the rules for replacing the image of a texture and for when its
//! data must go to the GPU.
use vstd::prelude::*;

verus! {

/// A size in physical pixels.
#[derive(Debug, Clone, Copy, PartialEq, Eq, Structural, Hash)]
pub struct SizeU32 {
    pub width: u32,
    pub height: u32,
}

/// Why the image of a texture could not be replaced.
#[derive(Debug, Clone, Copy, PartialEq, Eq, Structural)]
pub enum TextureReplaceError {
    DifferentSize,
    DifferentSourceType,
}

/// Where the pixels of a texture come from.
#[derive(Debug, Clone, Copy, PartialEq, Eq, Structural)]
pub enum TextureSourceKind {
    /// Image data that is uploaded to the GPU.
    Image,
    /// A texture that an earlier render pass draws into.
    Prepass,
}

/// The size of a texture, where its pixels come from, and its generation,
/// which counts its replacements (two handles of one texture are equal only
/// at the same generation).
#[derive(Debug, Clone, Copy, PartialEq, Eq, Structural)]
pub struct TextureState {
    pub size: SizeU32,
    pub source: TextureSourceKind,
    pub generation: u64,
}

impl TextureState {
    /// A texture made from image data of the given size.
    pub fn new(size: SizeU32) -> (r: TextureState)
        ensures
            r == (TextureState { size, source: TextureSourceKind::Image, generation: 0 }),
    {
        TextureState { size, source: TextureSourceKind::Image, generation: 0 }
    }

    /// A texture drawn into by an earlier render pass.
    pub fn from_prepass_texture(size: SizeU32) -> (r: TextureState)
        ensures
            r == (TextureState { size, source: TextureSourceKind::Prepass, generation: 0 }),
    {
        TextureState { size, source: TextureSourceKind::Prepass, generation: 0 }
    }

    /// Whether image data of `size` may replace this texture's, and why not.
    pub open spec fn spec_replace(self, size: SizeU32, source: TextureSourceKind) -> Result<
        (),
        TextureReplaceError,
    > {
        if size != self.size {
            Err(TextureReplaceError::DifferentSize)
        } else if self.source != source {
            Err(TextureReplaceError::DifferentSourceType)
        } else {
            Ok(())
        }
    }

    fn replace(&mut self, size: SizeU32, source: TextureSourceKind) -> (r: Result<
        (),
        TextureReplaceError,
    >)
        requires
            old(self).generation < u64::MAX,
        ensures
            r == old(self).spec_replace(size, source),
            r is Ok ==> *final(self) == (TextureState {
                generation: (old(self).generation + 1) as u64,
                ..*old(self)
            }),
            r is Err ==> *final(self) == *old(self),
    {
        if size != self.size {
            return Err(TextureReplaceError::DifferentSize);
        }
        if self.source != source {
            return Err(TextureReplaceError::DifferentSourceType);
        }
        self.generation = self.generation + 1;
        Ok(())
    }

    /// Replaces the image data with data of the same size: refused when the
    /// size differs or the texture is not made from image data; otherwise
    /// the generation advances.
    pub fn replace_with_image(&mut self, size: SizeU32) -> (r: Result<(), TextureReplaceError>)
        requires
            old(self).generation < u64::MAX,
        ensures
            r == old(self).spec_replace(size, TextureSourceKind::Image),
            r is Ok ==> *final(self) == (TextureState {
                generation: (old(self).generation + 1) as u64,
                ..*old(self)
            }),
            r is Err ==> *final(self) == *old(self),
    {
        self.replace(size, TextureSourceKind::Image)
    }

    /// Replaces the prepass texture with one of the same size: refused when
    /// the size differs or the texture is not a prepass texture; otherwise
    /// the generation advances.
    pub fn replace_prepass_texture(&mut self, size: SizeU32) -> (r: Result<(), TextureReplaceError>)
        requires
            old(self).generation < u64::MAX,
        ensures
            r == old(self).spec_replace(size, TextureSourceKind::Prepass),
            r is Ok ==> *final(self) == (TextureState {
                generation: (old(self).generation + 1) as u64,
                ..*old(self)
            }),
            r is Err ==> *final(self) == *old(self),
    {
        self.replace(size, TextureSourceKind::Prepass)
    }

    /// Marks the prepass texture as redrawn: the generation advances.
    pub fn mark_prepass_texture_dirty(&mut self)
        requires
            old(self).generation < u64::MAX,
        ensures
            *final(self) == (TextureState {
                generation: (old(self).generation + 1) as u64,
                ..*old(self)
            }),
    {
        self.generation = self.generation + 1;
    }

    pub fn size(&self) -> (r: SizeU32)
        ensures
            r == self.size,
    {
        self.size
    }
}

/// What uploading a texture to the GPU must do.
#[derive(Debug, Clone, Copy, PartialEq, Eq, Structural)]
pub enum UploadAction {
    /// Nothing: no new data, or the bind group of the prepass texture is there.
    Nothing,
    /// Make the GPU texture and its bind group, then write the data.
    CreateAndWrite,
    /// Write the data into the GPU texture that is there.
    Write,
    /// Make the bind group of the prepass texture.
    CreateBindGroup,
}

/// The upload of a texture: image data waiting to be uploaded is written,
/// into a new GPU texture when the texture has no bind group yet; a prepass
/// texture only needs a bind group when it has none.
pub fn upload_action(source: TextureSourceKind, has_data_to_upload: bool, has_bind_group: bool) -> (r:
    UploadAction)
    ensures
        r == match source {
            TextureSourceKind::Image => if !has_data_to_upload {
                UploadAction::Nothing
            } else if !has_bind_group {
                UploadAction::CreateAndWrite
            } else {
                UploadAction::Write
            },
            TextureSourceKind::Prepass => if has_bind_group {
                UploadAction::Nothing
            } else {
                UploadAction::CreateBindGroup
            },
        },
{
    match source {
        TextureSourceKind::Image => {
            if !has_data_to_upload {
                UploadAction::Nothing
            } else if !has_bind_group {
                UploadAction::CreateAndWrite
            } else {
                UploadAction::Write
            }
        },
        TextureSourceKind::Prepass => {
            if has_bind_group {
                UploadAction::Nothing
            } else {
                UploadAction::CreateBindGroup
            }
        },
    }
}

} // verus!
