use vstd::prelude::*;

verus! {

/// Why a label could not be produced.
#[derive(Debug)]
pub enum LabelError {
    /// Neither side of the picture is exactly 64 pixels long; holds (width, height).
    Dimensions { width: u32, height: u32 },
    /// The picture has an alpha channel.
    Transparency,
    /// The image library could not decode or encode a picture; holds its message.
    Image { message: String },
    /// The text could not be rendered into a picture.
    RenderFailed,
    /// The list of fonts could not be queried.
    FontQueryFailed,
    /// The tool's output was not valid UTF-8; holds the decoder's message.
    NotUtf8 { message: String },
}

} // verus!
