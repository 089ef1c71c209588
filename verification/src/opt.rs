use vstd::prelude::*;

verus! {

/// Where the picture for a label comes from.
pub enum Source {
    /// A picture file, by its path.
    Image { image: String },
    /// A text, rendered in a font.
    Text { text: String, font: String },
}

} // verus!
