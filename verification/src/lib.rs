//! Building blocks for printing on a Dymo label printer: the printer's
//! command stream, the conversion of pictures into printable bit rows, and
//! the helpers around the ImageMagick tool that renders text labels.

pub mod color_map;
pub mod command_accumulator;
pub mod error;
pub mod fonts;
pub mod imagemagick;
pub mod opt;
pub mod picture;
