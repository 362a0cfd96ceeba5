//! Palette-constrained recolouring of RGBA images.
//!
//! Every pixel of an image is replaced by the colour of a palette that lies
//! nearest to it in RGB space; a median filter may then smooth the result.
//!
//! - [`color`]: colours and the rounded Euclidean distance between them.
//! - [`image`]: images of four 8-bit channels and their model.
//! - [`recolour`]: the search for the nearest colour, pixel by pixel.
//! - [`denoise`]: the median filter, which `imageproc` computes.
//! - [`hex`]: colours written as six hexadecimal digits.
//! - [`schemes`]: the catalogue of named palettes, read from YAML by
//!   `serde_yml`.
//! - [`selection`]: choosing a scheme by its number in the list.
//! - [`naming`]: the names of the files that are written.
//! - [`text`]: the order in which names are listed.
//!
//! All executable code is verified against the contracts that the functions
//! state, but for the calls into `imageproc` and `serde_yml`: each stands in
//! a function of its own, whose contract is taken on trust and says in its
//! documentation what it claims of the outside function.

pub mod color;
pub mod denoise;
pub mod error;
pub mod hex;
pub mod image;
pub mod naming;
pub mod recolour;
pub mod schemes;
pub mod selection;
pub mod text;

pub use color::{color_distance, Color, MAX_DISTANCE};
pub use denoise::{can_denoise, denoise_image};
pub use error::RecolourError;
pub use hex::parse_hex_color;
pub use image::{Image, Pixel};
pub use naming::output_path;
pub use recolour::{nearest_color, recolour_image, recolour_pixel};
pub use schemes::{parse_palette, ColorSchemes};
pub use selection::{parse_selection, select_scheme};
