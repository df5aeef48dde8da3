//! Pixel transforms in the LAB colour space over raw RGBA buffers.
//!
//! Three transforms are offered, each from a buffer to a new buffer of the
//! same size: [`invert_lightness_lab`] reflects the lightness of every
//! pixel, [`equalize_lightness_lab`] gives every pixel the mean lightness of
//! the image, and [`laberation`] displaces the three LAB channels against
//! each other.
//!
//! The library holds everything about the transforms that is exact: the
//! layout of the pixel buffer, the order in which pixels are visited, which
//! channel of which pixel feeds which output, the clamping of sample
//! coordinates, the handling of alpha, and what is refused. The colour
//! arithmetic is supplied by the caller as functions over a scalar type of
//! the caller's choice:
//!
//! - `to_lab` converts a stored colour to LAB;
//! - `to_rgb` converts a LAB colour back to a stored colour, bringing what
//!   cannot be displayed into range;
//! - `reflect` mirrors a lightness around the middle of its range;
//! - `zero`, `accumulate` and `divide` sum lightness and take the mean.
//!
//! Every contract is stated over what these functions give, and so holds for
//! whatever arithmetic is plugged in. Each of them has to accept every
//! argument.

pub mod buffer;
pub mod color;
pub mod equalize;
pub mod error;
pub mod invert;
pub mod laberation;
pub mod planes;
pub mod sampling;

pub use buffer::{check_dimensions, count_pixels};
pub use color::{Lab, Rgb};
pub use equalize::{apply_lightness, equalize_lightness_lab, mean_lightness, relight_color};
pub use error::TransformError;
pub use invert::{invert_color, invert_lightness_lab};
pub use laberation::laberation;
pub use planes::ChannelPlanes;
