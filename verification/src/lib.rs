//! Path data for vector drawing: a parser for SVG-style path strings and a
//! circle built from four cubic curves, both in exact fixed-point arithmetic.
//!
//! Coordinates are whole numbers of millionths of a unit (`SCALE` steps to
//! the unit), so nothing is rounded on the way from the text to the path but
//! what the text has more than six decimal places of. A path is a list of
//! `PathOp`, ready to be replayed on any path builder.
//!
//! Path data goes through four stages, each a function of its own:
//! `split_path` cuts the text into tokens, `group::group_tokens` gathers the
//! tokens into groups of a letter and its numbers, `command::resolve_all`
//! makes commands of the groups, and `draw::interpret` carries the commands
//! out. `create_path_from_string` does all four.
pub mod circle;
pub mod command;
pub mod draw;
pub mod error;
pub mod group;
pub mod number;
pub mod parse;
pub mod path;
pub mod spacing;
pub mod token;

pub use circle::{build_circle, CircleError};
pub use error::ParseError;
pub use parse::create_path_from_string;
pub use path::{PathOp, Point, SCALE};
pub use token::split_path;
