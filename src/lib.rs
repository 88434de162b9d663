//! Line and character diffs: tokenizing, alignment, change streams,
//! hunk selection and rendering, with their contracts proved by Verus.
use vstd::prelude::*;

pub mod script;
pub mod align;
pub mod tokenize;
pub mod render;
pub mod diff;
pub mod laws;
pub mod hash;

pub use diff::{diff_chars_unified, diff_lines_simple, diff_lines_structured, diff_lines_unified};
pub use hash::{CreateSha256, HashError};
pub use render::DiffChange;

verus! {

} // verus!
