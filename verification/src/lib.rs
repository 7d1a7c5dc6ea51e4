pub mod buffer;
pub mod chars;
pub mod cursor;
pub mod edits;
pub mod graphemes;
pub mod model;
pub mod multi_cursor;
pub mod rope;
pub mod vim;
pub mod words;

pub use buffer::Buffer;
pub use cursor::{Cursor, TextPosition};
pub use multi_cursor::MultiCursor;

use vstd::prelude::*;

verus! {

/// The editing mode the surrounding editor is in. It decides how far right a
/// cursor may sit on a line and whether motions extend a selection.
#[derive(Debug, Clone, PartialEq, Eq, Hash, Structural)]
pub enum EditorMode {
    Normal,
    Insert,
    Visual,
}

} // verus!
