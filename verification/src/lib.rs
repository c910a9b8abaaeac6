//! A scrollable list of log lines for a character-cell display.
//!
//! The crate wraps each entry to the width of its viewport, marks the
//! occurrences of a search text, and keeps the selected entry inside the
//! window of entries that is drawn.

pub mod canvas;
pub mod compose;
pub mod highlight;
pub mod item;
pub mod keys;
pub mod list;
pub mod model;
pub mod state;
pub mod style;
pub mod window;
pub mod wrap;

pub use canvas::Area;
pub use item::LogListItem;
pub use keys::Key;
pub use keys::KeyPress;
pub use list::LogList;
pub use model::LogListModel;
pub use state::LogListState;
pub use state::StateView;
pub use style::CellStyle;
