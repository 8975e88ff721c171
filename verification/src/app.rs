//! What the interactive session is made of: its modes, the actions that a
//! hotkey can be bound to, the text of the search box, and the reading of
//! keystrokes as sequences.

pub mod modes;
pub mod search_input;
pub mod selection;
pub mod session;
pub mod sequence_input;

pub use modes::{Action, InputMode, ListMode};
pub use search_input::SearchInput;
pub use session::{render_entries, App, Effect};
pub use sequence_input::{KeyOutcome, Resolution, SequenceInputController};
