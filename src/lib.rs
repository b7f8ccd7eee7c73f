//! Turns the parse events of a note-export document into the directories and
//! files that hold each note's decoded resources.
//!
//! The reducer is a pure function from state and event to the next state and
//! one effect; whoever drives it performs the effects in order.

pub mod codec;
pub mod laws;
pub mod reducer;
pub mod state;

pub use codec::append_stripped;
pub use reducer::{
    brackets_fit, close_tag, LONGEST_DOCUMENT, dump_resource, export, export_document, on_characters, open_tag, reduce, Action,
    Event, ExportError,
};
pub use state::{CurrentTag, State};
