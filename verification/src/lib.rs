//! A reversible-action engine: actions applied to a store are recorded in an
//! ordered history with a past/future cursor, and can be undone and redone.
#![allow(unused_imports)]

mod action;
mod entry;
mod history;
pub mod laws;
mod session;

pub use action::Action;
pub use action::undo_inverts;
pub use entry::HistoryItem;
pub use history::EntryId;
pub use history::History;
pub use history::HistoryView;
pub use session::PerformAction;
pub use session::Redo;
pub use session::Session;
pub use session::SessionView;
pub use session::Undo;
pub use session::clear_slots;
