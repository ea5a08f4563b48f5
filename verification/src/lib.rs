//! A todo list whose rows are drawn by persistent widgets.
//!
//! The list keeps one widget handle per row in a keyed cache. Every draw pass
//! walks the rows in order, reuses the handle of a row that had one, asks a
//! factory for a handle where the row is new, and afterwards drops the handles
//! of rows that are gone. Events are handed to every live handle, and each
//! action that comes back is passed on under the identity of its widget.
//!
//! The widget toolkit stays outside: handles, the drawing context, events and
//! actions are type parameters, and the toolkit's work is done by closures
//! through which the context is threaded. What a pass does is stated over the
//! closures' own contracts, step by step: see `draw` and `event`. What holds of
//! passes that follow one another is proved in `laws`.
//!
//! `prompt` holds the application's side: the rows that were entered.

pub mod action;
pub mod cache;
pub mod draw;
pub mod event;
pub mod key;
pub mod laws;
pub mod list;
pub mod prompt;

pub use action::{WidgetActionItem, WidgetUid};
pub use cache::WidgetCache;
pub use draw::MissingTemplate;
pub use key::CheckBoxId;
pub use list::TodoList;
pub use prompt::{App, TextInputAction};
