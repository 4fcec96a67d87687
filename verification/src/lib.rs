//! A viewer for a collection of text pages: scoring of pages against a
//! search phrase, filtering and ranking, and the state of an interactive
//! session with selection, scrolling and display toggles.
pub mod combos;
pub mod filter;
pub mod input;
pub mod page;
pub mod rank;
pub mod score;
pub mod session;
pub mod text;

pub use input::{Event, Key, KeyCode, Step};
pub use page::Page;
pub use session::App;
