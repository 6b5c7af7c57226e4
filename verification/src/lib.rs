//! An in-memory library catalog: title aggregates that own physical
//! copies, readers that borrow them, a genre registry, snapshot-based
//! undo, and a textual persistence format for the reader registry.

pub mod book;
pub mod book_sys;
pub mod caretaker;
pub mod error;
pub mod genres;
pub mod persist;
pub mod reader;
pub mod system;
pub mod text;
pub mod the_book;
