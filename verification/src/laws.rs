//! What the operations are for, said of the texts that go in and come out.
//!
//! The laws here speak of characters, lines and maps, so that a reader can hold
//! the definitions that the functions are proved against up to them.

pub mod digits;
pub mod document;
pub mod files;
pub mod json;
pub mod lens;
pub mod output;
pub mod places;
pub mod session;
pub mod store;
pub mod text;
pub mod vars;
pub mod views;
