//! A list of byte chunks that reads as one contiguous buffer, and a cursor over it.

pub mod buf_list;
pub mod chunk;
pub mod etna;
pub mod inputs;
pub mod report;
pub mod std_cursor;

pub use buf_list::{BufList, Cursor, ErrorKind};
