//! A multi-line text-editing engine: cursor and selection handling driven by
//! keyboard and mouse, vertical navigation over an uncached layout, and a
//! bounded undo/redo log kept in two fixed-size buffers.
#![allow(non_snake_case)]
#![allow(non_camel_case_types)]

pub mod text;
pub mod undo;
pub mod editor;
pub mod edit;
pub mod layout;
pub mod keys;
