//! A text-editing core: a UTF-8 text buffer, grapheme, word and line
//! navigation over it, a tab-aware mapping between byte offsets and visual
//! columns, a cursor with selection, and an editor that keeps the two
//! consistent.

pub mod bounding_box;
pub mod buffer;
pub mod coordinates;
pub mod cursor;
pub mod editor;
pub mod input;
pub mod navigation;
pub mod selection;
pub mod tabs;
pub mod text;
pub mod value;
pub mod words;
