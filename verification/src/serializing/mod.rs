//! Loading levels made with the LDtk editor.
pub mod ldtk;
