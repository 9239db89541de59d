//! The editing core of a modal text editor.
//!
//! A [`document::Document`] owns a rope of text, a cursor, a mode with its
//! selection, and a viewport. It moves the cursor by bytes, lines and words,
//! types and deletes, and describes each change of the text as an
//! [`edit::EditDescriptor`], of which it tells its syntax tree. For a
//! renderer it composes a [`render::Frame`] of the visible text.
//!
//! - [`text`] is the mathematical model of a text: bytes, characters, lines.
//! - [`words`] defines the word boundaries of a text.
//! - [`model`] states every operation of the editor over that model, and
//!   [`laws`] proves what holds of them.
//! - [`rope`] and [`syntax`] hold what is taken on trust from the rope and
//!   from the incremental parser.
pub mod document;
pub mod edit;
pub mod laws;
pub mod mode;
pub mod model;
pub mod render;
pub mod rope;
pub mod syntax;
pub mod text;
pub mod words;
