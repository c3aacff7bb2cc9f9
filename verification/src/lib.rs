//! Turns a language server's `metals/publishDecorations` notification into the
//! editor command that shows the decorations of one buffer as inline hints.
//!
//! The pipeline is: look the buffer's document up, turn every decoration that
//! carries an "after" attachment into a hint anchored at the end of its range,
//! translate each anchor into buffer coordinates, encode the resulting ranges
//! as one quoted argument list, and wrap it with the document version into a
//! buffer-scoped `set-option` command.
pub mod decimal;
pub mod language_features;
pub mod position;
pub mod strings;
pub mod context;
pub mod types;
pub mod util;
