//! What the bridge does with the notifications of particular language
//! features.
pub mod inlay_hints;
pub mod metals;
