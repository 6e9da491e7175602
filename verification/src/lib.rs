//! Renders dictionary entry records — headword, part-of-speech,
//! pronunciations, senses with glosses and examples — into a line-oriented,
//! tab-indented markup dialect for offline dictionary readers.
//!
//! The rendering rules live in [`markup`] and [`render`], the record model
//! in [`entry`], and the proved properties of the output in [`laws`].

pub mod entry;
pub mod laws;
pub mod markup;
pub mod render;
pub mod text;
