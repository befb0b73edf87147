//! Metadata from structured comments.
//!
//! The documentation of a definition is free text with sections under
//! headings; [`func`] turns it into a description of the definition: its
//! tags, its parameters, an example, a note on its syntax, and the prose that
//! is left. The comments of a test source hold directives; [`metadata`] turns
//! them into the configuration of the test and the diagnostics that it
//! expects, each with the bytes of the source that it is about.
//!
//! Both read plain text by hand-written grammars, which [`text`] states over
//! sequences of characters. The other modules hold what the described
//! definitions work on: values, arguments and content, a few nodes of text,
//! and the locations of a document's elements.

pub mod error;
pub mod flags;
pub mod foundations;
pub mod func;
pub mod location;
pub mod metadata;
pub mod model;
pub mod nodes;
pub mod params;
pub mod position;
pub mod section;
pub mod text;
