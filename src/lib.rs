//! Extraction of a delimited front-matter block from the head of a text document.
//!
//! The [`matter`] module holds the line scanner that separates the metadata block, the optional
//! excerpt and the remaining content; [`pod`] holds the dynamic value that a format engine turns
//! the metadata block into; [`bridge`] decides how such a value answers each request of a typed
//! deserializer; [`text`] holds the character-level helpers of the scanner.

pub mod bridge;
pub mod engine;
pub mod entity;
pub mod error;
pub mod matter;
pub mod pod;
pub mod text;

pub use engine::Engine;
pub use entity::ParsedEntity;
pub use error::Error;
pub use matter::Matter;
pub use pod::Pod;
