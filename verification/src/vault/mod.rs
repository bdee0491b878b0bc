//! The vault layer: reading and mechanically rewriting Markdown notes.
pub mod frontmatter;
pub mod id;
pub mod links;
pub mod note;
pub mod reader;
pub mod tasks;
pub mod time;
pub mod writer;
