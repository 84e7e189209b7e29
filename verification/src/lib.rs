//! Locates source-code regions that a developer has flagged with a structured
//! comment marker (a control annotation), records what code immediately
//! follows each marker in a durable snapshot, and compares two snapshots to
//! report which annotated regions were added or removed.

pub mod annotation;
pub mod code;
pub mod codec;
pub mod differ;
pub mod extract;
pub mod fs;
pub mod parser;
pub mod syntax;
