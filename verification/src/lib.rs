//! Utilities that connectors share: reading timestamps, flattening message content to text,
//! extracting tool and skill invocations, and deciding which files to read again.
pub mod content;
pub mod double;
pub mod files;
pub mod invocations;
pub mod json;
mod text;
pub mod timestamp;
pub mod types;

pub use crate::content::flatten_content;
pub use crate::files::file_modified_since;
pub use crate::invocations::extract_invocations_from_content_blocks;
pub use crate::invocations::unwrap_skill_invocations;
pub use crate::timestamp::parse_timestamp;
