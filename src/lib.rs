//! An incremental build cache for shader sources: finds the sources of the
//! requested kinds below a root, compiles only those whose modification time
//! changed since they were last compiled, writes the outputs to a mirrored
//! tree, and keeps a record of what was compiled.

pub mod error;
pub mod kind;
pub mod record;
pub mod discover;
pub mod output;
pub mod pipeline;
pub mod finish;
pub mod laws;

pub use error::Error;
pub use kind::ShaderKind;
pub use pipeline::Instructions;
pub use record::{Record, Timestamp};
