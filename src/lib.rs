//! Storage virtualization for an interactive language runtime: drives addressed
//! through a `NAME:/entry` namespace, an in-memory drive, reader ACLs, and the
//! decisions behind the `LOGIN` and `SHARE` commands.

pub mod acls;
pub mod cmds;
pub mod drive;
pub mod laws;
pub mod mem;
pub mod order;
pub mod storage;
mod text;
