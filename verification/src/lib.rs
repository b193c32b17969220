//! Container format, table-name resolution, sink planning and code-generation
//! planning for the flatbuffer table tooling.

pub mod text;
pub mod pack_error;
pub mod format;
pub mod pack;
pub mod flat_error;
pub mod dump;
pub mod sink;
pub mod order;
pub mod dispatch;
pub mod builder;
pub mod generated;
