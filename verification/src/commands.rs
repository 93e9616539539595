//! The operations of the tool: diff, download, sync, scan and launch.

pub mod diff;
pub mod download;
pub mod gen_srf;
pub mod launch;
pub mod scan;
pub mod sync;
pub mod types;
