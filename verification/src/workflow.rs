//! The recursive extraction of one task, as decisions between the steps that
//! read archives and write files.

pub mod attempt;
pub mod candidate;
pub mod dedup;
pub mod discovery;
pub mod node;
pub mod notice;
pub mod reason;
pub mod record;
pub mod run;
pub mod volume_key;
