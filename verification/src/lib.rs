//! Decision logic of the SmartZip archive extractor: what to extract, where the
//! output goes, which password is tried next, and what is written down about it.

pub mod access;
pub mod backend_util;
pub mod budget;
pub mod container;
pub mod coordinator;
pub mod db;
pub mod detect;
pub mod embedded;
pub mod embedded_archive_detection;
pub mod embedded_zip;
pub mod encoding;
pub mod encoding_detection;
pub mod encoding_flow;
pub mod events;
pub mod execution;
pub mod execution_runtime;
pub mod file_extractions;
pub mod history;
pub mod interactive;
pub mod known_files;
pub mod layout;
pub mod order;
pub mod outcome;
pub mod owner;
pub mod password;
pub mod path;
pub mod path_hash;
pub mod recovery;
pub mod resources;
pub mod sample_hash;
pub mod schema;
pub mod submission;
pub mod task;
pub mod task_event;
pub mod task_execution;
pub mod text;
pub mod timestamp;
pub mod transition;
pub mod types;
pub mod workflow;
