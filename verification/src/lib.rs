//! Verified core of a self-hosted file-sharing service: path handling,
//! file-name sanitisation, upload bookkeeping, login throttling and the
//! browser client's state machine.

pub mod chunk_flow;
pub mod client;
pub mod containment;
pub mod file_flows;
pub mod file_ops;
pub mod files;
pub mod init_flow;
pub mod lemmas;
pub mod paths;
pub mod sanitize;
pub mod security;
pub mod server;
pub mod session_id;
pub mod size_format;
pub mod str_map;
pub mod text;
pub mod transfer;
pub mod upload;
