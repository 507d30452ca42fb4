//! A pluggable SFTP server core: path normalisation, the storage model,
//! the per-session handle registry and the request handler's state machine,
//! all verified with Verus.

pub mod auth;
pub mod backend;
pub mod handle;
pub mod listing;
pub mod local;
pub mod memory;
pub mod s3;
pub mod sftp_handler;
pub mod text;

pub use backend::{normalize_path, BackendError, BackendResult, DirEntry, FileInfo};
pub use handle::{HandleManager, HandleType};
pub use local::LocalBackend;
pub use memory::MemoryBackend;
pub use s3::S3Config;
pub use sftp_handler::{SftpHandler, StatusCode};
