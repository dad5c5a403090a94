//! Shared runtime of the hosted operators: configuration, request
//! authentication, file-input handling, delimiter parsing and report
//! relabelling, each with a verified contract.
pub mod config;
pub mod delimiter;
pub mod error;
pub mod input;
pub mod numeric;
pub mod report;
pub mod text;
pub mod tool;

pub use config::{
    authenticate, cors_layer, cors_origins, parse_allowed_origins, CorsOrigins, CorsPolicy,
    HostConfig, HostEnv,
    DEFAULT_KOVREX_FILE_API,
};
pub use delimiter::parse_delimiter;
pub use error::HostError;
pub use input::{ByteSource, FileInput};
pub use report::rewrite_report_file_labels;
pub use tool::ToolRun;
