//! Transparent password-wall reverse proxy: the decisions behind it.
//!
//! `Config` is the validated startup configuration, and `gate` decides over each
//! request: forward it to the upstream, read its login form, or answer it.

pub mod address;
pub mod config;
pub mod cookies;
pub mod digest;
pub mod encoding;
pub mod environment;
pub mod error;
pub mod forwarding;
pub mod gate;
pub mod headers;
pub mod laws;
pub mod page;
pub mod request_promises;
pub mod setup_laws;
pub mod setup_promises;
pub mod template;
pub mod text;
pub mod text_promises;
pub mod upstream;

pub use config::Config;
pub use error::ConfigError;
