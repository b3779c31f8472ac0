//! The core of a small static file server, without its sockets and files:
//! it reads a request line, finds the file that the request names below the
//! served root, and frames the bytes of the answer.

pub mod bytes;
pub mod config;
pub mod content_type;
pub mod decimal;
pub mod path;
pub mod request;
pub mod response;
pub mod server;
pub mod static_files;
pub mod tls;
