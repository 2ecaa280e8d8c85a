pub mod assets;
pub mod cache;
pub mod download;
pub mod error;
pub mod http_cache;
pub mod java;
pub mod logs;
pub mod platform;
pub mod retry;
pub mod settings;
pub mod hashing;
pub mod strutil;
pub mod utils;
pub mod version;

pub use error::Error;
