pub mod blossom;
pub mod cache;
pub mod config;
pub mod error;
pub mod fetch;
pub mod imgops;
pub mod metrics;
pub mod server;
pub mod thumbnail;
pub mod strutil;
pub mod transform;
