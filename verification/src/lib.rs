//! Verified core of a local remote-desktop-control host.
pub mod audit;
pub mod backends;
pub mod capabilities;
pub mod cli;
pub mod error;
pub mod imaging;
pub mod json;
pub mod ratelimit;
pub mod server;
pub mod text;
pub mod token;
