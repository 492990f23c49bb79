//! Decision core of a caching reverse proxy for raw files on git hosting
//! services: path classification, a bounded response cache, a fixed-window
//! rate limiter and the per-request pipeline that ties them together.
pub mod cache;
mod clock;
pub mod config;
pub mod error;
pub mod pipeline;
pub mod rate_limit;
pub mod route;
pub mod text;
