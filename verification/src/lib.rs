//! Hardware watchpoints over HTTP.
pub mod breakpoints;
pub mod cache;
pub mod expression;
pub mod hit;
pub mod maps;
pub mod number;
pub mod perf;
pub mod processes;
pub mod server;
pub mod text;
pub mod watch;
