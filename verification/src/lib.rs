//! A small web server's logic, verified: the file cache with its size limit and
//! least-recently-used eviction, the queue that schedules large static files, the reading
//! and routing of requests, and the pages the server answers with.

pub mod cache;
pub mod paths;
pub mod platform;
pub mod request;
pub mod schedule;
pub mod server;
pub mod text;
