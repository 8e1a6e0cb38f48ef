//! Verified core of a small family of network services: a clock-of-day
//! formatter, an HTTP request reader and router for a restaurant API, a
//! leaky-bucket rate limiter, a post store, and a chat session machine.
//! The I/O around them (sockets, tasks, channels) lives in `app/`.

pub mod text;
pub mod clock;
pub mod http;
pub mod restaurant;
pub mod leaky_bucket;
pub mod posts;
pub mod board;
pub mod chat;
