//! A small reverse-proxy / API-gateway core: a routing table mapping
//! `(path, method)` pairs to sets of upstream servers, load-balancing
//! strategies, debounced health polling, per-request statistics, and the
//! command/event vocabulary that ties the subsystems together.

pub mod api;
pub mod context;
pub mod events;
pub mod handlers;
pub mod matching;
pub mod poller;
pub mod probes;
pub mod route;
pub mod serial;
pub mod settings;
pub mod stats;
pub mod strutil;
pub mod upstream;
