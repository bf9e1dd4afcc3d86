//! A local development server core: it routes HTTP requests to WebAssembly
//! worker modules discovered on disk, caches compiled modules, gates host
//! capabilities, and translates execution outcomes into HTTP responses.
//!
//! The crate holds the routing-and-dispatch pipeline itself; the surrounding
//! process (argument parsing, the HTTP listener, configuration files, the
//! WebAssembly engine) stays outside and hands the pipeline plain values.

pub mod text;
pub mod config;
pub mod routes;
pub mod capabilities;
pub mod store;
pub mod bridge;
pub mod engine;
pub mod dispatcher;
pub mod server;
