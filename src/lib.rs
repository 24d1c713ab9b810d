//! The core of a reverse proxy for Prometheus-style metrics.
//!
//! - [`exposition`] and [`render`]: the data model of a scrape and the
//!   exposition writer, proved against a specification of the text it emits.
//! - [`filter`] and [`sample_cache`]: the label-filter engine, which keeps,
//!   drops or downsamples each sample, and the per-series cache behind
//!   time-resolution reduction.
//! - [`proxy`] and [`client`]: which headers are relayed, and how a backend's
//!   answer becomes the response to the client.
//! - [`cache`]: the response coalescer and the key requests are coalesced by.
//! - [`config`], [`pattern`] and [`tls`]: the configuration model, its
//!   validation, and the grouping of proxies into one server per address.
//! - [`text`]: string order, comparison, sorting and concatenation.
//! - [`assoc`]: lists of key-value pairs read as maps, as both caches store them.
//! - [`tokiotimer`]: timers on the tokio runtime.

pub mod text;
pub mod assoc;
pub mod exposition;
pub mod render;
pub mod sample_cache;
pub mod pattern;
pub mod config;
pub mod tls;
pub mod filter;
pub mod client;
pub mod proxy;
pub mod cache;
pub mod tokiotimer;
