//! A process-local catalog of priceable services.
//!
//! The catalog is filled one completed service at a time by a refresh
//! pipeline, read concurrently by request handlers, and fronted by a loader
//! that coalesces simultaneous lookups of the same service code.

pub mod credentials;
pub mod loader;
pub mod params;
pub mod pricing;
pub mod refresh;
pub mod run;
pub mod state;
pub mod types;
