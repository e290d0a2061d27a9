//! Exporter core for smart-plug and power-strip telemetry.
//!
//! The library normalizes two device shapes (a single plug and a multi-outlet
//! power strip) into one data model, folds fresh device readings into a
//! label-keyed gauge registry, and serializes the registry as OpenMetrics
//! text. Device I/O and the HTTP server live outside the library and hand it
//! plain values.

use vstd::prelude::*;

pub mod device;
pub mod encoding;
pub mod laws;
pub mod metrics;
pub mod server;

verus! {

} // verus!
