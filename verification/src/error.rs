//! Errors the library reports.
use vstd::prelude::*;

verus! {

/// Errors of configuration checking, test discovery, execution and filter
/// compilation.
#[derive(Debug)]
pub enum NinetyNineError {
    ConfigNotFound { path: String },
    NoRunnerAvailable,
    RunnerExecution { message: String },
    InvalidConfig { message: String },
    BinaryDiscovery { message: String },
    TestListing { binary: String, message: String },
    TestNotFound { name: String },
    FilterParse { message: String },
    PostgresPool { message: String },
}

} // verus!
