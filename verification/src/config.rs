//! Client configuration: server location and the files to move.

use vstd::prelude::*;

verus! {

/// Settings for one client run: which file to upload, where the server
/// listens, where the downloaded copy goes, and how much to log.
pub struct Config {
    /// Input audio file path.
    pub input: String,
    /// WebSocket server URI.
    pub server: String,
    /// Output file path.
    pub output: String,
    /// Enable verbose logging.
    pub verbose: bool,
}

} // verus!
