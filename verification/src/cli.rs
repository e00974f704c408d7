//! Command-line settings of the server.

use vstd::prelude::*;

verus! {

/// Blackjack TVC enclave HTTP server settings.
pub struct Cli {
    /// IP address to listen on
    pub host: String,
    /// Port to listen on
    pub port: u16,
}

} // verus!
