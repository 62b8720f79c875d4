//! Tunables of the server.

use vstd::prelude::*;

verus! {

/// Default listening port.
pub const DEFAULT_PORT: u16 = 6379;

/// Maximum number of connections the server will accept at once.
pub const MAX_CONNECTIONS: usize = 250;

} // verus!
