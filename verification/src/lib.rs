//! Core of a single-flight interactive selection service: wire protocol,
//! subscription filtering, choice ordering, and the session state machines.

use vstd::prelude::*;

pub mod choices;
pub mod codec;
pub mod fuzzy;
pub mod picker;
pub mod session;
pub mod types;

verus! {

/// Highest protocol version this server understands.
pub const PROTOCOL_VERSION: u8 = 0;

/// A registration whose version is at most `PROTOCOL_VERSION` is accepted.
pub fn version_supported(protocol_version: u8) -> (r: bool)
    ensures
        r == (protocol_version <= PROTOCOL_VERSION),
{
    protocol_version <= PROTOCOL_VERSION
}

} // verus!
