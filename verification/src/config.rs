//! The daemon's startup configuration: loaded once, immutable afterwards.

use vstd::prelude::*;

use crate::types::Network;

verus! {

/// Address-lookahead window used when none is configured.
pub const DEFAULT_LOOKAHEAD: u32 = 30;

/// Peer connections used when none is configured.
pub const DEFAULT_CONNECTIONS: u8 = 2;

/// Process-wide configuration, fixed at startup.
pub struct Config {
    /// The chain to operate on.
    pub network: Network,
    /// Receiving-branch descriptor.
    pub receive: String,
    /// Change-branch descriptor.
    pub change: String,
    /// How many addresses beyond the revealed ones to watch.
    pub lookahead: u32,
    /// Earliest block to scan from, when known.
    pub birthday: Option<u32>,
    /// Peer connections for the sync subsystem.
    pub connections: u8,
}

/// Fills the optional settings with the daemon's defaults: thirty
/// addresses of lookahead, the signet network, two peer connections.
pub fn resolve_config(
    network: Option<Network>,
    receive: String,
    change: String,
    lookahead: Option<u32>,
    birthday: Option<u32>,
    connections: Option<u8>,
) -> (c: Config)
    ensures
        c.network == (match network {
            Some(n) => n,
            None => Network::Signet,
        }),
        c.receive == receive,
        c.change == change,
        c.lookahead == (match lookahead {
            Some(l) => l,
            None => DEFAULT_LOOKAHEAD,
        }),
        c.birthday == birthday,
        c.connections == (match connections {
            Some(k) => k,
            None => DEFAULT_CONNECTIONS,
        }),
{
    Config {
        network: match network {
            Some(n) => n,
            None => Network::Signet,
        },
        receive,
        change,
        lookahead: match lookahead {
            Some(l) => l,
            None => DEFAULT_LOOKAHEAD,
        },
        birthday,
        connections: match connections {
            Some(k) => k,
            None => DEFAULT_CONNECTIONS,
        },
    }
}

} // verus!
