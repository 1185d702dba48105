//! What the host asks of the link.
use vstd::prelude::*;

verus! {

/// A command from the host application to the link.
#[derive(Debug, Clone, PartialEq, Eq)]
pub enum HostCommand {
    /// Open a connection to the peer.
    Connect,
    /// Send a host message for reliable, in-order delivery.
    Send(Vec<u8>),
    /// Tear the connection down cleanly.
    Disconnect,
}

} // verus!
