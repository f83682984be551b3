//! The control protocol: each request kind is paired with one reply kind.

use vstd::prelude::*;

use crate::addr::{HwAddr, IpAddress};
use crate::peer::Peer;

verus! {

/// A node's answer to a discovery request.
#[derive(Debug)]
pub struct MsgDiscoveryReply {
    pub name: String,
    pub hw_addr: HwAddr,
}

/// A control message.
#[derive(Debug)]
pub enum ControlMsg {
    /// "Who are you": sent to the discovery multicast group.
    DiscoveryRequest,
    DiscoveryReply(MsgDiscoveryReply),
    /// "What is your hardware address".
    HwAddrRequest,
    HwAddrReply(HwAddr),
    /// Liveness probe.
    Ping,
    Pong,
    /// Administrative insertion of a peer.
    AddPeerRequest(Peer),
    AddPeerReply(bool),
    /// Dump of the peer table.
    ListPeerRequest,
    ListPeerReply(Vec<Peer>),
    /// Administrative removal of peers by name or by IP address.
    RemovePeerRequest { name: Option<String>, addr: Option<IpAddress> },
    RemovePeerReply(bool),
    /// An immediate discovery round, answered with what it found.
    ScanNodeRequest,
    ScanNodeReply(Vec<Peer>),
}

} // verus!
