//! Decisions of discovery, liveness probing and hardware-address
//! resolution, on the replies that the network brought.

use vstd::prelude::*;

use crate::addr::{HwAddr, PeerAddr};
use crate::error::TapDemoError;
use crate::msg::ControlMsg;
use crate::peer::Peer;
use crate::registry::Registry;

verus! {

/// The data address that goes with a control address: the same IP address,
/// one port lower. Port 0 has none.
pub open spec fn data_addr_spec(ctl: PeerAddr) -> Option<PeerAddr> {
    if ctl.port == 0 {
        None
    } else {
        Some(PeerAddr { ip: ctl.ip, port: (ctl.port - 1) as u16 })
    }
}

/// The data address that goes with a control address.
pub fn data_addr_for(ctl: PeerAddr) -> (r: Option<PeerAddr>)
    ensures
        r == data_addr_spec(ctl),
{
    if ctl.port == 0 {
        None
    } else {
        Some(PeerAddr { ip: ctl.ip, port: ctl.port - 1 })
    }
}

/// The peer that a discovery reply from `src` describes, for a node named
/// `local`: none for a message of another kind, for the node's own reply,
/// or for a source port without a data port below it.
pub open spec fn discovered_peer(local: Seq<char>, src: PeerAddr, msg: ControlMsg) -> Option<Peer> {
    match msg {
        ControlMsg::DiscoveryReply(d) => if d.name@ != local && src.port != 0 {
            Some(Peer { name: d.name, ctl_addr: src, data_addr: data_addr_spec(src)->Some_0, hw_addr: d.hw_addr })
        } else {
            None
        },
        _ => None,
    }
}

impl Registry {
    /// The peer that the message `msg`, received from `src` during
    /// discovery, describes, if it is another node's discovery reply.
    pub fn peer_from_discovery_reply(&self, src: PeerAddr, msg: ControlMsg) -> (r: Option<Peer>)
        ensures
            r == discovered_peer(self.local_name()@, src, msg),
    {
        match msg {
            ControlMsg::DiscoveryReply(d) => {
                if d.name == *self.name() {
                    return None;
                }
                match data_addr_for(src) {
                    Some(data_addr) => Some(Peer { name: d.name, ctl_addr: src, data_addr, hw_addr: d.hw_addr }),
                    None => None,
                }
            },
            _ => None,
        }
    }
}

/// The hardware address in the answer to a hardware-address request: the
/// address of a `HwAddrReply`, `GetHWAddrError` for a message of another
/// kind, and the error itself where no message came.
pub fn hw_addr_from_reply(reply: Result<ControlMsg, TapDemoError>) -> (r: Result<HwAddr, TapDemoError>)
    ensures
        match reply {
            Ok(ControlMsg::HwAddrReply(h)) => r == Ok::<HwAddr, TapDemoError>(h),
            Ok(_) => r == Err::<HwAddr, TapDemoError>(TapDemoError::GetHWAddrError),
            Err(e) => r == Err::<HwAddr, TapDemoError>(e),
        },
{
    match reply {
        Ok(ControlMsg::HwAddrReply(h)) => Ok(h),
        Ok(_) => Err(TapDemoError::GetHWAddrError),
        Err(e) => Err(e),
    }
}

/// The verdict on the answer to a liveness probe: alive on a `Pong`,
/// `PeerLost` on a message of another kind, and the error itself where no
/// message came.
pub fn check_pong_reply(reply: Result<ControlMsg, TapDemoError>) -> (r: Result<(), TapDemoError>)
    ensures
        match reply {
            Ok(ControlMsg::Pong) => r is Ok,
            Ok(_) => r == Err::<(), TapDemoError>(TapDemoError::PeerLost),
            Err(e) => r == Err::<(), TapDemoError>(e),
        },
{
    match reply {
        Ok(ControlMsg::Pong) => Ok(()),
        Ok(_) => Err(TapDemoError::PeerLost),
        Err(e) => Err(e),
    }
}

} // verus!
