//! What the control server does with each request it receives.

use vstd::prelude::*;

use crate::addr::{is_zero_hw, is_zero_hw_addr, HwAddr};
use crate::error::TapDemoError;
use crate::msg::{ControlMsg, MsgDiscoveryReply};
use crate::peer::Peer;
use crate::registry::{
    merge_discovered_all, opt_name, remove_matching, upsert, Registry,
};

verus! {

/// What the server does next with a request.
#[derive(Debug)]
pub enum ControlAction {
    /// Send this reply to the requester.
    Reply(ControlMsg),
    /// Ask this peer for its hardware address, then finish with
    /// `Registry::finish_add_peer`.
    ResolveThenAdd(Peer),
    /// Run one discovery round, then finish with `Registry::finish_scan`.
    ScanThenReply,
    /// Not a request: log it and drop it.
    Ignore,
}

/// The outcome of a request, given the table before it: the action, and
/// the table after it.
pub open spec fn request_outcome(
    peers: Seq<Peer>,
    name: String,
    hw_addr: HwAddr,
    msg: ControlMsg,
) -> (ControlAction, Seq<Peer>) {
    match msg {
        ControlMsg::DiscoveryRequest => (
            ControlAction::Reply(ControlMsg::DiscoveryReply(MsgDiscoveryReply { name, hw_addr })),
            peers,
        ),
        ControlMsg::HwAddrRequest => (ControlAction::Reply(ControlMsg::HwAddrReply(hw_addr)), peers),
        ControlMsg::Ping => (ControlAction::Reply(ControlMsg::Pong), peers),
        ControlMsg::AddPeerRequest(p) => if is_zero_hw(p.hw_addr) {
            (ControlAction::ResolveThenAdd(p), peers)
        } else {
            (ControlAction::Reply(ControlMsg::AddPeerReply(true)), upsert(peers, p))
        },
        ControlMsg::RemovePeerRequest { name: n, addr } => (
            ControlAction::Reply(ControlMsg::RemovePeerReply(true)),
            remove_matching(peers, opt_name(n), addr),
        ),
        ControlMsg::ScanNodeRequest => (ControlAction::ScanThenReply, peers),
        _ => (ControlAction::Ignore, peers),
    }
}

impl Registry {
    /// Answer a control request. A list request is answered with a copy of
    /// the table; the requests that need the network first (adding a peer
    /// whose hardware address is unresolved, a scan) say so; anything that
    /// is not a request is ignored.
    pub fn handle_request(&mut self, msg: ControlMsg) -> (r: ControlAction)
        requires
            old(self).wf(),
        ensures
            final(self).wf(),
            final(self).local_name() == old(self).local_name(),
            final(self).local_hw_addr() == old(self).local_hw_addr(),
            msg is ListPeerRequest ==> final(self)@ == old(self)@ && (r matches ControlAction::Reply(
                ControlMsg::ListPeerReply(l),
            ) && l@ == old(self)@),
            !(msg is ListPeerRequest) ==> (r, final(self)@) == request_outcome(
                old(self)@,
                old(self).local_name(),
                old(self).local_hw_addr(),
                msg,
            ),
    {
        match msg {
            ControlMsg::DiscoveryRequest => ControlAction::Reply(
                ControlMsg::DiscoveryReply(
                    MsgDiscoveryReply { name: self.name().clone(), hw_addr: self.hw_addr() },
                ),
            ),
            ControlMsg::HwAddrRequest => ControlAction::Reply(ControlMsg::HwAddrReply(self.hw_addr())),
            ControlMsg::Ping => ControlAction::Reply(ControlMsg::Pong),
            ControlMsg::AddPeerRequest(p) => {
                if is_zero_hw_addr(&p.hw_addr) {
                    ControlAction::ResolveThenAdd(p)
                } else {
                    self.add_peer(p);
                    ControlAction::Reply(ControlMsg::AddPeerReply(true))
                }
            },
            ControlMsg::ListPeerRequest => ControlAction::Reply(ControlMsg::ListPeerReply(self.peers())),
            ControlMsg::RemovePeerRequest { name, addr } => {
                self.remove_peer(name, addr);
                ControlAction::Reply(ControlMsg::RemovePeerReply(true))
            },
            ControlMsg::ScanNodeRequest => ControlAction::ScanThenReply,
            _ => ControlAction::Ignore,
        }
    }

    /// Finish adding `peer` once its hardware address was asked for: with
    /// an address it is upserted and the reply says so; after a failure the
    /// table stays as it is and the reply says that.
    pub fn finish_add_peer(&mut self, peer: Peer, hw: Result<HwAddr, TapDemoError>) -> (r: ControlMsg)
        requires
            old(self).wf(),
        ensures
            final(self).wf(),
            final(self).local_name() == old(self).local_name(),
            final(self).local_hw_addr() == old(self).local_hw_addr(),
            match hw {
                Ok(h) => r == ControlMsg::AddPeerReply(true) && final(self)@ == upsert(
                    old(self)@,
                    Peer { name: peer.name, ctl_addr: peer.ctl_addr, data_addr: peer.data_addr, hw_addr: h },
                ),
                Err(_) => r == ControlMsg::AddPeerReply(false) && final(self)@ == old(self)@,
            },
    {
        match hw {
            Ok(h) => {
                self.add_peer(Peer { name: peer.name, ctl_addr: peer.ctl_addr, data_addr: peer.data_addr, hw_addr: h });
                ControlMsg::AddPeerReply(true)
            },
            Err(_) => ControlMsg::AddPeerReply(false),
        }
    }

    /// Finish a scan: merge what the discovery round found and reply with
    /// it; after a failed round, reply with an empty list.
    pub fn finish_scan(&mut self, found: Result<Vec<Peer>, TapDemoError>) -> (r: ControlMsg)
        requires
            old(self).wf(),
        ensures
            final(self).wf(),
            final(self).local_name() == old(self).local_name(),
            final(self).local_hw_addr() == old(self).local_hw_addr(),
            match found {
                Ok(ps) => final(self)@ == merge_discovered_all(old(self)@, ps@) && (r matches ControlMsg::ScanNodeReply(l) && l@ == ps@),
                Err(_) => final(self)@ == old(self)@ && (r matches ControlMsg::ScanNodeReply(l) && l@.len() == 0),
            },
    {
        match found {
            Ok(ps) => {
                self.merge_discovered_peers(&ps);
                ControlMsg::ScanNodeReply(ps)
            },
            Err(_) => ControlMsg::ScanNodeReply(Vec::new()),
        }
    }
}

} // verus!
