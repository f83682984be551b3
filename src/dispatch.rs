//! Where an outbound frame goes: every other peer for a broadcast, the peer
//! with the destination hardware address otherwise.

use vstd::prelude::*;

use crate::addr::{hw_addr_eq, is_broadcast_hw, is_broadcast_hw_addr, HwAddr, PeerAddr};
use crate::eth::EthV2;
use crate::peer::Peer;
use crate::registry::Registry;

verus! {

/// Where a frame is sent.
#[derive(Debug)]
pub enum Route {
    /// To each of these data addresses, once, in this order.
    Broadcast(Vec<PeerAddr>),
    /// To this one data address.
    Unicast(PeerAddr),
    /// Nowhere: no peer has the destination address.
    Unknown,
}

/// Whether a peer's hardware address differs from the local one.
pub open spec fn not_local(local: HwAddr) -> spec_fn(Peer) -> bool {
    |p: Peer| p.hw_addr != local
}

/// The data address of a peer.
pub open spec fn data_addr_of(p: Peer) -> PeerAddr {
    p.data_addr
}

/// The data addresses of a broadcast: those of every peer whose hardware
/// address is not the local one, in table order.
pub open spec fn broadcast_targets(s: Seq<Peer>, local: HwAddr) -> Seq<PeerAddr> {
    s.filter(not_local(local)).map_values(|p: Peer| data_addr_of(p))
}

/// Some peer has hardware address `h`.
pub open spec fn has_hw(s: Seq<Peer>, h: HwAddr) -> bool {
    exists|i: int| 0 <= i < s.len() && #[trigger] s[i].hw_addr == h
}

/// The first peer with hardware address `h`.
pub open spec fn first_hw_index(s: Seq<Peer>, h: HwAddr) -> int {
    choose|i: int|
        0 <= i < s.len() && #[trigger] s[i].hw_addr == h && forall|j: int| 0 <= j < i ==> #[trigger] s[j].hw_addr != h
}

/// The route of a frame with destination `dst`.
pub open spec fn route_spec(s: Seq<Peer>, local: HwAddr, dst: HwAddr, r: Route) -> bool {
    if is_broadcast_hw(dst) {
        r matches Route::Broadcast(v) && v@ == broadcast_targets(s, local)
    } else if has_hw(s, dst) {
        r == Route::Unicast(s[first_hw_index(s, dst)].data_addr)
    } else {
        r is Unknown
    }
}

impl Registry {
    /// Route an outbound frame. A broadcast goes to every peer but one with
    /// the local hardware address; any other destination goes to the first
    /// peer with that hardware address, or nowhere.
    pub fn route_frame(&self, eth: &EthV2) -> (r: Route)
        ensures
            route_spec(self@, self.local_hw_addr(), eth.dst_mac, r),
    {
        let peers = self.peers();
        let local = self.hw_addr();
        if is_broadcast_hw_addr(&eth.dst_mac) {
            let mut v: Vec<PeerAddr> = Vec::new();
            let mut i: usize = 0;
            while i < peers.len()
                invariant
                    i <= peers@.len(),
                    peers@ == self@,
                    local == self.local_hw_addr(),
                    v@ == broadcast_targets(peers@.subrange(0, i as int), local),
                decreases peers@.len() - i,
            {
                let ghost pre = peers@.subrange(0, i as int);
                proof {
                    assert(peers@.subrange(0, i + 1) =~= pre.push(peers@[i as int]));
                    pre.lemma_filter_push(peers@[i as int], not_local(local));
                }
                if !hw_addr_eq(&peers[i].hw_addr, &local) {
                    v.push(peers[i].data_addr);
                    proof {
                        let f = pre.filter(not_local(local));
                        assert(f.push(peers@[i as int]).map_values(|p: Peer| data_addr_of(p))
                            =~= f.map_values(|p: Peer| data_addr_of(p)).push(peers@[i as int].data_addr));
                    }
                }
                i = i + 1;
            }
            assert(peers@.subrange(0, peers@.len() as int) =~= peers@);
            Route::Broadcast(v)
        } else {
            let mut i: usize = 0;
            while i < peers.len()
                invariant
                    i <= peers@.len(),
                    peers@ == self@,
                    !is_broadcast_hw(eth.dst_mac),
                    forall|j: int| 0 <= j < i ==> #[trigger] peers@[j].hw_addr != eth.dst_mac,
                decreases peers@.len() - i,
            {
                if hw_addr_eq(&peers[i].hw_addr, &eth.dst_mac) {
                    proof {
                        assert(has_hw(peers@, eth.dst_mac));
                        let ii = i as int;
                        assert(0 <= ii < peers@.len() && peers@[ii].hw_addr == eth.dst_mac && forall|j: int|
                            0 <= j < ii ==> #[trigger] peers@[j].hw_addr != eth.dst_mac);
                        let k = first_hw_index(peers@, eth.dst_mac);
                        assert(0 <= k < peers@.len() && peers@[k].hw_addr == eth.dst_mac && forall|j: int|
                            0 <= j < k ==> #[trigger] peers@[j].hw_addr != eth.dst_mac);
                        if k < ii {
                            assert(peers@[k].hw_addr != eth.dst_mac);
                        }
                        if k > ii {
                            assert(peers@[ii].hw_addr != eth.dst_mac);
                        }
                        assert(k == ii);
                    }
                    return Route::Unicast(peers[i].data_addr);
                }
                i = i + 1;
            }
            Route::Unknown
        }
    }
}

} // verus!
