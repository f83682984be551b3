//! A remote member of the mesh.

use vstd::prelude::*;

use crate::addr::{is_zero_hw, zero_hw_addr, HwAddr, IpAddress, PeerAddr};
use crate::discovery::{data_addr_for, data_addr_spec};
use crate::error::TapDemoError;
use crate::text::{join_with, lemma_split_count, occurrences, split_on, texts};

verus! {

/// One remote mesh member.
#[derive(Debug)]
pub struct Peer {
    /// Human-readable name, used to remove peers by name.
    pub name: String,
    /// Where the peer's control endpoint listens: the key of the registry.
    pub ctl_addr: PeerAddr,
    /// Where the peer's data endpoint listens.
    pub data_addr: PeerAddr,
    /// The peer's hardware address; all zero while unresolved.
    pub hw_addr: HwAddr,
}

impl Clone for Peer {
    fn clone(&self) -> (r: Peer)
        ensures
            r == *self,
    {
        Peer {
            name: self.name.clone(),
            ctl_addr: self.ctl_addr,
            data_addr: self.data_addr,
            hw_addr: self.hw_addr,
        }
    }
}

/// A copy of a list of peers.
pub fn clone_peers(peers: &Vec<Peer>) -> (r: Vec<Peer>)
    ensures
        r@ == peers@,
{
    let mut r: Vec<Peer> = Vec::new();
    let mut i: usize = 0;
    while i < peers.len()
        invariant
            i <= peers@.len(),
            r@ == peers@.subrange(0, i as int),
        decreases peers@.len() - i,
    {
        r.push(peers[i].clone());
        i = i + 1;
    }
    assert(r@ =~= peers@);
    r
}

impl Peer {
    /// Split a peer description `name=address` at its one `=`; a text with
    /// no `=`, or with more than one, is no peer description.
    pub fn split_name_addr(s: &str) -> (r: Result<(String, String), TapDemoError>)
        ensures
            r is Ok <==> occurrences(s@, '=') == 1,
            r matches Ok((n, a)) ==> s@ == n@ + seq!['='] + a@ && !n@.contains('=') && !a@.contains('='),
            r matches Err(e) ==> e == TapDemoError::PeerParseError,
    {
        let mut parts = split_on(s, '=');
        proof {
            lemma_split_count(texts(parts@), '=');
        }
        if parts.len() != 2 {
            return Err(TapDemoError::PeerParseError);
        }
        let ghost whole = parts@;
        let addr = parts.pop().unwrap();
        let name = parts.pop().unwrap();
        proof {
            let t = texts(whole);
            assert(t.drop_last() =~= seq![t[0]]);
            assert(t[0] == name@);
            assert(t[1] == addr@);
            assert(t.len() == 2);
            assert(join_with(t.drop_last(), '=') == t[0]);
            assert(t.last() == addr@);
            assert(join_with(t, '=') == name@ + seq!['='] + addr@);
        }
        Ok((name, addr))
    }
}

/// The address is an IP version 4 one.
pub open spec fn is_v4(a: PeerAddr) -> bool {
    a.ip is V4
}

/// The position of the first version 4 address in `addrs`, if any.
pub open spec fn first_v4_index(addrs: Seq<PeerAddr>) -> int {
    choose|i: int| 0 <= i < addrs.len() && is_v4(#[trigger] addrs[i]) && forall|j: int| 0 <= j < i ==> !is_v4(#[trigger] addrs[j])
}

/// The peer `name` whose address resolved to `addrs`: its control address
/// is the first version 4 one among them, its data address the port below,
/// and its hardware address unresolved. Without a version 4 address, or with
/// port 0, there is none.
pub open spec fn peer_from_resolved_spec(name: String, addrs: Seq<PeerAddr>, r: Result<Peer, TapDemoError>) -> bool {
    if exists|i: int| 0 <= i < addrs.len() && is_v4(#[trigger] addrs[i]) {
        let a = addrs[first_v4_index(addrs)];
        if a.port == 0 {
            r == Err::<Peer, TapDemoError>(TapDemoError::PeerParseError)
        } else {
            r matches Ok(p) && p.name == name && p.ctl_addr == a && Some(p.data_addr) == data_addr_spec(a)
                && is_zero_hw(p.hw_addr)
        }
    } else {
        r == Err::<Peer, TapDemoError>(TapDemoError::PeerParseError)
    }
}

/// Build the peer `name` from the addresses that its address text
/// resolved to.
pub fn peer_from_resolved(name: String, addrs: &Vec<PeerAddr>) -> (r: Result<Peer, TapDemoError>)
    ensures
        peer_from_resolved_spec(name, addrs@, r),
{
    let mut i: usize = 0;
    while i < addrs.len()
        invariant
            i <= addrs@.len(),
            forall|j: int| 0 <= j < i ==> !is_v4(#[trigger] addrs@[j]),
        decreases addrs@.len() - i,
    {
        if let IpAddress::V4(_) = addrs[i].ip {
            let ctl_addr = addrs[i];
            proof {
                let ii = i as int;
                assert(0 <= ii < addrs@.len() && is_v4(addrs@[ii]) && forall|j: int|
                    0 <= j < ii ==> !is_v4(#[trigger] addrs@[j]));
                let k = first_v4_index(addrs@);
                assert(0 <= k < addrs@.len() && is_v4(addrs@[k]) && forall|j: int|
                    0 <= j < k ==> !is_v4(#[trigger] addrs@[j]));
                if k < ii {
                    assert(!is_v4(addrs@[k]));
                }
                if k > ii {
                    assert(!is_v4(addrs@[ii]));
                }
                assert(k == ii);
            }
            return match data_addr_for(ctl_addr) {
                Some(data_addr) => Ok(Peer { name, ctl_addr, data_addr, hw_addr: zero_hw_addr() }),
                None => Err(TapDemoError::PeerParseError),
            };
        }
        i = i + 1;
    }
    Err(TapDemoError::PeerParseError)
}

} // verus!
