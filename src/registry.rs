//! The table of known peers, together with the local node's own identity.

use vstd::prelude::*;

use crate::addr::{is_zero_hw, is_zero_hw_addr, HwAddr, IpAddress, PeerAddr};
use crate::peer::{clone_peers, Peer};

verus! {

/// No two entries share a control address.
pub open spec fn unique_ctl(s: Seq<Peer>) -> bool {
    forall|i: int, j: int|
        0 <= i < s.len() && 0 <= j < s.len() && i != j ==> #[trigger] s[i].ctl_addr
            != #[trigger] s[j].ctl_addr
}

/// Some entry has control address `a`.
pub open spec fn has_ctl(s: Seq<Peer>, a: PeerAddr) -> bool {
    exists|i: int| 0 <= i < s.len() && #[trigger] s[i].ctl_addr == a
}

/// The index of an entry with control address `a` (the only one, in a
/// table whose control addresses are unique).
pub open spec fn ctl_index(s: Seq<Peer>, a: PeerAddr) -> int {
    choose|i: int| 0 <= i < s.len() && #[trigger] s[i].ctl_addr == a
}

/// `old` with its name and hardware address taken from `p`.
pub open spec fn renamed(old: Peer, p: Peer) -> Peer {
    Peer { name: p.name, ctl_addr: old.ctl_addr, data_addr: old.data_addr, hw_addr: p.hw_addr }
}

/// Insert `p`, or, where an entry has its control address, overwrite that
/// entry's name and hardware address and keep its addresses.
pub open spec fn upsert(s: Seq<Peer>, p: Peer) -> Seq<Peer> {
    if has_ctl(s, p.ctl_addr) {
        let i = ctl_index(s, p.ctl_addr);
        s.update(i, renamed(s[i], p))
    } else {
        s.push(p)
    }
}

/// Upsert each of `ps`, in order.
pub open spec fn upsert_all(s: Seq<Peer>, ps: Seq<Peer>) -> Seq<Peer>
    decreases ps.len(),
{
    if ps.len() == 0 {
        s
    } else {
        upsert(upsert_all(s, ps.drop_last()), ps.last())
    }
}

/// Whether a removal request with these filters names peer `p`: by equal
/// name, or by the IP address of its control address.
pub open spec fn removal_matches(name: Option<Seq<char>>, addr: Option<IpAddress>, p: Peer) -> bool {
    (name matches Some(n) && n == p.name@) || (addr matches Some(a) && a == p.ctl_addr.ip)
}

/// Whether a removal with these filters keeps an entry.
pub open spec fn kept_by(name: Option<Seq<char>>, addr: Option<IpAddress>) -> spec_fn(Peer) -> bool {
    |p: Peer| !removal_matches(name, addr, p)
}

/// The entries that a removal with these filters keeps.
pub open spec fn remove_matching(s: Seq<Peer>, name: Option<Seq<char>>, addr: Option<IpAddress>) -> Seq<Peer> {
    s.filter(kept_by(name, addr))
}

/// The view of an optional name.
pub open spec fn opt_name(name: Option<String>) -> Option<Seq<char>> {
    match name {
        Some(n) => Some(n@),
        None => None,
    }
}

/// A discovery merge: like an upsert, except that an entry's hardware
/// address, once resolved, is kept.
pub open spec fn merge_discovered_spec(s: Seq<Peer>, p: Peer) -> Seq<Peer> {
    if has_ctl(s, p.ctl_addr) {
        let i = ctl_index(s, p.ctl_addr);
        let hw = if is_zero_hw(s[i].hw_addr) { p.hw_addr } else { s[i].hw_addr };
        s.update(i, Peer { name: p.name, ctl_addr: s[i].ctl_addr, data_addr: s[i].data_addr, hw_addr: hw })
    } else {
        s.push(p)
    }
}

/// Discovery merges of each of `ps`, in order.
pub open spec fn merge_discovered_all(s: Seq<Peer>, ps: Seq<Peer>) -> Seq<Peer>
    decreases ps.len(),
{
    if ps.len() == 0 {
        s
    } else {
        merge_discovered_spec(merge_discovered_all(s, ps.drop_last()), ps.last())
    }
}

/// The entries of `s` whose flag in `alive` is set, in order.
pub open spec fn keep_flagged(s: Seq<Peer>, alive: Seq<bool>) -> Seq<Peer>
    decreases s.len(),
{
    if s.len() == 0 || alive.len() == 0 {
        Seq::empty()
    } else {
        let r = keep_flagged(s.drop_last(), alive.drop_last());
        if alive.last() {
            r.push(s.last())
        } else {
            r
        }
    }
}

/// Entry `p` after a resolution answer: an unresolved entry takes the
/// answered hardware address; any other entry stays as it is.
pub open spec fn resolved_entry(p: Peer, answer: Option<HwAddr>) -> Peer {
    match answer {
        Some(h) => if is_zero_hw(p.hw_addr) {
            Peer { name: p.name, ctl_addr: p.ctl_addr, data_addr: p.data_addr, hw_addr: h }
        } else {
            p
        },
        None => p,
    }
}

/// One resolution pass: entry `i` takes answer `i`.
pub open spec fn resolve_pass(s: Seq<Peer>, answers: Seq<Option<HwAddr>>) -> Seq<Peer> {
    Seq::new(s.len(), |i: int| resolved_entry(s[i], answers[i]))
}

/// Every entry has a resolved hardware address.
pub open spec fn all_resolved_spec(s: Seq<Peer>) -> bool {
    forall|i: int| 0 <= i < s.len() ==> !is_zero_hw(#[trigger] s[i].hw_addr)
}

/// Where a resolution pass sends its queries: the control address of each
/// unresolved entry, and nothing for a resolved one.
pub open spec fn resolution_target(p: Peer) -> Option<PeerAddr> {
    if is_zero_hw(p.hw_addr) {
        Some(p.ctl_addr)
    } else {
        None
    }
}

/// The peer table of a node, with the node's own name and hardware address.
pub struct Registry {
    name: String,
    hw_addr: HwAddr,
    peers: Vec<Peer>,
}

impl View for Registry {
    type V = Seq<Peer>;

    closed spec fn view(&self) -> Seq<Peer> {
        self.peers@
    }
}

impl Registry {
    /// The local node's name.
    pub closed spec fn local_name(&self) -> String {
        self.name
    }

    /// The local node's hardware address.
    pub closed spec fn local_hw_addr(&self) -> HwAddr {
        self.hw_addr
    }

    /// Well-formed: at most one entry per control address.
    pub closed spec fn wf(&self) -> bool {
        unique_ctl(self.peers@)
    }

    /// A registry for the node `name` with hardware address `hw_addr`, that
    /// holds `peers` upserted in order into an empty table.
    pub fn new(name: String, hw_addr: HwAddr, peers: Vec<Peer>) -> (r: Registry)
        ensures
            r.wf(),
            r@ == upsert_all(Seq::empty(), peers@),
            r.local_name() == name,
            r.local_hw_addr() == hw_addr,
    {
        let mut r = Registry { name, hw_addr, peers: Vec::new() };
        r.add_peers(peers);
        r
    }

    /// The local node's name.
    pub fn name(&self) -> (r: &String)
        ensures
            *r == self.local_name(),
    {
        &self.name
    }

    /// The local node's hardware address.
    pub fn hw_addr(&self) -> (r: HwAddr)
        ensures
            r == self.local_hw_addr(),
    {
        self.hw_addr
    }

    /// The number of entries.
    pub fn len(&self) -> (r: usize)
        ensures
            r == self@.len(),
    {
        self.peers.len()
    }

    /// A copy of the table, for use outside the lock.
    pub fn peers(&self) -> (r: Vec<Peer>)
        ensures
            r@ == self@,
    {
        clone_peers(&self.peers)
    }

    /// The index of the entry with control address `a`, if any.
    fn find_ctl(&self, a: &PeerAddr) -> (r: Option<usize>)
        requires
            self.wf(),
        ensures
            r is None <==> !has_ctl(self@, *a),
            r matches Some(i) ==> i == ctl_index(self@, *a) && i < self@.len(),
    {
        let mut i: usize = 0;
        while i < self.peers.len()
            invariant
                i <= self.peers@.len(),
                self.wf(),
                forall|j: int| 0 <= j < i ==> #[trigger] self.peers@[j].ctl_addr != *a,
            decreases self.peers@.len() - i,
        {
            if self.peers[i].ctl_addr == *a {
                assert(has_ctl(self@, *a));
                proof {
                    let k = ctl_index(self@, *a);
                    assert(self.peers@[k].ctl_addr == *a);
                    assert(self.peers@[i as int].ctl_addr == *a);
                }
                return Some(i);
            }
            i = i + 1;
        }
        None
    }

    /// Insert `peer`, or update the name and hardware address of the entry
    /// that has its control address.
    pub fn add_peer(&mut self, peer: Peer)
        requires
            old(self).wf(),
        ensures
            final(self).wf(),
            final(self)@ == upsert(old(self)@, peer),
            final(self).local_name() == old(self).local_name(),
            final(self).local_hw_addr() == old(self).local_hw_addr(),
    {
        proof {
            lemma_upsert_keeps_unique(self@, peer);
        }
        match self.find_ctl(&peer.ctl_addr) {
            Some(i) => {
                let ctl_addr = self.peers[i].ctl_addr;
                let data_addr = self.peers[i].data_addr;
                self.peers.set(i, Peer { name: peer.name, ctl_addr, data_addr, hw_addr: peer.hw_addr });
            },
            None => {
                self.peers.push(peer);
            },
        }
    }

    /// Upsert each of `peers`, in order.
    pub fn add_peers(&mut self, peers: Vec<Peer>)
        requires
            old(self).wf(),
        ensures
            final(self).wf(),
            final(self)@ == upsert_all(old(self)@, peers@),
            final(self).local_name() == old(self).local_name(),
            final(self).local_hw_addr() == old(self).local_hw_addr(),
    {
        let ghost start = self@;
        let mut i: usize = 0;
        while i < peers.len()
            invariant
                i <= peers@.len(),
                self.wf(),
                self@ == upsert_all(start, peers@.subrange(0, i as int)),
                self.local_name() == old(self).local_name(),
                self.local_hw_addr() == old(self).local_hw_addr(),
            decreases peers@.len() - i,
        {
            proof {
                assert(peers@.subrange(0, i + 1).drop_last() =~= peers@.subrange(0, i as int));
            }
            self.add_peer(peers[i].clone());
            i = i + 1;
        }
        assert(peers@.subrange(0, peers@.len() as int) =~= peers@);
    }

    /// Remove every entry whose name equals `name` or whose control
    /// address has the IP address `addr`. With neither filter given
    /// nothing is removed.
    pub fn remove_peer(&mut self, name: Option<String>, addr: Option<IpAddress>)
        requires
            old(self).wf(),
        ensures
            final(self).wf(),
            final(self)@ == remove_matching(old(self)@, opt_name(name), addr),
            final(self).local_name() == old(self).local_name(),
            final(self).local_hw_addr() == old(self).local_hw_addr(),
    {
        let ghost gname = opt_name(name);
        let ghost old_peers = self@;
        let mut kept: Vec<Peer> = Vec::new();
        let mut i: usize = 0;
        while i < self.peers.len()
            invariant
                i <= self.peers@.len(),
                self.peers@ == old_peers,
                gname == opt_name(name),
                kept@ == remove_matching(old_peers.subrange(0, i as int), gname, addr),
            decreases self.peers@.len() - i,
        {
            let p = &self.peers[i];
            let name_eq = match &name {
                Some(n) => *n == p.name,
                None => false,
            };
            let addr_eq = match &addr {
                Some(a) => *a == p.ctl_addr.ip,
                None => false,
            };
            proof {
                let pre = old_peers.subrange(0, i as int);
                assert(old_peers.subrange(0, i + 1) =~= pre.push(old_peers[i as int]));
                pre.lemma_filter_push(old_peers[i as int], kept_by(gname, addr));
            }
            assert((name_eq || addr_eq) == removal_matches(gname, addr, old_peers[i as int]));
            if !(name_eq || addr_eq) {
                kept.push(p.clone());
            }
            i = i + 1;
        }
        proof {
            assert(old_peers.subrange(0, old_peers.len() as int) =~= old_peers);
            lemma_filter_keeps_unique(old_peers, kept_by(gname, addr));
        }
        self.peers = kept;
    }
}

impl Registry {
    /// Merge a peer found by discovery: insert it, or update the name of the
    /// entry with its control address, and its hardware address unless that
    /// one is resolved already.
    pub fn merge_discovered(&mut self, peer: Peer)
        requires
            old(self).wf(),
        ensures
            final(self).wf(),
            final(self)@ == merge_discovered_spec(old(self)@, peer),
            final(self).local_name() == old(self).local_name(),
            final(self).local_hw_addr() == old(self).local_hw_addr(),
    {
        proof {
            lemma_merge_discovered_keeps_unique(self@, peer);
        }
        match self.find_ctl(&peer.ctl_addr) {
            Some(i) => {
                let ctl_addr = self.peers[i].ctl_addr;
                let data_addr = self.peers[i].data_addr;
                let hw_addr = if is_zero_hw_addr(&self.peers[i].hw_addr) {
                    peer.hw_addr
                } else {
                    self.peers[i].hw_addr
                };
                self.peers.set(i, Peer { name: peer.name, ctl_addr, data_addr, hw_addr });
            },
            None => {
                self.peers.push(peer);
            },
        }
    }

    /// Discovery merges of each of `peers`, in order.
    pub fn merge_discovered_peers(&mut self, peers: &Vec<Peer>)
        requires
            old(self).wf(),
        ensures
            final(self).wf(),
            final(self)@ == merge_discovered_all(old(self)@, peers@),
            final(self).local_name() == old(self).local_name(),
            final(self).local_hw_addr() == old(self).local_hw_addr(),
    {
        let ghost start = self@;
        let mut i: usize = 0;
        while i < peers.len()
            invariant
                i <= peers@.len(),
                self.wf(),
                self@ == merge_discovered_all(start, peers@.subrange(0, i as int)),
                self.local_name() == old(self).local_name(),
                self.local_hw_addr() == old(self).local_hw_addr(),
            decreases peers@.len() - i,
        {
            proof {
                assert(peers@.subrange(0, i + 1).drop_last() =~= peers@.subrange(0, i as int));
            }
            self.merge_discovered(peers[i].clone());
            i = i + 1;
        }
        assert(peers@.subrange(0, peers@.len() as int) =~= peers@);
    }

    /// Keep exactly the entries whose flag in `alive` is set: the outcome
    /// of one liveness round, `alive[i]` telling whether entry `i` answered.
    pub fn retain_responsive(&mut self, alive: &Vec<bool>)
        requires
            old(self).wf(),
            alive@.len() == old(self)@.len(),
        ensures
            final(self).wf(),
            final(self)@ == keep_flagged(old(self)@, alive@),
            final(self).local_name() == old(self).local_name(),
            final(self).local_hw_addr() == old(self).local_hw_addr(),
    {
        let ghost old_peers = self@;
        let mut kept: Vec<Peer> = Vec::new();
        let mut i: usize = 0;
        while i < self.peers.len()
            invariant
                i <= self.peers@.len(),
                alive@.len() == self.peers@.len(),
                self.peers@ == old_peers,
                kept@ == keep_flagged(old_peers.subrange(0, i as int), alive@.subrange(0, i as int)),
            decreases self.peers@.len() - i,
        {
            proof {
                assert(old_peers.subrange(0, i + 1).drop_last() =~= old_peers.subrange(0, i as int));
                assert(alive@.subrange(0, i + 1).drop_last() =~= alive@.subrange(0, i as int));
            }
            if alive[i] {
                kept.push(self.peers[i].clone());
            }
            i = i + 1;
        }
        proof {
            assert(old_peers.subrange(0, old_peers.len() as int) =~= old_peers);
            assert(alive@.subrange(0, alive@.len() as int) =~= alive@);
            lemma_keep_flagged_keeps_unique(old_peers, alive@);
        }
        self.peers = kept;
    }

    /// The control address to query for each entry: that of each
    /// unresolved entry, nothing for a resolved one.
    pub fn resolution_targets(&self) -> (r: Vec<Option<PeerAddr>>)
        ensures
            r@ == self@.map_values(|p: Peer| resolution_target(p)),
    {
        let mut r: Vec<Option<PeerAddr>> = Vec::new();
        let mut i: usize = 0;
        while i < self.peers.len()
            invariant
                i <= self.peers@.len(),
                r@ == self.peers@.subrange(0, i as int).map_values(|p: Peer| resolution_target(p)),
            decreases self.peers@.len() - i,
        {
            if is_zero_hw_addr(&self.peers[i].hw_addr) {
                r.push(Some(self.peers[i].ctl_addr));
            } else {
                r.push(None);
            }
            i = i + 1;
            proof {
                assert(r@ =~= self.peers@.subrange(0, i as int).map_values(|p: Peer| resolution_target(p)));
            }
        }
        assert(self.peers@.subrange(0, self.peers@.len() as int) =~= self.peers@);
        r
    }

    /// Apply the answers of one resolution pass: each unresolved entry `i`
    /// for which `answers[i]` holds an address takes it.
    pub fn apply_hw_addrs(&mut self, answers: &Vec<Option<HwAddr>>)
        requires
            old(self).wf(),
            answers@.len() == old(self)@.len(),
        ensures
            final(self).wf(),
            final(self)@ == resolve_pass(old(self)@, answers@),
            final(self).local_name() == old(self).local_name(),
            final(self).local_hw_addr() == old(self).local_hw_addr(),
    {
        let ghost old_peers = self@;
        let mut i: usize = 0;
        while i < self.peers.len()
            invariant
                i <= self.peers@.len(),
                answers@.len() == self.peers@.len(),
                self.peers@.len() == old_peers.len(),
                self.name == old(self).name,
                self.hw_addr == old(self).hw_addr,
                forall|j: int| 0 <= j < i ==> #[trigger] self.peers@[j] == resolved_entry(old_peers[j], answers@[j]),
                forall|j: int| i <= j < self.peers@.len() ==> #[trigger] self.peers@[j] == old_peers[j],
            decreases self.peers@.len() - i,
        {
            if let Some(h) = answers[i] {
                if is_zero_hw_addr(&self.peers[i].hw_addr) {
                    let p = &self.peers[i];
                    let q = Peer { name: p.name.clone(), ctl_addr: p.ctl_addr, data_addr: p.data_addr, hw_addr: h };
                    self.peers.set(i, q);
                }
            }
            i = i + 1;
        }
        proof {
            assert(self.peers@ =~= resolve_pass(old_peers, answers@));
            assert forall|a: int, b: int|
                0 <= a < self.peers@.len() && 0 <= b < self.peers@.len() && a != b implies
                #[trigger] self.peers@[a].ctl_addr != #[trigger] self.peers@[b].ctl_addr by {
                assert(self.peers@[a].ctl_addr == old_peers[a].ctl_addr);
                assert(self.peers@[b].ctl_addr == old_peers[b].ctl_addr);
            }
        }
    }

    /// Whether every entry has a resolved hardware address.
    pub fn all_resolved(&self) -> (r: bool)
        ensures
            r == all_resolved_spec(self@),
    {
        let mut i: usize = 0;
        while i < self.peers.len()
            invariant
                i <= self.peers@.len(),
                forall|j: int| 0 <= j < i ==> !is_zero_hw(#[trigger] self.peers@[j].hw_addr),
            decreases self.peers@.len() - i,
        {
            if is_zero_hw_addr(&self.peers[i].hw_addr) {
                return false;
            }
            i = i + 1;
        }
        true
    }
}

/// A discovery merge keeps control addresses unique.
pub proof fn lemma_merge_discovered_keeps_unique(s: Seq<Peer>, p: Peer)
    requires
        unique_ctl(s),
    ensures
        unique_ctl(merge_discovered_spec(s, p)),
{
    let r = merge_discovered_spec(s, p);
    if has_ctl(s, p.ctl_addr) {
        assert forall|a: int, b: int|
            0 <= a < r.len() && 0 <= b < r.len() && a != b implies #[trigger] r[a].ctl_addr
            != #[trigger] r[b].ctl_addr by {
            assert(r[a].ctl_addr == s[a].ctl_addr);
            assert(r[b].ctl_addr == s[b].ctl_addr);
        }
    } else {
        assert forall|a: int, b: int|
            0 <= a < r.len() && 0 <= b < r.len() && a != b implies #[trigger] r[a].ctl_addr
            != #[trigger] r[b].ctl_addr by {
            if a == s.len() {
                assert(s[b].ctl_addr != p.ctl_addr);
            } else if b == s.len() {
                assert(s[a].ctl_addr != p.ctl_addr);
            }
        }
    }
}

/// Every entry kept by `keep_flagged` comes from the table.
pub proof fn lemma_keep_flagged_from(s: Seq<Peer>, alive: Seq<bool>)
    ensures
        keep_flagged(s, alive).len() <= s.len(),
        forall|i: int| 0 <= i < keep_flagged(s, alive).len() ==> exists|k: int|
            0 <= k < s.len() && s[k] == #[trigger] keep_flagged(s, alive)[i],
    decreases s.len(),
{
    if s.len() > 0 && alive.len() > 0 {
        let init = s.drop_last();
        lemma_keep_flagged_from(init, alive.drop_last());
        let r = keep_flagged(init, alive.drop_last());
        assert forall|i: int| 0 <= i < keep_flagged(s, alive).len() implies exists|k: int|
            0 <= k < s.len() && s[k] == #[trigger] keep_flagged(s, alive)[i] by {
            if i < r.len() {
                let k = choose|k: int| 0 <= k < init.len() && init[k] == r[i];
                assert(s[k] == r[i]);
            } else {
                assert(s[s.len() - 1] == s.last());
            }
        }
    }
}

/// Keeping flagged entries keeps control addresses unique.
pub proof fn lemma_keep_flagged_keeps_unique(s: Seq<Peer>, alive: Seq<bool>)
    requires
        unique_ctl(s),
    ensures
        unique_ctl(keep_flagged(s, alive)),
    decreases s.len(),
{
    if s.len() > 0 && alive.len() > 0 {
        let init = s.drop_last();
        assert(unique_ctl(init)) by {
            assert forall|a: int, b: int|
                0 <= a < init.len() && 0 <= b < init.len() && a != b implies #[trigger] init[a].ctl_addr
                != #[trigger] init[b].ctl_addr by {
                assert(s[a].ctl_addr != s[b].ctl_addr);
            }
        }
        lemma_keep_flagged_keeps_unique(init, alive.drop_last());
        lemma_keep_flagged_from(init, alive.drop_last());
        let f = keep_flagged(init, alive.drop_last());
        if alive.last() {
            let r = f.push(s.last());
            assert forall|a: int, b: int|
                0 <= a < r.len() && 0 <= b < r.len() && a != b implies #[trigger] r[a].ctl_addr
                != #[trigger] r[b].ctl_addr by {
                if a == f.len() || b == f.len() {
                    let o = if a == f.len() { b } else { a };
                    let k = choose|k: int| 0 <= k < init.len() && init[k] == f[o];
                    assert(s[k].ctl_addr != s[s.len() - 1].ctl_addr);
                }
            }
        }
    }
}

/// An upsert keeps control addresses unique.
pub proof fn lemma_upsert_keeps_unique(s: Seq<Peer>, p: Peer)
    requires
        unique_ctl(s),
    ensures
        unique_ctl(upsert(s, p)),
        upsert(s, p).len() == if has_ctl(s, p.ctl_addr) { s.len() } else { s.len() + 1 },
{
    if has_ctl(s, p.ctl_addr) {
        let i = ctl_index(s, p.ctl_addr);
        let r = upsert(s, p);
        assert forall|a: int, b: int|
            0 <= a < r.len() && 0 <= b < r.len() && a != b implies #[trigger] r[a].ctl_addr
            != #[trigger] r[b].ctl_addr by {
            assert(r[a].ctl_addr == s[a].ctl_addr);
            assert(r[b].ctl_addr == s[b].ctl_addr);
        }
    } else {
        let r = upsert(s, p);
        assert forall|a: int, b: int|
            0 <= a < r.len() && 0 <= b < r.len() && a != b implies #[trigger] r[a].ctl_addr
            != #[trigger] r[b].ctl_addr by {
            if a == s.len() {
                assert(s[b].ctl_addr != p.ctl_addr);
            } else if b == s.len() {
                assert(s[a].ctl_addr != p.ctl_addr);
            }
        }
    }
}

/// Filtering keeps control addresses unique.
pub proof fn lemma_filter_keeps_unique(s: Seq<Peer>, keep: spec_fn(Peer) -> bool)
    requires
        unique_ctl(s),
    ensures
        unique_ctl(s.filter(keep)),
    decreases s.len(),
{
    if s.len() > 0 {
        let init = s.drop_last();
        assert(init.push(s.last()) =~= s);
        assert(unique_ctl(init)) by {
            assert forall|a: int, b: int|
                0 <= a < init.len() && 0 <= b < init.len() && a != b implies #[trigger] init[a].ctl_addr
                != #[trigger] init[b].ctl_addr by {
                assert(s[a].ctl_addr != s[b].ctl_addr);
            }
        }
        lemma_filter_keeps_unique(init, keep);
        init.lemma_filter_push(s.last(), keep);
        let f = init.filter(keep);
        if keep(s.last()) {
            let r = f.push(s.last());
            assert forall|a: int, b: int|
                0 <= a < r.len() && 0 <= b < r.len() && a != b implies #[trigger] r[a].ctl_addr
                != #[trigger] r[b].ctl_addr by {
                if a == f.len() || b == f.len() {
                    let o = if a == f.len() { b } else { a };
                    lemma_filter_from(init, keep);
                    assert(init.contains(f[o]));
                    let k = choose|k: int| 0 <= k < init.len() && init[k] == f[o];
                    assert(s[k].ctl_addr != s[s.len() - 1].ctl_addr);
                }
            }
        }
    }
}

/// Every entry of a filtered sequence comes from the sequence.
pub proof fn lemma_filter_from<A>(s: Seq<A>, keep: spec_fn(A) -> bool)
    ensures
        forall|i: int| 0 <= i < s.filter(keep).len() ==> s.contains(#[trigger] s.filter(keep)[i]),
    decreases s.len(),
{
    if s.len() > 0 {
        let init = s.drop_last();
        assert(init.push(s.last()) =~= s);
        lemma_filter_from(init, keep);
        init.lemma_filter_push(s.last(), keep);
        let f = init.filter(keep);
        assert forall|i: int| 0 <= i < s.filter(keep).len() implies s.contains(
            #[trigger] s.filter(keep)[i],
        ) by {
            if i < f.len() {
                let k = choose|k: int| 0 <= k < init.len() && init[k] == f[i];
                assert(s[k] == f[i]);
            } else {
                assert(s[s.len() - 1] == s.last());
            }
        }
    }
}

} // verus!
