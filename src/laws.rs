//! Properties of the peer table that hold for every input.

use vstd::prelude::*;

use crate::addr::{is_zero_hw, HwAddr};
use crate::peer::Peer;
use crate::registry::{
    all_resolved_spec, ctl_index, has_ctl, keep_flagged, lemma_keep_flagged_from,
    lemma_upsert_keeps_unique, kept_by, remove_matching, resolve_pass, unique_ctl, upsert, upsert_all,
};

verus! {

/// Exactly one entry has the control address of `p`, and it has the name
/// and hardware address of `p`.
pub open spec fn sole_entry_like(r: Seq<Peer>, p: Peer) -> bool {
    exists|i: int|
        0 <= i < r.len() && #[trigger] r[i].ctl_addr == p.ctl_addr && r[i].name == p.name && r[i].hw_addr
            == p.hw_addr && forall|j: int| 0 <= j < r.len() && j != i ==> r[j].ctl_addr != p.ctl_addr
}

/// Upserting two peers with the same control address, one after the other,
/// leaves exactly one entry with that address, and it holds the name and
/// hardware address of the later one. Upserting one peer twice is the same
/// as upserting it once.
pub proof fn law_upsert_twice(s: Seq<Peer>, first: Peer, second: Peer)
    requires
        unique_ctl(s),
        first.ctl_addr == second.ctl_addr,
    ensures
        sole_entry_like(upsert(upsert(s, first), second), second),
        upsert(upsert(s, first), first) == upsert(s, first),
{
    lemma_upsert_keeps_unique(s, first);
    let s1 = upsert(s, first);
    assert(has_ctl(s1, first.ctl_addr)) by {
        if has_ctl(s, first.ctl_addr) {
            let i = ctl_index(s, first.ctl_addr);
            assert(s1[i].ctl_addr == first.ctl_addr);
        } else {
            assert(s1[s.len() as int].ctl_addr == first.ctl_addr);
        }
    }
    let i = ctl_index(s1, second.ctl_addr);
    let r = upsert(s1, second);
    assert(r[i].ctl_addr == first.ctl_addr);
    assert forall|j: int| 0 <= j < r.len() && j != i implies r[j].ctl_addr != first.ctl_addr by {
        assert(s1[j].ctl_addr != s1[i].ctl_addr);
    }
    let r1 = upsert(s1, first);
    assert(r1 =~= s1);
}

/// However many peers are upserted, no two entries share a control address.
pub proof fn law_upserts_keep_addresses_unique(s: Seq<Peer>, ps: Seq<Peer>)
    requires
        unique_ctl(s),
    ensures
        unique_ctl(upsert_all(s, ps)),
    decreases ps.len(),
{
    if ps.len() > 0 {
        law_upserts_keep_addresses_unique(s, ps.drop_last());
        lemma_upsert_keeps_unique(upsert_all(s, ps.drop_last()), ps.last());
    }
}

/// A removal by name alone removes exactly the entries with that name: none
/// is left, and every other entry stays.
pub proof fn law_remove_by_name(s: Seq<Peer>, x: Seq<char>)
    ensures
        forall|i: int|
            0 <= i < remove_matching(s, Some(x), None).len() ==> (#[trigger] remove_matching(
                s,
                Some(x),
                None,
            )[i]).name@ != x,
        forall|i: int|
            0 <= i < s.len() && (#[trigger] s[i]).name@ != x ==> remove_matching(
                s,
                Some(x),
                None,
            ).contains(s[i]),
{
    broadcast use vstd::seq_lib::group_filter_ensures;

    let f = remove_matching(s, Some(x), None);
    assert forall|i: int| 0 <= i < f.len() implies (#[trigger] f[i]).name@ != x by {
        assert(kept_by(Some(x), None)(f[i]));
    }
    assert forall|i: int| 0 <= i < s.len() && (#[trigger] s[i]).name@ != x implies f.contains(s[i]) by {
        assert(kept_by(Some(x), None)(s[i]));
    }
}

/// A removal with neither a name nor an address removes nothing.
pub proof fn law_remove_without_filter(s: Seq<Peer>)
    ensures
        remove_matching(s, None, None) == s,
    decreases s.len(),
{
    broadcast use vstd::seq_lib::group_filter_ensures;

    if s.len() > 0 {
        law_remove_without_filter(s.drop_last());
        assert(s.drop_last().push(s.last()) =~= s);
        s.drop_last().lemma_filter_push(s.last(), kept_by(None, None));
    } else {
        assert(remove_matching(s, None, None) =~= s);
    }
}

/// Resolution passes, one after the other.
pub open spec fn run_passes(s: Seq<Peer>, rounds: Seq<Seq<Option<HwAddr>>>) -> Seq<Peer>
    decreases rounds.len(),
{
    if rounds.len() == 0 {
        s
    } else {
        resolve_pass(run_passes(s, rounds.drop_last()), rounds.last())
    }
}

/// Entry `i` is answered with a resolved hardware address in round `k`.
pub open spec fn answers_in(rounds: Seq<Seq<Option<HwAddr>>>, k: int, i: int) -> bool {
    rounds[k][i] matches Some(h) && !is_zero_hw(h)
}

/// Entry `i` is answered with a resolved hardware address in some round.
pub open spec fn answered_in_some_pass(rounds: Seq<Seq<Option<HwAddr>>>, i: int) -> bool {
    exists|k: int| 0 <= k < rounds.len() && #[trigger] answers_in(rounds, k, i)
}

/// Where every peer answers with its hardware address in some pass, the
/// passes up to the last such one leave no entry unresolved; passes change
/// neither the number of entries nor their addresses.
pub proof fn law_resolution_converges(s: Seq<Peer>, rounds: Seq<Seq<Option<HwAddr>>>)
    requires
        forall|k: int| 0 <= k < rounds.len() ==> (#[trigger] rounds[k]).len() == s.len(),
        forall|i: int| 0 <= i < s.len() ==> #[trigger] answered_in_some_pass(rounds, i),
    ensures
        all_resolved_spec(run_passes(s, rounds)),
        run_passes(s, rounds).len() == s.len(),
    decreases rounds.len(),
{
    lemma_passes_resolve(s, rounds);
    assert forall|i: int| 0 <= i < run_passes(s, rounds).len() implies !is_zero_hw(
        #[trigger] run_passes(s, rounds)[i].hw_addr,
    ) by {
        assert(answered_in_some_pass(rounds, i));
        let k = choose|k: int| 0 <= k < rounds.len() && #[trigger] answers_in(rounds, k, i);
    }
}

proof fn lemma_passes_resolve(s: Seq<Peer>, rounds: Seq<Seq<Option<HwAddr>>>)
    requires
        forall|k: int| 0 <= k < rounds.len() ==> (#[trigger] rounds[k]).len() == s.len(),
    ensures
        run_passes(s, rounds).len() == s.len(),
        forall|i: int, k: int|
            0 <= i < s.len() && 0 <= k < rounds.len() && #[trigger] answers_in(rounds, k, i) ==> !is_zero_hw(
                run_passes(s, rounds)[i].hw_addr,
            ),
        forall|i: int|
            0 <= i < s.len() && !is_zero_hw(s[i].hw_addr) ==> !is_zero_hw(
                #[trigger] run_passes(s, rounds)[i].hw_addr,
            ),
    decreases rounds.len(),
{
    if rounds.len() > 0 {
        let init = rounds.drop_last();
        lemma_passes_resolve(s, init);
        let before = run_passes(s, init);
        let last = rounds.last();
        assert(last == rounds[rounds.len() - 1]);
        assert forall|i: int, k: int|
            0 <= i < s.len() && 0 <= k < rounds.len() && #[trigger] answers_in(rounds, k, i) implies !is_zero_hw(
            run_passes(s, rounds)[i].hw_addr,
        ) by {
            if k < rounds.len() - 1 {
                assert(answers_in(init, k, i));
            }
        }
    }
}

/// After a liveness round, an entry that did not answer has no entry with
/// its control address left, and an entry that answered is still there.
pub proof fn law_liveness_round(s: Seq<Peer>, alive: Seq<bool>)
    requires
        unique_ctl(s),
        alive.len() == s.len(),
    ensures
        forall|i: int| 0 <= i < s.len() && !alive[i] ==> !has_ctl(keep_flagged(s, alive), #[trigger] s[i].ctl_addr),
        forall|i: int| 0 <= i < s.len() && alive[i] ==> keep_flagged(s, alive).contains(#[trigger] s[i]),
    decreases s.len(),
{
    if s.len() > 0 {
        let init = s.drop_last();
        let ai = alive.drop_last();
        assert(unique_ctl(init)) by {
            assert forall|a: int, b: int|
                0 <= a < init.len() && 0 <= b < init.len() && a != b implies #[trigger] init[a].ctl_addr
                != #[trigger] init[b].ctl_addr by {
                assert(s[a].ctl_addr != s[b].ctl_addr);
            }
        }
        law_liveness_round(init, ai);
        lemma_keep_flagged_from(init, ai);
        let f = keep_flagged(init, ai);
        let r = keep_flagged(s, alive);
        let n = s.len() - 1;
        assert forall|i: int| 0 <= i < s.len() && !alive[i] implies !has_ctl(r, #[trigger] s[i].ctl_addr) by {
            if i < n {
                assert(init[i] == s[i]);
                assert(ai[i] == alive[i]);
                assert(!has_ctl(f, s[i].ctl_addr));
                if alive[n] {
                    assert(s[n].ctl_addr != s[i].ctl_addr);
                    assert forall|j: int| 0 <= j < r.len() implies r[j].ctl_addr != s[i].ctl_addr by {
                        if j < f.len() {
                            assert(r[j] == f[j]);
                        }
                    }
                }
            } else {
                assert forall|j: int| 0 <= j < f.len() implies f[j].ctl_addr != s[n].ctl_addr by {
                    let k = choose|k: int| 0 <= k < init.len() && init[k] == #[trigger] f[j];
                    assert(s[k].ctl_addr != s[n].ctl_addr);
                }
            }
        }
        assert forall|i: int| 0 <= i < s.len() && alive[i] implies r.contains(#[trigger] s[i]) by {
            if i < n {
                assert(init[i] == s[i]);
                assert(ai[i] == alive[i]);
                assert(f.contains(s[i]));
                let j = choose|j: int| 0 <= j < f.len() && f[j] == s[i];
                if alive[n] {
                    assert(r[j] == s[i]);
                }
            } else {
                assert(r[f.len() as int] == s[n]);
            }
        }
    }
}

} // verus!
