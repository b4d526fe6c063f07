//! The roster of validating peers: admission, key lookup and eviction.

use vstd::prelude::*;

use crate::structures::{FullNodes, ImSync};

verus! {

pub open spec fn has_peer(roster: Seq<FullNodes>, p: Seq<char>) -> bool {
    exists|i: int| 0 <= i < roster.len() && roster[i].peer_id@ == p
}

/// No two roster entries share a peer identity.
pub open spec fn ids_unique(roster: Seq<FullNodes>) -> bool {
    forall|i: int, j: int|
        0 <= i < roster.len() && 0 <= j < roster.len() && i != j ==> roster[i].peer_id@
            != roster[j].peer_id@
}

/// The stored public key of the first entry for peer `p`.
pub open spec fn roster_key(roster: Seq<FullNodes>, p: Seq<char>) -> Option<[u8; 33]>
    decreases roster.len(),
{
    if roster.len() == 0 {
        None
    } else if roster[0].peer_id@ == p {
        Some(roster[0].public_key)
    } else {
        roster_key(roster.drop_first(), p)
    }
}

/// The entry an announce adds to a roster of `size` entries.
pub open spec fn entry_for(a: ImSync, size: int) -> FullNodes {
    FullNodes {
        relay: a.relay,
        peer_id: a.peer_id,
        waiting: (2 * (size + 1)) as i64,
        public_key: a.public_key,
    }
}

/// The roster without the entries of peer `p`.
pub open spec fn without_node(roster: Seq<FullNodes>, p: Seq<char>) -> Seq<FullNodes> {
    roster.filter(|n: FullNodes| n.peer_id@ != p)
}

/// A list of peers without `p`.
pub open spec fn without_peer(peers: Seq<String>, p: Seq<char>) -> Seq<String> {
    peers.filter(|x: String| x@ != p)
}

/// Admits an announcing peer with waiting weight `2 × (roster size + 1)`,
/// unless the roster already has an entry for its identity. Returns whether
/// it was admitted.
pub fn handle_sync_message(fullnode_subs: &mut Vec<FullNodes>, announce: &ImSync) -> (r: bool)
    requires
        old(fullnode_subs)@.len() < 0x3FFF_FFFF_FFFF_FFFF,
    ensures
        r == !has_peer(old(fullnode_subs)@, announce.peer_id@),
        r ==> final(fullnode_subs)@ == old(fullnode_subs)@.push(
            entry_for(*announce, old(fullnode_subs)@.len() as int),
        ),
        !r ==> final(fullnode_subs)@ == old(fullnode_subs)@,
        ids_unique(old(fullnode_subs)@) ==> ids_unique(final(fullnode_subs)@),
{
    let size = fullnode_subs.len();
    let mut i: usize = 0;
    while i < fullnode_subs.len()
        invariant
            i <= fullnode_subs@.len(),
            fullnode_subs@ == old(fullnode_subs)@,
            forall|j: int| 0 <= j < i ==> fullnode_subs@[j].peer_id@ != announce.peer_id@,
        decreases fullnode_subs@.len() - i,
    {
        if fullnode_subs[i].peer_id == announce.peer_id {
            return false;
        }
        i = i + 1;
    }
    let new_fullnode = FullNodes {
        relay: announce.relay.clone(),
        peer_id: announce.peer_id.clone(),
        waiting: ((size as i64) + 1) * 2,
        public_key: announce.public_key,
    };
    fullnode_subs.push(new_fullnode);
    let ghost s0 = old(fullnode_subs)@;
    assert(fullnode_subs@ =~= s0.push(entry_for(*announce, s0.len() as int)));
    assert(ids_unique(s0) ==> ids_unique(fullnode_subs@)) by {
        if ids_unique(s0) {
            assert forall|a: int, b: int|
                0 <= a < fullnode_subs@.len() && 0 <= b < fullnode_subs@.len() && a != b implies fullnode_subs@[a].peer_id@
                != fullnode_subs@[b].peer_id@ by {
                if a == s0.len() {
                    assert(s0[b].peer_id@ != announce.peer_id@);
                } else if b == s0.len() {
                    assert(s0[a].peer_id@ != announce.peer_id@);
                }
            }
        }
    }
    true
}

/// The stored public key of the first roster entry for `peer_id`.
pub fn find_roster_key(roster: &Vec<FullNodes>, peer_id: &String) -> (r: Option<[u8; 33]>)
    ensures
        r == roster_key(roster@, peer_id@),
{
    let mut i: usize = 0;
    assert(roster@.skip(0) =~= roster@);
    while i < roster.len()
        invariant
            i <= roster@.len(),
            roster_key(roster@, peer_id@) == roster_key(roster@.skip(i as int), peer_id@),
        decreases roster@.len() - i,
    {
        let ghost rest = roster@.skip(i as int);
        assert(rest[0] == roster@[i as int]);
        assert(rest.drop_first() =~= roster@.skip(i + 1));
        if roster[i].peer_id == *peer_id {
            return Some(roster[i].public_key);
        }
        i = i + 1;
    }
    assert(roster@.skip(i as int).len() == 0);
    None
}

/// Removes every roster entry of peer `p`, keeping the others in order.
pub fn evict_fullnode(roster: &mut Vec<FullNodes>, p: &String)
    ensures
        final(roster)@ == without_node(old(roster)@, p@),
{
    let ghost orig = old(roster)@;
    let ghost pred = |n: FullNodes| n.peer_id@ != p@;
    let mut rest: Vec<FullNodes> = Vec::new();
    std::mem::swap(roster, &mut rest);
    let ghost mut n: int = 0;
    assert(orig.take(0).filter(pred) =~= Seq::<FullNodes>::empty()) by {
        reveal(Seq::filter);
    }
    assert(orig.skip(0) =~= orig);
    while rest.len() > 0
        invariant
            0 <= n <= orig.len(),
            rest@ == orig.skip(n),
            roster@ == orig.take(n).filter(pred),
            pred == (|n: FullNodes| n.peer_id@ != p@),
        decreases rest@.len(),
    {
        let x = rest.remove(0);
        proof {
            assert(orig.take(n + 1) =~= orig.take(n).push(x));
            orig.take(n).lemma_filter_push(x, pred);
            assert(orig.skip(n + 1) =~= orig.skip(n).drop_first());
            n = n + 1;
        }
        if x.peer_id != *p {
            roster.push(x);
        }
    }
    assert(orig.take(n) =~= orig);
}

/// Removes every occurrence of peer `p` from a list of peers.
pub fn evict_peer(peers: &mut Vec<String>, p: &String)
    ensures
        final(peers)@ == without_peer(old(peers)@, p@),
{
    let ghost orig = old(peers)@;
    let ghost pred = |x: String| x@ != p@;
    let mut rest: Vec<String> = Vec::new();
    std::mem::swap(peers, &mut rest);
    let ghost mut n: int = 0;
    assert(orig.take(0).filter(pred) =~= Seq::<String>::empty()) by {
        reveal(Seq::filter);
    }
    assert(orig.skip(0) =~= orig);
    while rest.len() > 0
        invariant
            0 <= n <= orig.len(),
            rest@ == orig.skip(n),
            peers@ == orig.take(n).filter(pred),
            pred == (|x: String| x@ != p@),
        decreases rest@.len(),
    {
        let x = rest.remove(0);
        proof {
            assert(orig.take(n + 1) =~= orig.take(n).push(x));
            orig.take(n).lemma_filter_push(x, pred);
            assert(orig.skip(n + 1) =~= orig.skip(n).drop_first());
            n = n + 1;
        }
        if x != *p {
            peers.push(x);
        }
    }
    assert(orig.take(n) =~= orig);
}

} // verus!
