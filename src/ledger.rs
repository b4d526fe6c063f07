//! The ledger: accepted blocks, each owner's unspent outputs, and receipts.

use vstd::prelude::*;

use crate::structures::{Block, UtxoData};

verus! {

/// The unspent outputs owned by one public key.
#[derive(Clone, Debug)]
pub struct UtxoSet {
    pub public_key: String,
    pub utxos: Vec<UtxoData>,
}

/// What a confirmation receipt stands for.
#[derive(Clone, Copy, Debug, PartialEq, Eq, Structural)]
pub enum ReceiptKind {
    Coinbase,
    Transfer,
}

/// A confirmation of a transaction at a block height.
#[derive(Clone, Debug)]
pub struct Receipt {
    pub tx_hash: String,
    pub block_number: i64,
    pub kind: ReceiptKind,
}

/// The store the consensus engine reads and writes: blocks in the order
/// they were accepted, the UTXO sets, and the receipts issued.
#[derive(Debug)]
pub struct Ledger {
    pub blocks: Vec<Block>,
    pub utxo_sets: Vec<UtxoSet>,
    pub receipts: Vec<Receipt>,
}

/// The abstract UTXO state: each owner key's outputs, in insertion order.
pub type UtxoMap = Map<Seq<char>, Seq<UtxoData>>;

pub open spec fn holds_output(s: Seq<UtxoData>, h: Seq<char>) -> bool {
    exists|i: int| 0 <= i < s.len() && s[i].output_hash@ == h
}

pub open spec fn output_position(s: Seq<UtxoData>, h: Seq<char>) -> int {
    choose|i: int| 0 <= i < s.len() && s[i].output_hash@ == h
}

pub open spec fn outputs_unique(s: Seq<UtxoData>) -> bool {
    forall|i: int, j: int|
        0 <= i < s.len() && 0 <= j < s.len() && i != j ==> s[i].output_hash@ != s[j].output_hash@
}

/// Every owner's outputs have distinct output hashes.
pub open spec fn map_wf(m: UtxoMap) -> bool {
    forall|k: Seq<char>| m.contains_key(k) ==> outputs_unique(#[trigger] m[k])
}

/// Adds `e` to `owner`'s outputs unless an output with its hash is already there.
pub open spec fn credit(m: UtxoMap, owner: Seq<char>, e: UtxoData) -> UtxoMap {
    if m.contains_key(owner) {
        if holds_output(m[owner], e.output_hash@) {
            m
        } else {
            m.insert(owner, m[owner].push(e))
        }
    } else {
        m.insert(owner, seq![e])
    }
}

/// Removes the output with hash `h` from `owner`'s outputs; nothing when absent.
pub open spec fn debit(m: UtxoMap, owner: Seq<char>, h: Seq<char>) -> UtxoMap {
    if m.contains_key(owner) && holds_output(m[owner], h) {
        m.insert(owner, m[owner].remove(output_position(m[owner], h)))
    } else {
        m
    }
}

pub open spec fn owns(sets: Seq<UtxoSet>, k: Seq<char>) -> bool {
    exists|i: int| 0 <= i < sets.len() && sets[i].public_key@ == k
}

pub open spec fn owner_index(sets: Seq<UtxoSet>, k: Seq<char>) -> int {
    choose|i: int| 0 <= i < sets.len() && sets[i].public_key@ == k
}

pub open spec fn keys_unique(sets: Seq<UtxoSet>) -> bool {
    forall|i: int, j: int|
        0 <= i < sets.len() && 0 <= j < sets.len() && i != j
            ==> sets[i].public_key@ != sets[j].public_key@
}

pub open spec fn sets_map(sets: Seq<UtxoSet>) -> UtxoMap {
    Map::new(|k: Seq<char>| owns(sets, k), |k: Seq<char>| sets[owner_index(sets, k)].utxos@)
}

proof fn lemma_owner_index(sets: Seq<UtxoSet>, i: int)
    requires
        keys_unique(sets),
        0 <= i < sets.len(),
    ensures
        owns(sets, sets[i].public_key@),
        owner_index(sets, sets[i].public_key@) == i,
        sets_map(sets).contains_key(sets[i].public_key@),
        sets_map(sets)[sets[i].public_key@] == sets[i].utxos@,
{
    let k = sets[i].public_key@;
    assert(owns(sets, k));
    let j = owner_index(sets, k);
    assert(sets[j].public_key@ == k);
}

proof fn lemma_unique_position(s: Seq<UtxoData>, p: int)
    requires
        outputs_unique(s),
        0 <= p < s.len(),
    ensures
        holds_output(s, s[p].output_hash@),
        output_position(s, s[p].output_hash@) == p,
{
    let h = s[p].output_hash@;
    assert(holds_output(s, h));
    let q = output_position(s, h);
    assert(s[q].output_hash@ == h);
}

/// Replacing the outputs of one owner's set changes the map at that owner only.
proof fn lemma_replace_outputs(sets0: Seq<UtxoSet>, sets1: Seq<UtxoSet>, i: int)
    requires
        keys_unique(sets0),
        0 <= i < sets0.len(),
        sets1.len() == sets0.len(),
        sets1[i].public_key == sets0[i].public_key,
        forall|j: int| 0 <= j < sets0.len() && j != i ==> sets1[j] == sets0[j],
    ensures
        keys_unique(sets1),
        sets_map(sets1) == sets_map(sets0).insert(sets0[i].public_key@, sets1[i].utxos@),
{
    assert(keys_unique(sets1)) by {
        assert forall|a: int, b: int|
            0 <= a < sets1.len() && 0 <= b < sets1.len() && a != b implies sets1[a].public_key@
            != sets1[b].public_key@ by {
            assert(sets0[a].public_key@ != sets0[b].public_key@);
        }
    }
    let m = sets_map(sets0).insert(sets0[i].public_key@, sets1[i].utxos@);
    lemma_owner_index(sets0, i);
    assert forall|k: Seq<char>| #[trigger] owns(sets1, k) == owns(sets0, k) by {
        if owns(sets0, k) {
            let j = owner_index(sets0, k);
            assert(sets1[j].public_key@ == k);
        }
        if owns(sets1, k) {
            let j = owner_index(sets1, k);
            assert(sets0[j].public_key@ == k);
        }
    }
    assert forall|k: Seq<char>| owns(sets1, k) implies #[trigger] sets_map(sets1)[k] == m[k] by {
        let j = owner_index(sets0, k);
        lemma_owner_index(sets0, j);
        lemma_owner_index(sets1, j);
    }
    assert(sets_map(sets1) =~= m);
}

impl Ledger {
    /// A ledger with no blocks, outputs or receipts.
    pub fn new() -> (r: Ledger)
        ensures
            r.wf(),
            r.blocks@.len() == 0,
            r.utxo_map() == UtxoMap::empty(),
            r.receipts@.len() == 0,
    {
        let r = Ledger { blocks: Vec::new(), utxo_sets: Vec::new(), receipts: Vec::new() };
        assert(r.utxo_map() =~= UtxoMap::empty());
        r
    }

    pub open spec fn utxo_map(&self) -> UtxoMap {
        sets_map(self.utxo_sets@)
    }

    /// Owner keys are distinct, and so are the output hashes of each owner.
    pub open spec fn wf(&self) -> bool {
        &&& keys_unique(self.utxo_sets@)
        &&& forall|i: int|
            0 <= i < self.utxo_sets@.len() ==> outputs_unique(#[trigger] self.utxo_sets@[i].utxos@)
    }

    /// The position of `owner`'s set, if it has one.
    pub fn find_owner(&self, owner: &String) -> (r: Option<usize>)
        requires
            self.wf(),
        ensures
            r matches Some(i) ==> (i < self.utxo_sets@.len() && self.utxo_sets@[i as int].public_key@
                == owner@),
            r is None ==> !self.utxo_map().contains_key(owner@),
    {
        let mut i: usize = 0;
        while i < self.utxo_sets.len()
            invariant
                i <= self.utxo_sets@.len(),
                forall|j: int| 0 <= j < i ==> self.utxo_sets@[j].public_key@ != owner@,
            decreases self.utxo_sets@.len() - i,
        {
            if self.utxo_sets[i].public_key == *owner {
                return Some(i);
            }
            i = i + 1;
        }
        None
    }

    /// The position of the output with hash `h` in the set at `i`, if any.
    fn find_output(&self, i: usize, h: &String) -> (r: Option<usize>)
        requires
            i < self.utxo_sets@.len(),
        ensures
            r matches Some(p) ==> (p < self.utxo_sets@[i as int].utxos@.len()
                && self.utxo_sets@[i as int].utxos@[p as int].output_hash@ == h@),
            r is None ==> !holds_output(self.utxo_sets@[i as int].utxos@, h@),
    {
        let set = &self.utxo_sets[i];
        assert(set.utxos@ == self.utxo_sets@[i as int].utxos@);
        let mut p: usize = 0;
        while p < set.utxos.len()
            invariant
                p <= set.utxos@.len(),
                i < self.utxo_sets@.len(),
                set.utxos@ == self.utxo_sets@[i as int].utxos@,
                forall|q: int| 0 <= q < p ==> set.utxos@[q].output_hash@ != h@,
            decreases set.utxos@.len() - p,
        {
            if set.utxos[p].output_hash == *h {
                return Some(p);
            }
            p = p + 1;
        }
        None
    }

    /// Gives `entry` to `owner` unless that owner already holds an output
    /// with the same hash; creates the owner's set when it has none.
    pub fn credit_output(&mut self, owner: &String, entry: UtxoData)
        requires
            old(self).wf(),
        ensures
            final(self).wf(),
            final(self).utxo_map() == credit(old(self).utxo_map(), owner@, entry),
            final(self).blocks == old(self).blocks,
            final(self).receipts == old(self).receipts,
    {
        let ghost m0 = self.utxo_map();
        let ghost sets0 = self.utxo_sets@;
        match self.find_owner(owner) {
            Some(i) => {
                proof {
                    lemma_owner_index(sets0, i as int);
                }
                match self.find_output(i, &entry.output_hash) {
                    Some(_) => {
                        assert(holds_output(m0[owner@], entry.output_hash@));
                    },
                    None => {
                        let ghost e = entry;
                        self.utxo_sets[i].utxos.push(entry);
                        let ghost sets1 = self.utxo_sets@;
                        assert(sets1[i as int].utxos@ == sets0[i as int].utxos@.push(e));
                        assert forall|a: int| 0 <= a < sets1.len() implies outputs_unique(
                            #[trigger] sets1[a].utxos@,
                        ) by {
                            if a == i as int {
                                assert forall|x: int, y: int|
                                    0 <= x < sets1[a].utxos@.len() && 0 <= y
                                        < sets1[a].utxos@.len() && x != y implies sets1[a].utxos@[x].output_hash@
                                    != sets1[a].utxos@[y].output_hash@ by {
                                    let s0 = sets0[a].utxos@;
                                    if x < s0.len() && y == s0.len() {
                                        assert(s0[x].output_hash@ != e.output_hash@);
                                    } else if y < s0.len() && x == s0.len() {
                                        assert(s0[y].output_hash@ != e.output_hash@);
                                    }
                                }
                            }
                        }
                        proof {
                            lemma_replace_outputs(sets0, sets1, i as int);
                        }
                        assert(self.utxo_map() =~= credit(m0, owner@, e));
                    },
                }
            },
            None => {
                let ghost e = entry;
                let mut utxos: Vec<UtxoData> = Vec::new();
                utxos.push(entry);
                self.utxo_sets.push(UtxoSet { public_key: owner.clone(), utxos });
                let ghost sets1 = self.utxo_sets@;
                let ghost n = sets0.len() as int;
                assert(!owns(sets0, owner@));
                assert(keys_unique(sets1)) by {
                    assert forall|a: int, b: int|
                        0 <= a < sets1.len() && 0 <= b < sets1.len() && a != b implies sets1[a].public_key@
                        != sets1[b].public_key@ by {
                        if a == n {
                            assert(sets0[b].public_key@ != owner@);
                        } else if b == n {
                            assert(sets0[a].public_key@ != owner@);
                        }
                    }
                }
                assert(sets1[n].utxos@ =~= seq![e]);
                assert(self.utxo_map() =~= credit(m0, owner@, e)) by {
                    lemma_owner_index(sets1, n);
                    assert forall|k: Seq<char>| #[trigger]
                        owns(sets1, k) == (owns(sets0, k) || k == owner@) by {
                        if owns(sets0, k) {
                            let j = owner_index(sets0, k);
                            assert(sets1[j].public_key@ == k);
                        }
                        if owns(sets1, k) && k != owner@ {
                            let j = owner_index(sets1, k);
                            assert(j != n);
                            assert(sets0[j].public_key@ == k);
                        }
                    }
                    assert forall|k: Seq<char>| owns(sets1, k) implies #[trigger] sets_map(sets1)[k]
                        == credit(m0, owner@, e)[k] by {
                        if k != owner@ {
                            let j = owner_index(sets0, k);
                            lemma_owner_index(sets0, j);
                            lemma_owner_index(sets1, j);
                        }
                    }
                }
            },
        }
    }

    /// Removes the output with hash `h` from `owner`'s set; a spend of an
    /// output that is not there changes nothing.
    pub fn spend_output(&mut self, owner: &String, h: &String)
        requires
            old(self).wf(),
        ensures
            final(self).wf(),
            final(self).utxo_map() == debit(old(self).utxo_map(), owner@, h@),
            final(self).blocks == old(self).blocks,
            final(self).receipts == old(self).receipts,
    {
        let ghost m0 = self.utxo_map();
        let ghost sets0 = self.utxo_sets@;
        if let Some(i) = self.find_owner(owner) {
            proof {
                lemma_owner_index(sets0, i as int);
            }
            if let Some(p) = self.find_output(i, h) {
                proof {
                    lemma_unique_position(sets0[i as int].utxos@, p as int);
                }
                self.utxo_sets[i].utxos.remove(p);
                let ghost sets1 = self.utxo_sets@;
                let ghost s0 = sets0[i as int].utxos@;
                assert(sets1[i as int].utxos@ == s0.remove(p as int));
                assert forall|a: int| 0 <= a < sets1.len() implies outputs_unique(
                    #[trigger] sets1[a].utxos@,
                ) by {
                    if a == i as int {
                        assert forall|x: int, y: int|
                            0 <= x < sets1[a].utxos@.len() && 0 <= y < sets1[a].utxos@.len() && x
                                != y implies sets1[a].utxos@[x].output_hash@
                            != sets1[a].utxos@[y].output_hash@ by {
                            let x0 = if x < p { x } else { x + 1 };
                            let y0 = if y < p { y } else { y + 1 };
                            assert(s0[x0].output_hash@ != s0[y0].output_hash@);
                        }
                    }
                }
                proof {
                    lemma_replace_outputs(sets0, sets1, i as int);
                }
                assert(self.utxo_map() =~= debit(m0, owner@, h@));
            } else {
                assert(!holds_output(m0[owner@], h@));
            }
        }
    }
}

} // verus!
