//! Integrity and signature checks of transactions, independent of any block.

use vstd::prelude::*;

use crate::crypto::{create_hash, ecdsa_verifies, sha256_hex, verify_signature};
use crate::structures::{Block, Transaction};

verus! {

/// The three hashes of a transaction match the data they commit to.
pub open spec fn hashes_consistent(tx: Transaction) -> bool {
    &&& tx.input.input_hash@ == sha256_hex(tx.input.input_data_json@)
    &&& tx.output.output_hash@ == sha256_hex(tx.output.output_data_json@)
    &&& tx.tx_hash@ == sha256_hex(tx.input.input_hash@ + tx.output.output_hash@)
}

/// The first signature signs the transaction hash under the first signer key.
pub open spec fn signed_by_first_signer(tx: Transaction) -> bool {
    &&& tx.input.signatures@.len() > 0
    &&& tx.output.output_data.sigenr_public_keys@.len() > 0
    &&& ecdsa_verifies(
        tx.input.signatures@[0]@,
        tx.tx_hash@,
        tx.output.output_data.sigenr_public_keys@[0]@,
    )
}

pub open spec fn tx_valid(tx: Transaction) -> bool {
    hashes_consistent(tx) && signed_by_first_signer(tx)
}

/// Every transaction of the block passes its checks.
pub open spec fn txs_valid(b: Block) -> bool {
    forall|i: int| 0 <= i < b.body.transactions@.len() ==> tx_valid(#[trigger] b.body.transactions@[i])
}

/// Recomputes the input, output and transaction hashes and checks the first
/// signature; a transaction without a signature or a signer fails.
pub fn check_tx(tx: &Transaction) -> (r: bool)
    ensures
        r == tx_valid(*tx),
{
    let input_hash = create_hash(tx.input.input_data_json.as_str());
    let output_hash = create_hash(tx.output.output_data_json.as_str());
    let joined = tx.input.input_hash.clone().concat(tx.output.output_hash.as_str());
    let check_hash = create_hash(joined.as_str());
    let hashes_ok = tx.input.input_hash == input_hash && tx.output.output_hash == output_hash
        && tx.tx_hash == check_hash;
    if tx.input.signatures.len() == 0 || tx.output.output_data.sigenr_public_keys.len() == 0 {
        return false;
    }
    let sign_ok = verify_signature(
        &tx.input.signatures[0],
        tx.tx_hash.as_str(),
        &tx.output.output_data.sigenr_public_keys[0],
    );
    hashes_ok && sign_ok
}

/// Checks every transaction of the block, without changing anything.
pub fn check_txs(block: &Block) -> (r: bool)
    ensures
        r == txs_valid(*block),
{
    let txs = &block.body.transactions;
    let mut all_ok = true;
    let mut i: usize = 0;
    while i < txs.len()
        invariant
            i <= txs@.len(),
            txs == &block.body.transactions,
            all_ok == forall|j: int| 0 <= j < i ==> tx_valid(#[trigger] txs@[j]),
        decreases txs@.len() - i,
    {
        if !check_tx(&txs[i]) {
            all_ok = false;
        }
        i = i + 1;
    }
    all_ok
}

/// Hash integrity: a transaction that passes its checks commits to its input
/// and output encodings through its three hashes, and a copy whose input
/// encoding was changed to one with another digest fails the checks.
pub proof fn lemma_changed_input_fails(tx: Transaction, changed: Transaction)
    requires
        tx_valid(tx),
        changed.tx_hash == tx.tx_hash,
        changed.input.input_hash == tx.input.input_hash,
        sha256_hex(changed.input.input_data_json@) != sha256_hex(tx.input.input_data_json@),
    ensures
        tx.input.input_hash@ == sha256_hex(tx.input.input_data_json@),
        tx.output.output_hash@ == sha256_hex(tx.output.output_data_json@),
        tx.tx_hash@ == sha256_hex(tx.input.input_hash@ + tx.output.output_hash@),
        !tx_valid(changed),
{
}

} // verus!
