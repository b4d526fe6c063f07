//! Applying an accepted block's economic effects to the UTXO sets.

use vstd::prelude::*;

use crate::crypto::{public_key_text, ss58_text};
use crate::ledger::{
    credit, debit, holds_output, map_wf, output_position, outputs_unique, Ledger, Receipt,
    ReceiptKind, UtxoMap,
};
use crate::structures::{Block, OutputUtxo, Transaction, UtxoData};

verus! {

/// One change to the UTXO sets.
pub enum UtxoOp {
    /// Give an output to an owner.
    Credit(Seq<char>, UtxoData),
    /// Spend the output with a hash from an owner.
    Debit(Seq<char>, Seq<char>),
}

pub open spec fn apply_op(m: UtxoMap, op: UtxoOp) -> UtxoMap {
    match op {
        UtxoOp::Credit(o, e) => credit(m, o, e),
        UtxoOp::Debit(o, h) => debit(m, o, h),
    }
}

pub open spec fn apply_ops(m: UtxoMap, ops: Seq<UtxoOp>) -> UtxoMap
    decreases ops.len(),
{
    if ops.len() == 0 {
        m
    } else {
        apply_op(apply_ops(m, ops.drop_last()), ops.last())
    }
}

/// The ledger record of output `o` of the transaction `tx_hash` in block `number`.
pub open spec fn entry_of(tx_hash: String, o: OutputUtxo, number: i64) -> UtxoData {
    UtxoData {
        transaction_hash: tx_hash,
        unspent: o.output_unspent.unspent.rounded(),
        output_hash: o.hash,
        block_number: number,
    }
}

pub open spec fn credit_ops(tx_hash: String, outs: Seq<OutputUtxo>, number: i64) -> Seq<UtxoOp> {
    outs.map_values(
        |o: OutputUtxo| UtxoOp::Credit(o.output_unspent.public_key@, entry_of(tx_hash, o, number)),
    )
}

pub open spec fn debit_ops(owner: Seq<char>, ins: Seq<UtxoData>) -> Seq<UtxoOp> {
    ins.map_values(|u: UtxoData| UtxoOp::Debit(owner, u.output_hash@))
}

/// The owner key of the outputs a transaction spends: its first signer.
pub open spec fn spender(tx: Transaction) -> Seq<char> {
    ss58_text(tx.output.output_data.sigenr_public_keys@[0]@)
}

/// A transaction spends its inputs, then creates its outputs.
pub open spec fn tx_ops(tx: Transaction, number: i64) -> Seq<UtxoOp> {
    debit_ops(spender(tx), tx.input.input_data.utxos@) + credit_ops(
        tx.tx_hash,
        tx.output.output_data.utxos@,
        number,
    )
}

pub open spec fn txs_ops(txs: Seq<Transaction>, number: i64) -> Seq<UtxoOp>
    decreases txs.len(),
{
    if txs.len() == 0 {
        Seq::empty()
    } else {
        txs_ops(txs.drop_last(), number) + tx_ops(txs.last(), number)
    }
}

/// The coinbase reward first, then each transaction in the block's order.
pub open spec fn block_ops(b: Block) -> Seq<UtxoOp> {
    credit_ops(b.body.coinbase.tx_hash, b.body.coinbase.utxos@, b.header.number) + txs_ops(
        b.body.transactions@,
        b.header.number,
    )
}

/// Every transaction names a signer, whose key owns the outputs it spends.
pub open spec fn signers_named(b: Block) -> bool {
    forall|i: int|
        0 <= i < b.body.transactions@.len()
            ==> #[trigger] b.body.transactions@[i].output.output_data.sigenr_public_keys@.len() > 0
}

pub open spec fn coinbase_receipts(b: Block) -> Seq<Receipt> {
    seq![
        Receipt {
            tx_hash: b.body.coinbase.tx_hash,
            block_number: b.header.number,
            kind: ReceiptKind::Coinbase,
        },
    ]
}

pub open spec fn tx_receipts(b: Block) -> Seq<Receipt> {
    b.body.transactions@.map_values(
        |t: Transaction|
            Receipt { tx_hash: t.tx_hash, block_number: b.header.number, kind: ReceiptKind::Transfer },
    )
}

proof fn lemma_apply_ops_push(m: UtxoMap, ops: Seq<UtxoOp>, op: UtxoOp)
    ensures
        apply_ops(m, ops.push(op)) == apply_op(apply_ops(m, ops), op),
{
    assert(ops.push(op).drop_last() =~= ops);
}

proof fn lemma_apply_ops_concat(m: UtxoMap, a: Seq<UtxoOp>, b: Seq<UtxoOp>)
    ensures
        apply_ops(m, a + b) == apply_ops(apply_ops(m, a), b),
    decreases b.len(),
{
    if b.len() == 0 {
        assert(a + b =~= a);
    } else {
        lemma_apply_ops_concat(m, a, b.drop_last());
        assert((a + b).drop_last() =~= a + b.drop_last());
    }
}

/// Gives each coinbase output to its owner, once, and records the coinbase receipt.
pub fn handle_block_reward(ledger: &mut Ledger, block: &Block)
    requires
        old(ledger).wf(),
    ensures
        final(ledger).wf(),
        final(ledger).utxo_map() == apply_ops(
            old(ledger).utxo_map(),
            credit_ops(block.body.coinbase.tx_hash, block.body.coinbase.utxos@, block.header.number),
        ),
        final(ledger).receipts@ == old(ledger).receipts@ + coinbase_receipts(*block),
        final(ledger).blocks == old(ledger).blocks,
{
    let coinbase = &block.body.coinbase;
    let number = block.header.number;
    ledger.receipts.push(
        Receipt { tx_hash: coinbase.tx_hash.clone(), block_number: number, kind: ReceiptKind::Coinbase },
    );
    let ghost m0 = ledger.utxo_map();
    let ghost r0 = old(ledger).receipts@;
    assert(ledger.receipts@ =~= r0 + coinbase_receipts(*block));
    let mut j: usize = 0;
    while j < coinbase.utxos.len()
        invariant
            j <= coinbase.utxos@.len(),
            coinbase == &block.body.coinbase,
            number == block.header.number,
            ledger.wf(),
            ledger.utxo_map() == apply_ops(
                m0,
                credit_ops(coinbase.tx_hash, coinbase.utxos@.take(j as int), number),
            ),
            ledger.receipts@ == r0 + coinbase_receipts(*block),
            ledger.blocks == old(ledger).blocks,
        decreases coinbase.utxos@.len() - j,
    {
        let out = &coinbase.utxos[j];
        let entry = UtxoData {
            transaction_hash: coinbase.tx_hash.clone(),
            unspent: out.output_unspent.unspent.round_dp12(),
            output_hash: out.hash.clone(),
            block_number: number,
        };
        proof {
            let ops = credit_ops(coinbase.tx_hash, coinbase.utxos@.take(j as int), number);
            let op = UtxoOp::Credit(out.output_unspent.public_key@, entry);
            assert(credit_ops(coinbase.tx_hash, coinbase.utxos@.take(j + 1), number) =~= ops.push(op));
            lemma_apply_ops_push(m0, ops, op);
        }
        ledger.credit_output(&out.output_unspent.public_key, entry);
        j = j + 1;
    }
    assert(coinbase.utxos@.take(j as int) =~= coinbase.utxos@);
}

/// For each transaction in order: records its receipt, spends its inputs from
/// the first signer's set, and gives each of its outputs to its owner, once.
pub fn handle_tx_utxos(ledger: &mut Ledger, block: &Block)
    requires
        old(ledger).wf(),
        signers_named(*block),
    ensures
        final(ledger).wf(),
        final(ledger).utxo_map() == apply_ops(
            old(ledger).utxo_map(),
            txs_ops(block.body.transactions@, block.header.number),
        ),
        final(ledger).receipts@ == old(ledger).receipts@ + tx_receipts(*block),
        final(ledger).blocks == old(ledger).blocks,
{
    let txs = &block.body.transactions;
    let number = block.header.number;
    let ghost m0 = ledger.utxo_map();
    let ghost r0 = ledger.receipts@;
    let ghost rf = |t: Transaction|
        Receipt { tx_hash: t.tx_hash, block_number: number, kind: ReceiptKind::Transfer };
    let mut i: usize = 0;
    while i < txs.len()
        invariant
            i <= txs@.len(),
            txs == &block.body.transactions,
            number == block.header.number,
            signers_named(*block),
            rf == (|t: Transaction|
                Receipt { tx_hash: t.tx_hash, block_number: number, kind: ReceiptKind::Transfer }),
            ledger.wf(),
            ledger.utxo_map() == apply_ops(m0, txs_ops(txs@.take(i as int), number)),
            ledger.receipts@ == r0 + txs@.take(i as int).map_values(rf),
            ledger.blocks == old(ledger).blocks,
        decreases txs@.len() - i,
    {
        let tx = &txs[i];
        let ghost base = txs_ops(txs@.take(i as int), number);
        let ghost rs = ledger.receipts@;
        ledger.receipts.push(
            Receipt { tx_hash: tx.tx_hash.clone(), block_number: number, kind: ReceiptKind::Transfer },
        );
        assert(txs@.take(i + 1).map_values(rf) =~= txs@.take(i as int).map_values(rf).push(rf(*tx)));
        assert(ledger.receipts@ =~= r0 + txs@.take(i + 1).map_values(rf));
        assert(tx.output.output_data.sigenr_public_keys@.len() > 0);
        let owner = public_key_text(&tx.output.output_data.sigenr_public_keys[0]);
        assert(owner@ == spender(*tx));
        let ins = &tx.input.input_data.utxos;
        let mut k: usize = 0;
        while k < ins.len()
            invariant
                k <= ins@.len(),
                ins == &tx.input.input_data.utxos,
                owner@ == spender(*tx),
                ledger.wf(),
                ledger.utxo_map() == apply_ops(m0, base + debit_ops(owner@, ins@.take(k as int))),
                ledger.receipts@ == r0 + txs@.take(i + 1).map_values(rf),
                ledger.blocks == old(ledger).blocks,
            decreases ins@.len() - k,
        {
            proof {
                let d = debit_ops(owner@, ins@.take(k as int));
                let op = UtxoOp::Debit(owner@, ins@[k as int].output_hash@);
                assert(debit_ops(owner@, ins@.take(k + 1)) =~= d.push(op));
                assert(base + d.push(op) =~= (base + d).push(op));
                lemma_apply_ops_push(m0, base + d, op);
            }
            ledger.spend_output(&owner, &ins[k].output_hash);
            k = k + 1;
        }
        assert(ins@.take(k as int) =~= ins@);
        let ghost mid = base + debit_ops(owner@, ins@);
        let outs = &tx.output.output_data.utxos;
        let mut j: usize = 0;
        while j < outs.len()
            invariant
                j <= outs@.len(),
                outs == &tx.output.output_data.utxos,
                number == block.header.number,
                ledger.wf(),
                ledger.utxo_map() == apply_ops(
                    m0,
                    mid + credit_ops(tx.tx_hash, outs@.take(j as int), number),
                ),
                ledger.receipts@ == r0 + txs@.take(i + 1).map_values(rf),
                ledger.blocks == old(ledger).blocks,
            decreases outs@.len() - j,
        {
            let out = &outs[j];
            let entry = UtxoData {
                transaction_hash: tx.tx_hash.clone(),
                unspent: out.output_unspent.unspent.round_dp12(),
                output_hash: out.hash.clone(),
                block_number: number,
            };
            proof {
                let c = credit_ops(tx.tx_hash, outs@.take(j as int), number);
                let op = UtxoOp::Credit(out.output_unspent.public_key@, entry);
                assert(credit_ops(tx.tx_hash, outs@.take(j + 1), number) =~= c.push(op));
                assert(mid + c.push(op) =~= (mid + c).push(op));
                lemma_apply_ops_push(m0, mid + c, op);
            }
            ledger.credit_output(&out.output_unspent.public_key, entry);
            j = j + 1;
        }
        assert(outs@.take(j as int) =~= outs@);
        assert(txs_ops(txs@.take(i + 1), number) =~= base + tx_ops(*tx, number)) by {
            assert(txs@.take(i + 1).drop_last() =~= txs@.take(i as int));
        }
        assert(mid + credit_ops(tx.tx_hash, outs@, number) =~= base + tx_ops(*tx, number));
        i = i + 1;
    }
    assert(txs@.take(i as int) =~= txs@);
    assert(tx_receipts(*block) =~= txs@.map_values(rf));
}

/// Applies a block's coinbase reward and then its transactions.
pub fn apply_block(ledger: &mut Ledger, block: &Block)
    requires
        old(ledger).wf(),
        signers_named(*block),
    ensures
        final(ledger).wf(),
        final(ledger).utxo_map() == apply_ops(old(ledger).utxo_map(), block_ops(*block)),
        final(ledger).receipts@ == old(ledger).receipts@ + coinbase_receipts(*block) + tx_receipts(
            *block,
        ),
        final(ledger).blocks == old(ledger).blocks,
{
    handle_block_reward(ledger, block);
    handle_tx_utxos(ledger, block);
    proof {
        lemma_apply_ops_concat(
            old(ledger).utxo_map(),
            credit_ops(block.body.coinbase.tx_hash, block.body.coinbase.utxos@, block.header.number),
            txs_ops(block.body.transactions@, block.header.number),
        );
    }
}

/// `a` creates the output that `b` spends, for the same owner.
pub open spec fn conflict(a: UtxoOp, b: UtxoOp) -> bool {
    match (a, b) {
        (UtxoOp::Credit(o1, e), UtxoOp::Debit(o2, h)) => o1 == o2 && e.output_hash@ == h,
        _ => false,
    }
}

/// No operation spends an output that another one of them creates.
pub open spec fn no_spend_of_own_outputs(ops: Seq<UtxoOp>) -> bool {
    forall|i: int, j: int|
        0 <= i < ops.len() && 0 <= j < ops.len() ==> !conflict(#[trigger] ops[i], #[trigger] ops[j])
}

proof fn lemma_push_holds(s: Seq<UtxoData>, e: UtxoData, h: Seq<char>)
    ensures
        holds_output(s.push(e), h) == (holds_output(s, h) || e.output_hash@ == h),
{
    if holds_output(s, h) {
        let i = choose|i: int| 0 <= i < s.len() && s[i].output_hash@ == h;
        assert(s.push(e)[i] == s[i]);
    }
    if e.output_hash@ == h {
        assert(s.push(e)[s.len() as int] == e);
    }
    if holds_output(s.push(e), h) {
        let i = choose|i: int| 0 <= i < s.push(e).len() && s.push(e)[i].output_hash@ == h;
        if i < s.len() {
            assert(s[i] == s.push(e)[i]);
        }
    }
}

proof fn lemma_remove_holds(s: Seq<UtxoData>, p: int, h: Seq<char>)
    requires
        0 <= p < s.len(),
    ensures
        holds_output(s.remove(p), h) ==> holds_output(s, h),
        holds_output(s, h) && s[p].output_hash@ != h ==> holds_output(s.remove(p), h),
        outputs_unique(s) ==> !holds_output(s.remove(p), s[p].output_hash@),
{
    let r = s.remove(p);
    if holds_output(r, h) {
        let i = choose|i: int| 0 <= i < r.len() && r[i].output_hash@ == h;
        let i0 = if i < p { i } else { i + 1 };
        assert(s[i0] == r[i]);
    }
    if holds_output(s, h) && s[p].output_hash@ != h {
        let i = choose|i: int| 0 <= i < s.len() && s[i].output_hash@ == h;
        assert(i != p);
        let i1 = if i < p { i } else { i - 1 };
        assert(r[i1] == s[i]);
    }
    if outputs_unique(s) && holds_output(r, s[p].output_hash@) {
        let i = choose|i: int| 0 <= i < r.len() && r[i].output_hash@ == s[p].output_hash@;
        let i0 = if i < p { i } else { i + 1 };
        assert(s[i0] == r[i]);
    }
}

proof fn lemma_apply_op_wf(m: UtxoMap, op: UtxoOp)
    requires
        map_wf(m),
    ensures
        map_wf(apply_op(m, op)),
{
    match op {
        UtxoOp::Credit(o, e) => {
            let r = credit(m, o, e);
            assert forall|k: Seq<char>| r.contains_key(k) implies outputs_unique(#[trigger] r[k]) by {
                if k == o && m.contains_key(o) && !holds_output(m[o], e.output_hash@) {
                    let s = m[o];
                    assert forall|x: int, y: int|
                        0 <= x < r[k].len() && 0 <= y < r[k].len() && x != y implies r[k][x].output_hash@
                        != r[k][y].output_hash@ by {
                        if x == s.len() {
                            assert(s[y].output_hash@ != e.output_hash@);
                        } else if y == s.len() {
                            assert(s[x].output_hash@ != e.output_hash@);
                        } else {
                            assert(outputs_unique(m[o]));
                        }
                    }
                } else if k != o {
                    assert(outputs_unique(m[k]));
                }
            }
        },
        UtxoOp::Debit(o, h) => {
            let r = debit(m, o, h);
            assert forall|k: Seq<char>| r.contains_key(k) implies outputs_unique(#[trigger] r[k]) by {
                if k == o && m.contains_key(o) && holds_output(m[o], h) {
                    let s = m[o];
                    let p = output_position(s, h);
                    assert(outputs_unique(s));
                    assert forall|x: int, y: int|
                        0 <= x < r[k].len() && 0 <= y < r[k].len() && x != y implies r[k][x].output_hash@
                        != r[k][y].output_hash@ by {
                        let x0 = if x < p { x } else { x + 1 };
                        let y0 = if y < p { y } else { y + 1 };
                        assert(s[x0].output_hash@ != s[y0].output_hash@);
                    }
                } else {
                    assert(outputs_unique(m[k]));
                }
            }
        },
    }
}

proof fn lemma_apply_ops_wf(m: UtxoMap, ops: Seq<UtxoOp>)
    requires
        map_wf(m),
    ensures
        map_wf(apply_ops(m, ops)),
    decreases ops.len(),
{
    if ops.len() > 0 {
        lemma_apply_ops_wf(m, ops.drop_last());
        lemma_apply_op_wf(apply_ops(m, ops.drop_last()), ops.last());
    }
}

/// An output that the operations create and never spend is held at the end.
proof fn lemma_credited_held(m: UtxoMap, ops: Seq<UtxoOp>, k: int)
    requires
        0 <= k < ops.len(),
        ops[k] is Credit,
        forall|j: int| 0 <= j < ops.len() ==> !conflict(ops[k], #[trigger] ops[j]),
    ensures
        ({
            let r = apply_ops(m, ops);
            let (o, e) = (ops[k]->Credit_0, ops[k]->Credit_1);
            r.contains_key(o) && holds_output(r[o], e.output_hash@)
        }),
    decreases ops.len(),
{
    let (o, e) = (ops[k]->Credit_0, ops[k]->Credit_1);
    let h = e.output_hash@;
    let prev = ops.drop_last();
    let r0 = apply_ops(m, prev);
    if k == ops.len() - 1 {
        if r0.contains_key(o) && !holds_output(r0[o], h) {
            lemma_push_holds(r0[o], e, h);
        } else if !r0.contains_key(o) {
            assert(seq![e][0] == e);
        }
    } else {
        assert forall|j: int| 0 <= j < prev.len() implies !conflict(prev[k], #[trigger] prev[j]) by {
            assert(prev[j] == ops[j]);
        }
        lemma_credited_held(m, prev, k);
        let last = ops.last();
        assert(!conflict(ops[k], ops[ops.len() - 1]));
        match last {
            UtxoOp::Credit(o2, e2) => {
                if o2 == o && !holds_output(r0[o], e2.output_hash@) {
                    lemma_push_holds(r0[o], e2, h);
                }
            },
            UtxoOp::Debit(o2, h2) => {
                if o2 == o && holds_output(r0[o], h2) {
                    let p = output_position(r0[o], h2);
                    lemma_remove_holds(r0[o], p, h);
                }
            },
        }
    }
}

/// An output that the operations spend and never create is absent at the end.
proof fn lemma_debited_gone(m: UtxoMap, ops: Seq<UtxoOp>, k: int)
    requires
        map_wf(m),
        0 <= k < ops.len(),
        ops[k] is Debit,
        forall|j: int| 0 <= j < ops.len() ==> !conflict(#[trigger] ops[j], ops[k]),
    ensures
        ({
            let r = apply_ops(m, ops);
            let (o, h) = (ops[k]->Debit_0, ops[k]->Debit_1);
            !(r.contains_key(o) && holds_output(r[o], h))
        }),
    decreases ops.len(),
{
    let (o, h) = (ops[k]->Debit_0, ops[k]->Debit_1);
    let prev = ops.drop_last();
    let r0 = apply_ops(m, prev);
    lemma_apply_ops_wf(m, prev);
    if k == ops.len() - 1 {
        if r0.contains_key(o) && holds_output(r0[o], h) {
            let p = output_position(r0[o], h);
            assert(outputs_unique(r0[o]));
            lemma_remove_holds(r0[o], p, h);
        }
    } else {
        assert forall|j: int| 0 <= j < prev.len() implies !conflict(#[trigger] prev[j], prev[k]) by {
            assert(prev[j] == ops[j]);
        }
        lemma_debited_gone(m, prev, k);
        let last = ops.last();
        assert(!conflict(ops[ops.len() - 1], ops[k]));
        match last {
            UtxoOp::Credit(o2, e2) => {
                if o2 == o && r0.contains_key(o) && !holds_output(r0[o], e2.output_hash@) {
                    lemma_push_holds(r0[o], e2, h);
                } else if o2 == o && !r0.contains_key(o) {
                    lemma_push_holds(Seq::empty(), e2, h);
                    assert(Seq::<UtxoData>::empty().push(e2) =~= seq![e2]);
                }
            },
            UtxoOp::Debit(o2, h2) => {
                if o2 == o && r0.contains_key(o) && holds_output(r0[o], h2) {
                    let p = output_position(r0[o], h2);
                    lemma_remove_holds(r0[o], p, h);
                }
            },
        }
    }
}

proof fn lemma_noop_ops(s: UtxoMap, ops: Seq<UtxoOp>)
    requires
        forall|i: int| 0 <= i < ops.len() ==> apply_op(s, #[trigger] ops[i]) == s,
    ensures
        apply_ops(s, ops) == s,
    decreases ops.len(),
{
    if ops.len() > 0 {
        lemma_noop_ops(s, ops.drop_last());
        assert(apply_op(s, ops[ops.len() - 1]) == s);
    }
}

/// Applying the same operations a second time changes nothing, as long as
/// none of them spends an output that another one creates.
pub proof fn lemma_apply_ops_idempotent(m: UtxoMap, ops: Seq<UtxoOp>)
    requires
        map_wf(m),
        no_spend_of_own_outputs(ops),
    ensures
        apply_ops(apply_ops(m, ops), ops) == apply_ops(m, ops),
{
    let r = apply_ops(m, ops);
    assert forall|i: int| 0 <= i < ops.len() implies apply_op(r, #[trigger] ops[i]) == r by {
        match ops[i] {
            UtxoOp::Credit(o, e) => {
                assert forall|j: int| 0 <= j < ops.len() implies !conflict(ops[i], #[trigger] ops[j]) by {
                    assert(!conflict(ops[i], ops[j]));
                }
                lemma_credited_held(m, ops, i);
            },
            UtxoOp::Debit(o, h) => {
                assert forall|j: int| 0 <= j < ops.len() implies !conflict(#[trigger] ops[j], ops[i]) by {
                    assert(!conflict(ops[j], ops[i]));
                }
                lemma_debited_gone(m, ops, i);
            },
        }
    }
    lemma_noop_ops(r, ops);
}

/// Reconciling a block a second time leaves the UTXO sets as the first time
/// did: no output is credited twice and no spend is repeated. This holds for
/// every block that does not spend an output that it creates itself.
pub proof fn lemma_reconciliation_idempotent(m: UtxoMap, b: Block)
    requires
        map_wf(m),
        no_spend_of_own_outputs(block_ops(b)),
    ensures
        apply_ops(apply_ops(m, block_ops(b)), block_ops(b)) == apply_ops(m, block_ops(b)),
        map_wf(apply_ops(m, block_ops(b))),
{
    lemma_apply_ops_idempotent(m, block_ops(b));
    lemma_apply_ops_wf(m, block_ops(b));
}

/// Every output a sequence of coinbase credits gave, and only those, are held
/// by their owners, one entry per output, when the outputs have distinct hashes
/// and the sets were empty.
proof fn lemma_fresh_credits(tx_hash: String, outs: Seq<OutputUtxo>, number: i64, k: int)
    requires
        0 <= k <= outs.len(),
        forall|i: int, j: int|
            0 <= i < outs.len() && 0 <= j < outs.len() && i != j ==> outs[i].hash@ != outs[j].hash@,
    ensures
        ({
            let m = apply_ops(UtxoMap::empty(), credit_ops(tx_hash, outs.take(k), number));
            &&& map_wf(m)
            &&& forall|j: int|
                0 <= j < k ==> {
                    let o = (#[trigger] outs[j]).output_unspent.public_key@;
                    m.contains_key(o) && m[o].contains(entry_of(tx_hash, outs[j], number))
                }
            &&& forall|o: Seq<char>, x: int|
                m.contains_key(o) && 0 <= x < m[o].len() ==> exists|j: int|
                    0 <= j < k && #[trigger] m[o][x] == entry_of(tx_hash, outs[j], number)
                        && outs[j].output_unspent.public_key@ == o
        }),
    decreases k,
{
    let ops = credit_ops(tx_hash, outs.take(k), number);
    if k == 0 {
        assert(ops =~= Seq::<UtxoOp>::empty());
        assert(apply_ops(UtxoMap::empty(), ops) == UtxoMap::empty());
    } else {
        lemma_fresh_credits(tx_hash, outs, number, k - 1);
        let prev = credit_ops(tx_hash, outs.take(k - 1), number);
        let m0 = apply_ops(UtxoMap::empty(), prev);
        let ok = outs[k - 1].output_unspent.public_key@;
        let e = entry_of(tx_hash, outs[k - 1], number);
        let op = UtxoOp::Credit(ok, e);
        assert(ops =~= prev.push(op));
        lemma_apply_ops_push(UtxoMap::empty(), prev, op);
        lemma_apply_op_wf(m0, op);
        let m = credit(m0, ok, e);
        assert(!(m0.contains_key(ok) && holds_output(m0[ok], e.output_hash@))) by {
            if m0.contains_key(ok) && holds_output(m0[ok], e.output_hash@) {
                let x = choose|x: int| 0 <= x < m0[ok].len() && m0[ok][x].output_hash@ == e.output_hash@;
                let j = choose|j: int|
                    0 <= j < k - 1 && #[trigger] m0[ok][x] == entry_of(tx_hash, outs[j], number)
                        && outs[j].output_unspent.public_key@ == ok;
                assert(outs[j].hash@ != outs[k - 1].hash@);
            }
        }
        assert forall|j: int| 0 <= j < k implies {
            let o = (#[trigger] outs[j]).output_unspent.public_key@;
            m.contains_key(o) && m[o].contains(entry_of(tx_hash, outs[j], number))
        } by {
            let o = outs[j].output_unspent.public_key@;
            let ej = entry_of(tx_hash, outs[j], number);
            if j == k - 1 {
                if m0.contains_key(ok) {
                    assert(m[ok][m0[ok].len() as int] == e);
                } else {
                    assert(m[ok][0] == e);
                }
            } else if o == ok {
                let x = choose|x: int| 0 <= x < m0[o].len() && m0[o][x] == ej;
                assert(m[o][x] == ej);
            }
        }
        assert forall|o: Seq<char>, x: int| m.contains_key(o) && 0 <= x < m[o].len() implies exists|
            j: int,
        |
            0 <= j < k && #[trigger] m[o][x] == entry_of(tx_hash, outs[j], number)
                && outs[j].output_unspent.public_key@ == o by {
            if o == ok && (!m0.contains_key(ok) || x == m0[ok].len()) {
                assert(m[o][x] == e);
            } else {
                assert(m[o][x] == m0[o][x]);
                let j = choose|j: int|
                    0 <= j < k - 1 && #[trigger] m0[o][x] == entry_of(tx_hash, outs[j], number)
                        && outs[j].output_unspent.public_key@ == o;
            }
        }
    }
}

/// Applying a block with no transactions to empty UTXO sets gives each
/// coinbase output's owner exactly one entry with that output's hash: the
/// coinbase hash, the amount rounded to twelve digits, the output hash and the
/// block height. Every entry held is such an entry. The coinbase output
/// hashes are taken to be distinct.
pub proof fn lemma_genesis_reward(b: Block)
    requires
        b.body.transactions@.len() == 0,
        forall|i: int, j: int|
            0 <= i < b.body.coinbase.utxos@.len() && 0 <= j < b.body.coinbase.utxos@.len() && i != j
                ==> b.body.coinbase.utxos@[i].hash@ != b.body.coinbase.utxos@[j].hash@,
    ensures
        ({
            let m = apply_ops(UtxoMap::empty(), block_ops(b));
            let outs = b.body.coinbase.utxos@;
            &&& map_wf(m)
            &&& forall|j: int|
                0 <= j < outs.len() ==> {
                    let o = (#[trigger] outs[j]).output_unspent.public_key@;
                    let e = entry_of(b.body.coinbase.tx_hash, outs[j], b.header.number);
                    &&& m.contains_key(o)
                    &&& m[o].contains(e)
                    &&& forall|x: int|
                        0 <= x < m[o].len() && m[o][x].output_hash@ == outs[j].hash@ ==> m[o][x] == e
                }
            &&& forall|o: Seq<char>, x: int|
                m.contains_key(o) && 0 <= x < m[o].len() ==> exists|j: int|
                    0 <= j < outs.len() && #[trigger] m[o][x] == entry_of(
                        b.body.coinbase.tx_hash,
                        outs[j],
                        b.header.number,
                    )
        }),
{
    let outs = b.body.coinbase.utxos@;
    let cb = credit_ops(b.body.coinbase.tx_hash, outs, b.header.number);
    assert(txs_ops(b.body.transactions@, b.header.number) =~= Seq::<UtxoOp>::empty());
    assert(block_ops(b) =~= cb);
    assert(outs.take(outs.len() as int) =~= outs);
    lemma_fresh_credits(b.body.coinbase.tx_hash, outs, b.header.number, outs.len() as int);
    let m = apply_ops(UtxoMap::empty(), block_ops(b));
    assert forall|j: int| 0 <= j < outs.len() implies {
        let o = (#[trigger] outs[j]).output_unspent.public_key@;
        let e = entry_of(b.body.coinbase.tx_hash, outs[j], b.header.number);
        forall|x: int| 0 <= x < m[o].len() && m[o][x].output_hash@ == outs[j].hash@ ==> m[o][x] == e
    } by {
        let o = outs[j].output_unspent.public_key@;
        assert forall|x: int| 0 <= x < m[o].len() && m[o][x].output_hash@ == outs[j].hash@ implies m[o][x]
            == entry_of(b.body.coinbase.tx_hash, outs[j], b.header.number) by {
            let i = choose|i: int|
                0 <= i < outs.len() && #[trigger] m[o][x] == entry_of(
                    b.body.coinbase.tx_hash,
                    outs[i],
                    b.header.number,
                ) && outs[i].output_unspent.public_key@ == o;
            assert(i == j);
        }
    }
}

} // verus!
