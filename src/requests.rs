//! Requests that peers and clients send to the node, one reply for each.

use vstd::prelude::*;

use crate::consensus::{connected, msg_check, verdict_of, Node, Verdict};
use crate::reconcile::{apply_ops, block_ops, coinbase_receipts, tx_receipts};
use crate::roster::{without_node, without_peer};
use crate::structures::{GossipMessage, Message, Transaction};

verus! {

/// A request of the point-to-point channel, told apart by its kind.
#[derive(Clone, Debug)]
pub enum Request {
    Handshake,
    Transaction(Transaction),
    FullNodes,
    Block(GossipMessage),
    Unknown,
}

/// The one answer a request gets, whatever its kind and outcome, with what
/// the transport has to do for it.
#[derive(Clone, Debug)]
pub enum Reply {
    /// Answer with this node's wallet and whether the asking peer would be
    /// the first validator.
    Handshake { wallet: String, first_node: bool },
    /// Publish the transaction on the event and transaction topics, then
    /// answer with how sending went.
    ForwardTransaction,
    /// Answer with the roster.
    FullNodes,
    /// Publish the block on the client and event topics, then answer that
    /// it was accepted.
    BlockAccepted,
    /// Answer that the block was rejected, and why; then disconnect the
    /// proposer when asked to.
    BlockRejected { verdict: Verdict, disconnect: bool },
    /// Answer that the request is not understood.
    Unknown,
}

/// Answers one request. A submitted block is handled as a broadcast block
/// from its proposer, who is evicted after a punitive rejection.
pub fn handle_requests(node: &mut Node, wallet: &String, request: Request) -> (r: Reply)
    requires
        old(node).wf(),
    ensures
        final(node).ledger.wf(),
        request is Handshake ==> (r matches Reply::Handshake { wallet: w, first_node: f } && w@
            == wallet@ && f == (old(node).fullnodes@.len() == 0)),
        request is Transaction ==> r is ForwardTransaction,
        request is FullNodes ==> r is FullNodes,
        request is Unknown ==> r is Unknown,
        !(request is Block) ==> *final(node) == *old(node),
        request is Block ==> ({
            let gm = request->Block_0;
            let p = gm.block.header.validator@;
            let v = verdict_of(
                old(node).leader@,
                old(node).fullnodes@,
                old(node).ledger.blocks@,
                Message::Block(gm),
            );
            &&& final(node).connections == old(node).connections
            &&& v is Accepted ==> r is BlockAccepted && final(node).leader@ == gm.next_leader@
                && final(node).ledger.blocks@ == old(node).ledger.blocks@.push(gm.block)
                && final(node).ledger.utxo_map() == apply_ops(
                old(node).ledger.utxo_map(),
                block_ops(gm.block),
            ) && final(node).ledger.receipts@ == old(node).ledger.receipts@ + coinbase_receipts(
                gm.block,
            ) + tx_receipts(gm.block) && final(node).fullnodes == old(node).fullnodes
                && final(node).relays == old(node).relays && final(node).clients
                == old(node).clients
            &&& v matches Verdict::Rejected(e) ==> (r matches Reply::BlockRejected {
                verdict: rv,
                disconnect: d,
            } && rv == v && d == (e.punitive() && connected(old(node).connections@, p))
                && final(node).leader == old(node).leader && final(node).ledger == old(node).ledger
                && (e.punitive() ==> final(node).fullnodes@ == without_node(
                old(node).fullnodes@,
                p,
            ) && final(node).relays@ == without_peer(old(node).relays@, p) && final(node).clients@
                == without_peer(old(node).clients@, p)) && (!e.punitive() ==> final(node).fullnodes
                == old(node).fullnodes && final(node).relays == old(node).relays
                && final(node).clients == old(node).clients))
        }),
{
    match request {
        Request::Handshake => Reply::Handshake {
            wallet: wallet.clone(),
            first_node: node.fullnodes.len() == 0,
        },
        Request::Transaction(_) => Reply::ForwardTransaction,
        Request::FullNodes => Reply::FullNodes,
        Request::Block(gm) => {
            let proposer = gm.block.header.validator.clone();
            let out = msg_check(node, Message::Block(gm), &proposer);
            match out.verdict {
                Verdict::Accepted => Reply::BlockAccepted,
                v => Reply::BlockRejected { verdict: v, disconnect: out.disconnect },
            }
        },
        Request::Unknown => Reply::Unknown,
    }
}

} // verus!
