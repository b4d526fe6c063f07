//! Block acceptance and leader rotation: the consensus state machine.

use vstd::prelude::*;

use crate::crypto::{ecdsa_verifies, peer_id_of_public_key, peer_id_text, verify_signature};
use crate::ledger::Ledger;
use crate::reconcile::{
    apply_block, apply_ops, block_ops, coinbase_receipts, signers_named, tx_receipts,
};
use crate::roster::{
    entry_for, evict_fullnode, evict_peer, find_roster_key, handle_sync_message, has_peer,
    roster_key, without_node, without_peer,
};
use crate::structures::{Block, BlockHeader, FullNodes, GossipMessage, Message};
use crate::validator::{check_txs, tx_valid, txs_valid};

verus! {

/// The `prev_hash` of the first block of a chain.
pub const GENESIS_PREV_HASH: &'static str = "This block is Genesis";

/// Why a block was turned down.
#[derive(Clone, Copy, Debug, PartialEq, Eq, Structural)]
pub enum Rejection {
    /// The proposer is not the current leader.
    NotLeader,
    /// The embedded public key does not derive the proposer's identity.
    IdentityMismatch,
    /// The block signature does not check against the proposer's roster key.
    BadSignature,
    /// A block with the same hash is already stored.
    Duplicate,
    /// The block does not extend the current head.
    BrokenChain,
    /// A transaction of the block fails its checks.
    InvalidTransaction,
}

/// What became of a message.
#[derive(Clone, Copy, Debug, PartialEq, Eq, Structural)]
pub enum Verdict {
    Accepted,
    Rejected(Rejection),
    LeaderHandedOff,
    HandoffDropped,
    Ignored,
}

impl Rejection {
    /// A rejection that the sender is punished for: all but a stale leader
    /// and a block that does not extend the head, which are benign races.
    pub open spec fn punitive(self) -> bool {
        !(self is NotLeader || self is BrokenChain)
    }

    pub fn is_punitive(&self) -> (r: bool)
        ensures
            r == self.punitive(),
    {
        match self {
            Rejection::NotLeader | Rejection::BrokenChain => false,
            _ => true,
        }
    }
}

pub open spec fn leader_allows(leader: Seq<char>, validator: Seq<char>) -> bool {
    leader.len() == 0 || leader == validator
}

/// The proposer's identity is the one its embedded public key derives.
pub open spec fn identity_bound(h: BlockHeader) -> bool {
    peer_id_text(h.block_signature.public@) == Some(h.validator@)
}

pub open spec fn is_genesis(h: BlockHeader) -> bool {
    h.prev_hash@ == GENESIS_PREV_HASH@
}

/// The first block signature signs the coinbase hash under the proposer's
/// roster key; a genesis block needs no signature.
pub open spec fn block_signed(roster: Seq<FullNodes>, b: Block) -> bool {
    is_genesis(b.header) || match roster_key(roster, b.header.validator@) {
        Some(k) => b.header.block_signature.signature@.len() > 0 && ecdsa_verifies(
            b.header.block_signature.signature@[0]@,
            b.body.coinbase.tx_hash@,
            k@,
        ),
        None => false,
    }
}

pub open spec fn block_known(blocks: Seq<Block>, hash: Seq<char>) -> bool {
    exists|i: int| 0 <= i < blocks.len() && blocks[i].header.block_hash@ == hash
}

/// The position of the head: the first stored block of the greatest height.
pub open spec fn head_index(blocks: Seq<Block>) -> int
    decreases blocks.len(),
{
    if blocks.len() <= 1 {
        0
    } else {
        let i = head_index(blocks.drop_last());
        if blocks.last().header.number > blocks[i].header.number {
            blocks.len() - 1
        } else {
            i
        }
    }
}

/// The block extends the head, or starts the chain when there is none.
pub open spec fn continues_chain(blocks: Seq<Block>, h: BlockHeader) -> bool {
    if blocks.len() == 0 {
        is_genesis(h)
    } else {
        h.prev_hash@ == blocks[head_index(blocks)].header.block_hash@
    }
}

/// The first check a block fails, in the order they are made; `None` when it passes them all.
pub open spec fn block_verdict(
    leader: Seq<char>,
    roster: Seq<FullNodes>,
    blocks: Seq<Block>,
    b: Block,
) -> Option<Rejection> {
    if !leader_allows(leader, b.header.validator@) {
        Some(Rejection::NotLeader)
    } else if !identity_bound(b.header) {
        Some(Rejection::IdentityMismatch)
    } else if !block_signed(roster, b) {
        Some(Rejection::BadSignature)
    } else if block_known(blocks, b.header.block_hash@) {
        Some(Rejection::Duplicate)
    } else if !continues_chain(blocks, b.header) {
        Some(Rejection::BrokenChain)
    } else if !txs_valid(b) {
        Some(Rejection::InvalidTransaction)
    } else {
        None
    }
}

pub open spec fn verdict_of(
    leader: Seq<char>,
    roster: Seq<FullNodes>,
    blocks: Seq<Block>,
    msg: Message,
) -> Verdict {
    match msg {
        Message::Block(gm) => match block_verdict(leader, roster, blocks, gm.block) {
            Some(e) => Verdict::Rejected(e),
            None => Verdict::Accepted,
        },
        Message::NextLeader(n) => if leader.len() > 0 && n.identifier_peer_id@ == leader {
            Verdict::LeaderHandedOff
        } else {
            Verdict::HandoffDropped
        },
        _ => Verdict::Ignored,
    }
}

/// Each stored block extended the head of the blocks stored before it (the
/// first one is a genesis block), and no block hash is stored twice.
pub open spec fn chain_linked(blocks: Seq<Block>) -> bool {
    &&& forall|i: int|
        0 <= i < blocks.len() ==> continues_chain(blocks.take(i), (#[trigger] blocks[i]).header)
    &&& forall|i: int, j: int|
        0 <= i < blocks.len() && 0 <= j < blocks.len() && i != j ==> blocks[i].header.block_hash@
            != blocks[j].header.block_hash@
}

fn signature_check(roster: &Vec<FullNodes>, block: &Block) -> (r: bool)
    ensures
        r == block_signed(roster@, *block),
{
    let header = &block.header;
    if header.prev_hash == GENESIS_PREV_HASH.to_owned() {
        return true;
    }
    match find_roster_key(roster, &header.validator) {
        Some(key) => {
            if header.block_signature.signature.len() == 0 {
                false
            } else {
                verify_signature(
                    &header.block_signature.signature[0],
                    block.body.coinbase.tx_hash.as_str(),
                    &key,
                )
            }
        },
        None => false,
    }
}

fn find_block(blocks: &Vec<Block>, hash: &String) -> (r: bool)
    ensures
        r == block_known(blocks@, hash@),
{
    let mut i: usize = 0;
    while i < blocks.len()
        invariant
            i <= blocks@.len(),
            forall|j: int| 0 <= j < i ==> blocks@[j].header.block_hash@ != hash@,
        decreases blocks@.len() - i,
    {
        if blocks[i].header.block_hash == *hash {
            return true;
        }
        i = i + 1;
    }
    false
}

proof fn lemma_head_index_bounds(blocks: Seq<Block>)
    requires
        blocks.len() > 0,
    ensures
        0 <= head_index(blocks) < blocks.len(),
    decreases blocks.len(),
{
    if blocks.len() > 1 {
        lemma_head_index_bounds(blocks.drop_last());
    }
}

/// The position of the head of a non-empty chain.
fn find_head(blocks: &Vec<Block>) -> (r: usize)
    requires
        blocks@.len() > 0,
    ensures
        r == head_index(blocks@),
        r < blocks@.len(),
{
    let mut best: usize = 0;
    let mut i: usize = 1;
    assert(blocks@.take(1).len() == 1);
    while i < blocks.len()
        invariant
            1 <= i <= blocks@.len(),
            best < i,
            best == head_index(blocks@.take(i as int)),
        decreases blocks@.len() - i,
    {
        proof {
            let t = blocks@.take(i + 1);
            assert(t.drop_last() =~= blocks@.take(i as int));
            assert(t[best as int] == blocks@[best as int]);
        }
        if blocks[i].header.number > blocks[best].header.number {
            best = i;
        }
        i = i + 1;
    }
    assert(blocks@.take(i as int) =~= blocks@);
    best
}

fn chain_check(blocks: &Vec<Block>, header: &BlockHeader) -> (r: bool)
    ensures
        r == continues_chain(blocks@, *header),
{
    if blocks.len() == 0 {
        header.prev_hash == GENESIS_PREV_HASH.to_owned()
    } else {
        let head = find_head(blocks);
        header.prev_hash == blocks[head].header.block_hash
    }
}

/// The checks of a proposed block, in order: leader authority, identity
/// binding, signature, duplication, chain continuity, transactions.
fn check_block(leader: &String, roster: &Vec<FullNodes>, ledger: &Ledger, block: &Block) -> (r:
    Option<Rejection>)
    ensures
        r == block_verdict(leader@, roster@, ledger.blocks@, *block),
{
    let header = &block.header;
    if !leader.as_str().is_empty() && *leader != header.validator {
        return Some(Rejection::NotLeader);
    }
    match peer_id_of_public_key(&header.block_signature.public) {
        Some(pid) => {
            if pid != header.validator {
                return Some(Rejection::IdentityMismatch);
            }
        },
        None => {
            return Some(Rejection::IdentityMismatch);
        },
    }
    if !signature_check(roster, block) {
        return Some(Rejection::BadSignature);
    }
    if find_block(&ledger.blocks, &header.block_hash) {
        return Some(Rejection::Duplicate);
    }
    if !chain_check(&ledger.blocks, header) {
        return Some(Rejection::BrokenChain);
    }
    if !check_txs(block) {
        return Some(Rejection::InvalidTransaction);
    }
    None
}

/// Decides on a message of the block channel. An accepted block is stored,
/// its effects are applied to the UTXO sets, and leadership passes to the
/// identity it names. A hand-off in the current leader's name moves
/// leadership. Anything else leaves the leader and the ledger as they were.
pub fn verifying_block(
    msg: Message,
    leader: &mut String,
    fullnode_subs: &Vec<FullNodes>,
    ledger: &mut Ledger,
) -> (r: Verdict)
    requires
        old(ledger).wf(),
    ensures
        r == verdict_of(old(leader)@, fullnode_subs@, old(ledger).blocks@, msg),
        final(ledger).wf(),
        r is Accepted ==> ({
            let gm = msg->Block_0;
            &&& final(leader)@ == gm.next_leader@
            &&& final(ledger).blocks@ == old(ledger).blocks@.push(gm.block)
            &&& final(ledger).utxo_map() == apply_ops(old(ledger).utxo_map(), block_ops(gm.block))
            &&& final(ledger).receipts@ == old(ledger).receipts@ + coinbase_receipts(gm.block)
                + tx_receipts(gm.block)
        }),
        r is LeaderHandedOff ==> final(leader)@ == msg->NextLeader_0.next_leader@ && *final(ledger)
            == *old(ledger),
        !(r is Accepted || r is LeaderHandedOff) ==> *final(leader) == *old(leader) && *final(ledger)
            == *old(ledger),
        chain_linked(old(ledger).blocks@) ==> chain_linked(final(ledger).blocks@),
{
    match msg {
        Message::Block(gm) => {
            let GossipMessage { block, next_leader } = gm;
            match check_block(leader, fullnode_subs, ledger, &block) {
                Some(e) => Verdict::Rejected(e),
                None => {
                    assert(signers_named(block)) by {
                        assert forall|i: int| 0 <= i < block.body.transactions@.len() implies #[trigger] block.body.transactions@[i].output.output_data.sigenr_public_keys@.len()
                            > 0 by {
                            assert(tx_valid(block.body.transactions@[i]));
                        }
                    }
                    proof {
                        lemma_accepted_block_continues_chain(
                            leader@,
                            fullnode_subs@,
                            ledger.blocks@,
                            block,
                        );
                    }
                    apply_block(ledger, &block);
                    ledger.blocks.push(block);
                    *leader = next_leader;
                    Verdict::Accepted
                },
            }
        },
        Message::NextLeader(n) => {
            if !leader.as_str().is_empty() && n.identifier_peer_id == *leader {
                *leader = n.next_leader;
                Verdict::LeaderHandedOff
            } else {
                Verdict::HandoffDropped
            }
        },
        _ => Verdict::Ignored,
    }
}

/// The state one node keeps between messages.
#[derive(Debug)]
pub struct Node {
    /// The identity allowed to propose the next block; empty before the first block.
    pub leader: String,
    pub fullnodes: Vec<FullNodes>,
    pub relays: Vec<String>,
    pub clients: Vec<String>,
    pub connections: Vec<String>,
    pub ledger: Ledger,
}

/// What the transport has to do after a message was handled.
#[derive(Clone, Copy, Debug, PartialEq, Eq, Structural)]
pub struct MsgOutcome {
    pub verdict: Verdict,
    /// An announcing peer joined the roster.
    pub admitted: bool,
    /// The message is to be passed on to the event stream and to the validators.
    pub publish: bool,
    /// The sender is to be disconnected.
    pub disconnect: bool,
}

pub open spec fn connected(connections: Seq<String>, p: Seq<char>) -> bool {
    exists|i: int| 0 <= i < connections.len() && connections[i]@ == p
}

impl Node {
    pub open spec fn wf(&self) -> bool {
        &&& self.ledger.wf()
        &&& self.fullnodes@.len() < 0x3FFF_FFFF_FFFF_FFFF
    }
}

fn is_connected(connections: &Vec<String>, p: &String) -> (r: bool)
    ensures
        r == connected(connections@, p@),
{
    let mut i: usize = 0;
    while i < connections.len()
        invariant
            i <= connections@.len(),
            forall|j: int| 0 <= j < i ==> connections@[j]@ != p@,
        decreases connections@.len() - i,
    {
        if connections[i] == *p {
            return true;
        }
        i = i + 1;
    }
    false
}

/// Handles one message of the broadcast channel from `propagation_source`.
/// An announce may add a roster entry; any other message goes through
/// `verifying_block`. An accepted block is published on. A punitive rejection
/// evicts the block's proposer from the roster, evicts the sender from the
/// relay and client lists, and disconnects the sender when it is connected.
pub fn msg_check(node: &mut Node, msg: Message, propagation_source: &String) -> (r: MsgOutcome)
    requires
        old(node).wf(),
    ensures
        final(node).ledger.wf(),
        final(node).connections == old(node).connections,
        msg is ImSync ==> ({
            &&& r == (MsgOutcome {
                verdict: Verdict::Ignored,
                admitted: !has_peer(old(node).fullnodes@, msg->ImSync_0.peer_id@),
                publish: false,
                disconnect: false,
            })
            &&& r.admitted ==> final(node).fullnodes@ == old(node).fullnodes@.push(
                entry_for(msg->ImSync_0, old(node).fullnodes@.len() as int),
            )
            &&& !r.admitted ==> final(node).fullnodes@ == old(node).fullnodes@
            &&& final(node).leader == old(node).leader
            &&& final(node).ledger == old(node).ledger
            &&& final(node).relays == old(node).relays
            &&& final(node).clients == old(node).clients
        }),
        !(msg is ImSync) ==> ({
            let v = verdict_of(old(node).leader@, old(node).fullnodes@, old(node).ledger.blocks@, msg);
            let punish = v matches Verdict::Rejected(e) && e.punitive();
            &&& r.verdict == v
            &&& !r.admitted
            &&& r.publish == (v is Accepted)
            &&& r.disconnect == (punish && connected(old(node).connections@, propagation_source@))
            &&& punish ==> final(node).fullnodes@ == without_node(
                old(node).fullnodes@,
                msg->Block_0.block.header.validator@,
            ) && final(node).relays@ == without_peer(old(node).relays@, propagation_source@)
                && final(node).clients@ == without_peer(old(node).clients@, propagation_source@)
            &&& !punish ==> final(node).fullnodes == old(node).fullnodes && final(node).relays
                == old(node).relays && final(node).clients == old(node).clients
            &&& v is Accepted ==> final(node).leader@ == msg->Block_0.next_leader@
                && final(node).ledger.blocks@ == old(node).ledger.blocks@.push(msg->Block_0.block)
                && final(node).ledger.utxo_map() == apply_ops(
                old(node).ledger.utxo_map(),
                block_ops(msg->Block_0.block),
            )
                && final(node).ledger.receipts@ == old(node).ledger.receipts@ + coinbase_receipts(
                msg->Block_0.block,
            ) + tx_receipts(msg->Block_0.block)
            &&& v is LeaderHandedOff ==> final(node).leader@ == msg->NextLeader_0.next_leader@
                && final(node).ledger == old(node).ledger
            &&& !(v is Accepted || v is LeaderHandedOff) ==> final(node).leader == old(node).leader
                && final(node).ledger == old(node).ledger
        }),
{
    if let Message::ImSync(announce) = msg {
        let admitted = handle_sync_message(&mut node.fullnodes, &announce);
        return MsgOutcome { verdict: Verdict::Ignored, admitted, publish: false, disconnect: false };
    }
    let proposer = match &msg {
        Message::Block(gm) => gm.block.header.validator.clone(),
        _ => String::new(),
    };
    let verdict = verifying_block(msg, &mut node.leader, &node.fullnodes, &mut node.ledger);
    match verdict {
        Verdict::Accepted => MsgOutcome { verdict, admitted: false, publish: true, disconnect: false },
        Verdict::Rejected(e) => {
            if e.is_punitive() {
                evict_fullnode(&mut node.fullnodes, &proposer);
                evict_peer(&mut node.relays, propagation_source);
                evict_peer(&mut node.clients, propagation_source);
                let disconnect = is_connected(&node.connections, propagation_source);
                MsgOutcome { verdict, admitted: false, publish: false, disconnect }
            } else {
                MsgOutcome { verdict, admitted: false, publish: false, disconnect: false }
            }
        },
        _ => MsgOutcome { verdict, admitted: false, publish: false, disconnect: false },
    }
}

/// Chain continuity: a block that passes every check extends the head it was
/// checked against, or is the genesis block of an empty chain, and a linked
/// chain stays linked when it is appended.
pub proof fn lemma_accepted_block_continues_chain(
    leader: Seq<char>,
    roster: Seq<FullNodes>,
    blocks: Seq<Block>,
    b: Block,
)
    requires
        block_verdict(leader, roster, blocks, b) is None,
    ensures
        blocks.len() == 0 ==> is_genesis(b.header),
        blocks.len() > 0 ==> b.header.prev_hash@ == blocks[head_index(blocks)].header.block_hash@,
        chain_linked(blocks) ==> chain_linked(blocks.push(b)),
{
    let b1 = blocks.push(b);
    if chain_linked(blocks) {
        assert forall|i: int, j: int|
            0 <= i < b1.len() && 0 <= j < b1.len() && i != j implies b1[i].header.block_hash@
            != b1[j].header.block_hash@ by {
            if i == blocks.len() {
                assert(b1[j] == blocks[j]);
            } else if j == blocks.len() {
                assert(b1[i] == blocks[i]);
            }
        }
        assert forall|i: int| 0 <= i < b1.len() implies continues_chain(
            b1.take(i),
            (#[trigger] b1[i]).header,
        ) by {
            if i < blocks.len() {
                assert(b1.take(i) =~= blocks.take(i));
                assert(b1[i] == blocks[i]);
                assert(continues_chain(blocks.take(i), blocks[i].header));
            } else {
                assert(b1.take(i) =~= blocks);
            }
        }
    }
}

/// Leader exclusivity: while the leader is set, every block that passes the
/// checks was proposed by the leader, so two blocks of different proposers
/// never both pass against the same leader.
pub proof fn lemma_leader_exclusive(
    leader: Seq<char>,
    roster: Seq<FullNodes>,
    blocks1: Seq<Block>,
    b1: Block,
    blocks2: Seq<Block>,
    b2: Block,
)
    requires
        leader.len() > 0,
        block_verdict(leader, roster, blocks1, b1) is None,
        block_verdict(leader, roster, blocks2, b2) is None,
    ensures
        b1.header.validator@ == leader,
        b2.header.validator@ == leader,
        b1.header.validator@ == b2.header.validator@,
{
}

/// Identity binding: a block from the leader (or while there is none) whose
/// embedded public key does not derive the claimed proposer is rejected, and
/// the rejection is punitive, so the sender is evicted.
pub proof fn lemma_identity_binding_enforced(
    leader: Seq<char>,
    roster: Seq<FullNodes>,
    blocks: Seq<Block>,
    b: Block,
)
    requires
        leader_allows(leader, b.header.validator@),
        peer_id_text(b.header.block_signature.public@) != Some(b.header.validator@),
    ensures
        block_verdict(leader, roster, blocks, b) == Some(Rejection::IdentityMismatch),
        Rejection::IdentityMismatch.punitive(),
{
}

/// A block that passes the leader, identity, signature, duplication and
/// continuity checks but holds a transaction that fails its checks is
/// rejected, and the rejection is punitive, so its sender is evicted.
pub proof fn lemma_invalid_transaction_punished(
    leader: Seq<char>,
    roster: Seq<FullNodes>,
    blocks: Seq<Block>,
    b: Block,
)
    requires
        leader_allows(leader, b.header.validator@),
        identity_bound(b.header),
        block_signed(roster, b),
        !block_known(blocks, b.header.block_hash@),
        continues_chain(blocks, b.header),
        !txs_valid(b),
    ensures
        block_verdict(leader, roster, blocks, b) == Some(Rejection::InvalidTransaction),
        Rejection::InvalidTransaction.punitive(),
{
}

} // verus!
