use relay_node::amount::Amount;
use relay_node::consensus::{msg_check, verifying_block, Node, Rejection, Verdict, GENESIS_PREV_HASH};
use relay_node::crypto::create_hash;
use relay_node::ledger::Ledger;
use relay_node::requests::{handle_requests, Reply, Request};
use relay_node::structures::{
    Block, BlockBody, BlockHeader, BlockSignature, Coinbase, FullNodes, GossipMessage, InputData,
    Message, NextLeader, OutputData, OutputUnspent, OutputUtxo, Transaction, TransactionScript,
    TxInput, TxOutput, UtxoData,
};
use sp_core::Pair;

struct Proposer {
    id: String,
    public: Vec<u8>,
    signer: sp_core::ecdsa::Pair,
}

fn proposer(seed: u8) -> Proposer {
    let kp = libp2p::identity::Keypair::generate_ecdsa();
    Proposer {
        id: kp.public().to_peer_id().to_string(),
        public: kp.public().encode_protobuf(),
        signer: sp_core::ecdsa::Pair::from_seed(&[seed; 32]),
    }
}

fn amount(m: i128, s: u32) -> Amount {
    Amount::new(m, s).unwrap()
}

fn key_bytes(p: &sp_core::ecdsa::Pair) -> [u8; 33] {
    let mut k = [0u8; 33];
    k.copy_from_slice(p.public().as_ref());
    k
}

fn sign(p: &sp_core::ecdsa::Pair, msg: &str) -> [u8; 65] {
    let mut s = [0u8; 65];
    s.copy_from_slice(p.sign(msg.as_bytes()).as_ref());
    s
}

fn output(owner: &str, hash: &str, m: i128, s: u32) -> OutputUtxo {
    OutputUtxo {
        hash: hash.to_string(),
        output_unspent: OutputUnspent { public_key: owner.to_string(), unspent: amount(m, s), rnum: 1 },
    }
}

fn make_tx(signer: &sp_core::ecdsa::Pair, spends: Vec<UtxoData>, outs: Vec<OutputUtxo>) -> Transaction {
    let spent: Vec<String> = spends.iter().map(|u| u.output_hash.clone()).collect();
    let made: Vec<String> = outs.iter().map(|o| o.hash.clone()).collect();
    let input_data_json = format!("{{\"number\":1,\"utxos\":{:?},\"script\":\"SingleSig\"}}", spent);
    let output_data_json = format!("{{\"number\":1,\"utxos\":{:?}}}", made);
    let input_hash = create_hash(&input_data_json);
    let output_hash = create_hash(&output_data_json);
    let tx_hash = create_hash(&format!("{}{}", input_hash, output_hash));
    Transaction {
        tx_hash: tx_hash.clone(),
        input: TxInput {
            input_hash,
            input_data: InputData { number: 1, utxos: spends, script: TransactionScript::SingleSig },
            input_data_json,
            signatures: vec![sign(signer, &tx_hash)],
        },
        output: TxOutput {
            output_hash,
            output_data: OutputData {
                number: 1,
                utxos: outs,
                sigenr_public_keys: vec![key_bytes(signer)],
                fee: amount(0, 0),
            },
            output_data_json,
        },
        value: amount(1, 0),
    }
}

fn make_block(
    p: &Proposer,
    number: i64,
    block_hash: &str,
    prev_hash: &str,
    coinbase: Coinbase,
    transactions: Vec<Transaction>,
) -> Block {
    let signature = vec![sign(&p.signer, &coinbase.tx_hash)];
    Block {
        header: BlockHeader {
            number,
            block_hash: block_hash.to_string(),
            prev_hash: prev_hash.to_string(),
            validator: p.id.clone(),
            block_signature: BlockSignature { public: p.public.clone(), signature },
        },
        body: BlockBody { coinbase, transactions },
    }
}

fn gossip(block: Block, next_leader: &str) -> Message {
    Message::Block(GossipMessage { block, next_leader: next_leader.to_string() })
}

fn genesis(p: &Proposer) -> Block {
    let coinbase = Coinbase {
        tx_hash: "cb-genesis".to_string(),
        utxos: vec![output("alice", "out-a", 1234567890123456789, 18), output("bob", "out-b", 5, 0)],
    };
    make_block(p, 1, "hash-1", GENESIS_PREV_HASH, coinbase, vec![])
}

fn empty_node() -> Node {
    Node {
        leader: String::new(),
        fullnodes: vec![],
        relays: vec![],
        clients: vec![],
        connections: vec![],
        ledger: Ledger::new(),
    }
}

fn member(p: &Proposer) -> FullNodes {
    FullNodes {
        relay: "relay".to_string(),
        peer_id: p.id.clone(),
        waiting: 2,
        public_key: key_bytes(&p.signer),
    }
}

fn hashes_of(ledger: &Ledger, owner: &str) -> Vec<String> {
    for set in &ledger.utxo_sets {
        if set.public_key == owner {
            return set.utxos.iter().map(|u| u.output_hash.clone()).collect();
        }
    }
    vec![]
}

fn utxo_dump(ledger: &Ledger) -> String {
    format!("{:?}", ledger.utxo_sets)
}

#[test]
fn genesis_block_on_empty_ledger_is_accepted() {
    let p = proposer(1);
    let mut node = empty_node();
    let out = msg_check(&mut node, gossip(genesis(&p), "next-leader"), &p.id);
    assert_eq!(out.verdict, Verdict::Accepted);
    assert!(out.publish);
    assert!(!out.disconnect);
    assert_eq!(node.leader, "next-leader");
    assert_eq!(node.ledger.blocks.len(), 1);
    assert_eq!(node.ledger.utxo_sets.len(), 2);
    assert_eq!(hashes_of(&node.ledger, "alice"), vec!["out-a".to_string()]);
    assert_eq!(hashes_of(&node.ledger, "bob"), vec!["out-b".to_string()]);
    let alice = &node.ledger.utxo_sets[0].utxos[0];
    assert_eq!(alice.transaction_hash, "cb-genesis");
    assert_eq!(alice.block_number, 1);
    assert_eq!(alice.unspent.mantissa(), 1234567890123);
    assert_eq!(alice.unspent.scale(), 12);
    assert_eq!(node.ledger.receipts.len(), 1);
}

#[test]
fn identical_genesis_twice_is_rejected_as_duplicate() {
    let p = proposer(1);
    let mut node = empty_node();
    node.relays.push(p.id.clone());
    node.connections.push(p.id.clone());
    assert_eq!(msg_check(&mut node, gossip(genesis(&p), ""), &p.id).verdict, Verdict::Accepted);
    let before = utxo_dump(&node.ledger);
    let out = msg_check(&mut node, gossip(genesis(&p), ""), &p.id);
    assert_eq!(out.verdict, Verdict::Rejected(Rejection::Duplicate));
    assert!(out.disconnect);
    assert!(node.relays.is_empty());
    assert_eq!(utxo_dump(&node.ledger), before);
    assert_eq!(node.ledger.blocks.len(), 1);
}

#[test]
fn block_from_non_leader_is_rejected_without_eviction() {
    let leader = proposer(1);
    let other = proposer(2);
    let mut node = empty_node();
    node.leader = leader.id.clone();
    node.fullnodes.push(member(&other));
    node.relays.push(other.id.clone());
    node.connections.push(other.id.clone());
    let out = msg_check(&mut node, gossip(genesis(&other), "x"), &other.id);
    assert_eq!(out.verdict, Verdict::Rejected(Rejection::NotLeader));
    assert!(!out.disconnect);
    assert!(!out.publish);
    assert_eq!(node.leader, leader.id);
    assert_eq!(node.fullnodes.len(), 1);
    assert_eq!(node.relays.len(), 1);
    assert!(node.ledger.blocks.is_empty());
    assert!(node.ledger.utxo_sets.is_empty());
}

#[test]
fn block_with_broken_transaction_evicts_sender() {
    let p = proposer(1);
    let mut node = empty_node();
    node.leader = p.id.clone();
    node.fullnodes.push(member(&p));
    node.relays.push(p.id.clone());
    node.clients.push(p.id.clone());
    node.connections.push(p.id.clone());
    let mut tx = make_tx(&p.signer, vec![], vec![output("carol", "out-c", 3, 0)]);
    tx.output.output_hash = create_hash("something else");
    let mut block = genesis(&p);
    block.body.transactions.push(tx);
    let out = msg_check(&mut node, gossip(block, "y"), &p.id);
    assert_eq!(out.verdict, Verdict::Rejected(Rejection::InvalidTransaction));
    assert!(out.disconnect);
    assert!(node.fullnodes.is_empty());
    assert!(node.relays.is_empty());
    assert!(node.clients.is_empty());
    assert!(node.ledger.utxo_sets.is_empty());
    assert!(node.ledger.blocks.is_empty());
    assert_eq!(node.leader, p.id);
}

#[test]
fn handoff_not_from_leader_is_dropped() {
    let mut leader = "leader-id".to_string();
    let mut ledger = Ledger::new();
    let notice = Message::NextLeader(NextLeader {
        identifier_peer_id: "someone-else".to_string(),
        next_leader: "usurper".to_string(),
    });
    let v = verifying_block(notice, &mut leader, &vec![], &mut ledger);
    assert_eq!(v, Verdict::HandoffDropped);
    assert_eq!(leader, "leader-id");
}

#[test]
fn handoff_from_leader_moves_leadership() {
    let mut leader = "leader-id".to_string();
    let mut ledger = Ledger::new();
    let notice = Message::NextLeader(NextLeader {
        identifier_peer_id: "leader-id".to_string(),
        next_leader: "successor".to_string(),
    });
    let v = verifying_block(notice, &mut leader, &vec![], &mut ledger);
    assert_eq!(v, Verdict::LeaderHandedOff);
    assert_eq!(leader, "successor");
}

#[test]
fn handoff_without_leader_is_dropped() {
    let mut leader = String::new();
    let mut ledger = Ledger::new();
    let notice = Message::NextLeader(NextLeader {
        identifier_peer_id: String::new(),
        next_leader: "successor".to_string(),
    });
    assert_eq!(verifying_block(notice, &mut leader, &vec![], &mut ledger), Verdict::HandoffDropped);
    assert_eq!(leader, "");
}

#[test]
fn other_messages_are_ignored() {
    let mut leader = "l".to_string();
    let mut ledger = Ledger::new();
    assert_eq!(verifying_block(Message::Other, &mut leader, &vec![], &mut ledger), Verdict::Ignored);
    assert_eq!(leader, "l");
}

#[test]
fn signed_block_extends_chain_and_wrong_parent_is_not_punished() {
    let p = proposer(1);
    let mut node = empty_node();
    node.fullnodes.push(member(&p));
    assert_eq!(msg_check(&mut node, gossip(genesis(&p), &p.id), &p.id).verdict, Verdict::Accepted);
    let coinbase = Coinbase { tx_hash: "cb-2".to_string(), utxos: vec![output("alice", "out-2", 7, 0)] };
    let orphan = make_block(&p, 2, "hash-x", "hash-unknown", coinbase.clone(), vec![]);
    let out = msg_check(&mut node, gossip(orphan, "z"), &p.id);
    assert_eq!(out.verdict, Verdict::Rejected(Rejection::BrokenChain));
    assert_eq!(node.fullnodes.len(), 1);
    let second = make_block(&p, 2, "hash-2", "hash-1", coinbase, vec![]);
    let out = msg_check(&mut node, gossip(second, "z"), &p.id);
    assert_eq!(out.verdict, Verdict::Accepted);
    assert_eq!(node.ledger.blocks.len(), 2);
    assert_eq!(node.leader, "z");
    assert_eq!(hashes_of(&node.ledger, "alice"), vec!["out-a".to_string(), "out-2".to_string()]);
}

#[test]
fn genesis_marker_on_non_empty_chain_breaks_chain() {
    let p = proposer(1);
    let mut node = empty_node();
    assert_eq!(msg_check(&mut node, gossip(genesis(&p), ""), &p.id).verdict, Verdict::Accepted);
    let mut again = genesis(&p);
    again.header.block_hash = "hash-other".to_string();
    let out = msg_check(&mut node, gossip(again, ""), &p.id);
    assert_eq!(out.verdict, Verdict::Rejected(Rejection::BrokenChain));
}

#[test]
fn non_genesis_block_on_empty_chain_breaks_chain() {
    let p = proposer(1);
    let mut node = empty_node();
    node.fullnodes.push(member(&p));
    let coinbase = Coinbase { tx_hash: "cb".to_string(), utxos: vec![] };
    let block = make_block(&p, 5, "h5", "h4", coinbase, vec![]);
    let out = msg_check(&mut node, gossip(block, ""), &p.id);
    assert_eq!(out.verdict, Verdict::Rejected(Rejection::BrokenChain));
    assert!(node.ledger.blocks.is_empty());
}

#[test]
fn block_signed_with_unregistered_key_is_rejected() {
    let p = proposer(1);
    let mut node = empty_node();
    node.fullnodes.push(member(&p));
    assert_eq!(msg_check(&mut node, gossip(genesis(&p), ""), &p.id).verdict, Verdict::Accepted);
    let impostor = sp_core::ecdsa::Pair::from_seed(&[9u8; 32]);
    let coinbase = Coinbase { tx_hash: "cb-2".to_string(), utxos: vec![] };
    let mut block = make_block(&p, 2, "hash-2", "hash-1", coinbase, vec![]);
    block.header.block_signature.signature = vec![sign(&impostor, "cb-2")];
    let out = msg_check(&mut node, gossip(block, ""), &p.id);
    assert_eq!(out.verdict, Verdict::Rejected(Rejection::BadSignature));
    assert!(node.fullnodes.is_empty());
}

#[test]
fn block_from_peer_outside_roster_fails_signature() {
    let p = proposer(1);
    let q = proposer(2);
    let mut node = empty_node();
    node.fullnodes.push(member(&p));
    assert_eq!(msg_check(&mut node, gossip(genesis(&p), ""), &p.id).verdict, Verdict::Accepted);
    let coinbase = Coinbase { tx_hash: "cb-2".to_string(), utxos: vec![] };
    let block = make_block(&q, 2, "hash-2", "hash-1", coinbase, vec![]);
    let out = msg_check(&mut node, gossip(block, ""), &q.id);
    assert_eq!(out.verdict, Verdict::Rejected(Rejection::BadSignature));
}

#[test]
fn public_key_of_another_identity_is_rejected_and_sender_evicted() {
    let p = proposer(1);
    let q = proposer(2);
    let mut node = empty_node();
    node.fullnodes.push(member(&p));
    node.connections.push(p.id.clone());
    let mut block = genesis(&p);
    block.header.block_signature.public = q.public.clone();
    let out = msg_check(&mut node, gossip(block, ""), &p.id);
    assert_eq!(out.verdict, Verdict::Rejected(Rejection::IdentityMismatch));
    assert!(out.disconnect);
    assert!(node.fullnodes.is_empty());
    assert!(node.ledger.blocks.is_empty());
}

#[test]
fn undecodable_public_key_is_identity_mismatch() {
    let p = proposer(1);
    let mut node = empty_node();
    let mut block = genesis(&p);
    block.header.block_signature.public = vec![1, 2, 3];
    let out = msg_check(&mut node, gossip(block, ""), &p.id);
    assert_eq!(out.verdict, Verdict::Rejected(Rejection::IdentityMismatch));
}

#[test]
fn announce_joins_roster_once() {
    let mut node = empty_node();
    let key = key_bytes(&sp_core::ecdsa::Pair::from_seed(&[3u8; 32]));
    let announce = relay_node::structures::ImSync {
        relay: "r".to_string(),
        peer_id: "peer-a".to_string(),
        public_key: key,
    };
    let out = msg_check(&mut node, Message::ImSync(announce.clone()), &"peer-a".to_string());
    assert!(out.admitted);
    assert_eq!(out.verdict, Verdict::Ignored);
    assert_eq!(node.fullnodes.len(), 1);
    assert_eq!(node.fullnodes[0].waiting, 2);
    let out = msg_check(&mut node, Message::ImSync(announce), &"peer-a".to_string());
    assert!(!out.admitted);
    assert_eq!(node.fullnodes.len(), 1);
}

#[test]
fn handshake_reports_first_node() {
    let mut node = empty_node();
    let wallet = "wallet-1".to_string();
    match handle_requests(&mut node, &wallet, Request::Handshake) {
        Reply::Handshake { wallet: w, first_node } => {
            assert_eq!(w, "wallet-1");
            assert!(first_node);
        }
        _ => panic!("expected a handshake reply"),
    }
    node.fullnodes.push(member(&proposer(1)));
    match handle_requests(&mut node, &wallet, Request::Handshake) {
        Reply::Handshake { first_node, .. } => assert!(!first_node),
        _ => panic!("expected a handshake reply"),
    }
    assert!(matches!(handle_requests(&mut node, &wallet, Request::FullNodes), Reply::FullNodes));
    assert!(matches!(handle_requests(&mut node, &wallet, Request::Unknown), Reply::Unknown));
}

#[test]
fn submitted_transaction_is_forwarded_without_state_change() {
    let p = proposer(1);
    let mut node = empty_node();
    let tx = make_tx(&p.signer, vec![], vec![output("bob", "h1", 2, 0)]);
    let reply = handle_requests(&mut node, &String::new(), Request::Transaction(tx));
    assert!(matches!(reply, Reply::ForwardTransaction));
    assert!(node.ledger.utxo_sets.is_empty());
    assert!(node.ledger.receipts.is_empty());
}

#[test]
fn submitted_block_request_is_verified() {
    let p = proposer(1);
    let mut node = empty_node();
    let wallet = String::new();
    let reply = handle_requests(&mut node, &wallet, Request::Block(GossipMessage {
        block: genesis(&p),
        next_leader: p.id.clone(),
    }));
    assert!(matches!(reply, Reply::BlockAccepted));
    assert_eq!(node.leader, p.id);
    let reply = handle_requests(&mut node, &wallet, Request::Block(GossipMessage {
        block: genesis(&p),
        next_leader: String::new(),
    }));
    assert!(matches!(
        reply,
        Reply::BlockRejected { verdict: Verdict::Rejected(Rejection::Duplicate), .. }
    ));
}

#[test]
fn rejection_classes() {
    assert!(!Rejection::NotLeader.is_punitive());
    assert!(!Rejection::BrokenChain.is_punitive());
    assert!(Rejection::IdentityMismatch.is_punitive());
    assert!(Rejection::BadSignature.is_punitive());
    assert!(Rejection::Duplicate.is_punitive());
    assert!(Rejection::InvalidTransaction.is_punitive());
}

#[test]
fn head_is_the_block_of_greatest_height() {
    let p = proposer(1);
    let mut node = empty_node();
    node.fullnodes.push(member(&p));
    let mut first = genesis(&p);
    first.header.number = 5;
    assert_eq!(msg_check(&mut node, gossip(first, ""), &p.id).verdict, Verdict::Accepted);
    let cb = |h: &str| Coinbase { tx_hash: h.to_string(), utxos: vec![] };
    let low = make_block(&p, 1, "hash-low", "hash-1", cb("cb-low"), vec![]);
    assert_eq!(msg_check(&mut node, gossip(low, ""), &p.id).verdict, Verdict::Accepted);
    let on_low = make_block(&p, 2, "hash-on-low", "hash-low", cb("cb-a"), vec![]);
    let out = msg_check(&mut node, gossip(on_low, ""), &p.id);
    assert_eq!(out.verdict, Verdict::Rejected(Rejection::BrokenChain));
    assert!(!out.disconnect);
    let on_high = make_block(&p, 6, "hash-on-high", "hash-1", cb("cb-b"), vec![]);
    assert_eq!(msg_check(&mut node, gossip(on_high, ""), &p.id).verdict, Verdict::Accepted);
    assert_eq!(node.ledger.blocks.len(), 3);
}

#[test]
fn punitive_rejection_evicts_proposer_and_relaying_peer() {
    let p = proposer(1);
    let relay = "relay-peer".to_string();
    let mut node = empty_node();
    node.fullnodes.push(member(&p));
    node.relays.push(relay.clone());
    node.relays.push(p.id.clone());
    node.clients.push(relay.clone());
    node.connections.push(relay.clone());
    let mut block = genesis(&p);
    block.header.block_signature.public = vec![9, 9];
    let out = msg_check(&mut node, gossip(block, ""), &relay);
    assert_eq!(out.verdict, Verdict::Rejected(Rejection::IdentityMismatch));
    assert!(out.disconnect);
    assert!(node.fullnodes.is_empty());
    assert_eq!(node.relays, vec![p.id.clone()]);
    assert!(node.clients.is_empty());
}

#[test]
fn rejected_block_request_is_answered_and_proposer_disconnected() {
    let p = proposer(1);
    let mut node = empty_node();
    node.fullnodes.push(member(&p));
    node.relays.push(p.id.clone());
    node.connections.push(p.id.clone());
    let mut block = genesis(&p);
    block.header.block_signature.public = vec![1];
    let reply = handle_requests(&mut node, &String::new(), Request::Block(GossipMessage {
        block,
        next_leader: String::new(),
    }));
    assert!(matches!(
        reply,
        Reply::BlockRejected { verdict: Verdict::Rejected(Rejection::IdentityMismatch), disconnect: true }
    ));
    assert!(node.fullnodes.is_empty());
    assert!(node.relays.is_empty());
}
