//! The messages and records that the node exchanges and stores.

use vstd::prelude::*;

use crate::amount::Amount;

verus! {

/// How the inputs of a transaction are authorised.
#[derive(Clone, Copy, Debug, PartialEq, Eq, Structural)]
pub enum TransactionScript {
    SingleSig,
    MultiSig,
}

/// One spendable output held by an owner.
#[derive(Clone, Debug)]
pub struct UtxoData {
    pub transaction_hash: String,
    pub unspent: Amount,
    pub output_hash: String,
    pub block_number: i64,
}

/// What a transaction spends.
#[derive(Clone, Debug)]
pub struct InputData {
    pub number: u8,
    pub utxos: Vec<UtxoData>,
    pub script: TransactionScript,
}

/// The spending side of a transaction. `input_data_json` is the canonical
/// JSON text of `input_data`, the bytes that `input_hash` commits to.
#[derive(Clone, Debug)]
pub struct TxInput {
    pub input_hash: String,
    pub input_data: InputData,
    pub input_data_json: String,
    pub signatures: Vec<[u8; 65]>,
}

/// The owner and amount of a new output.
#[derive(Clone, Debug)]
pub struct OutputUnspent {
    pub public_key: String,
    pub unspent: Amount,
    pub rnum: u32,
}

/// A new output and its hash.
#[derive(Clone, Debug)]
pub struct OutputUtxo {
    pub hash: String,
    pub output_unspent: OutputUnspent,
}

/// What a transaction creates, and who signed it.
#[derive(Clone, Debug)]
pub struct OutputData {
    pub number: u8,
    pub utxos: Vec<OutputUtxo>,
    pub sigenr_public_keys: Vec<[u8; 33]>,
    pub fee: Amount,
}

/// The creating side of a transaction. `output_data_json` is the canonical
/// JSON text of `output_data`, the bytes that `output_hash` commits to.
#[derive(Clone, Debug)]
pub struct TxOutput {
    pub output_hash: String,
    pub output_data: OutputData,
    pub output_data_json: String,
}

#[derive(Clone, Debug)]
pub struct Transaction {
    pub tx_hash: String,
    pub input: TxInput,
    pub output: TxOutput,
    pub value: Amount,
}

/// The reward transaction of a block: no inputs, only outputs.
#[derive(Clone, Debug)]
pub struct Coinbase {
    pub tx_hash: String,
    pub utxos: Vec<OutputUtxo>,
}

/// The proposer's network public key (protobuf encoded) and its signatures.
#[derive(Clone, Debug)]
pub struct BlockSignature {
    pub public: Vec<u8>,
    pub signature: Vec<[u8; 65]>,
}

#[derive(Clone, Debug)]
pub struct BlockHeader {
    pub number: i64,
    pub block_hash: String,
    pub prev_hash: String,
    pub validator: String,
    pub block_signature: BlockSignature,
}

#[derive(Clone, Debug)]
pub struct BlockBody {
    pub coinbase: Coinbase,
    pub transactions: Vec<Transaction>,
}

#[derive(Clone, Debug)]
pub struct Block {
    pub header: BlockHeader,
    pub body: BlockBody,
}

/// A proposed block and the identity that leads after it.
#[derive(Clone, Debug)]
pub struct GossipMessage {
    pub block: Block,
    pub next_leader: String,
}

/// A leader hand-off, valid only when sent in the current leader's name.
#[derive(Clone, Debug)]
pub struct NextLeader {
    pub identifier_peer_id: String,
    pub next_leader: String,
}

/// A validating peer asking to join the roster.
#[derive(Clone, Debug)]
pub struct ImSync {
    pub relay: String,
    pub peer_id: String,
    pub public_key: [u8; 33],
}

/// A member of the roster of validating peers.
#[derive(Clone, Debug)]
pub struct FullNodes {
    pub relay: String,
    pub peer_id: String,
    pub waiting: i64,
    pub public_key: [u8; 33],
}

/// A message of the broadcast channel, told apart by its kind.
#[derive(Clone, Debug)]
pub enum Message {
    Block(GossipMessage),
    NextLeader(NextLeader),
    ImSync(ImSync),
    Other,
}

} // verus!
