//! Cube: the verified core of a Bitcoin rollup engine.
//!
//! - Bytes, hashes and the curve: [`bytes`], [`hash`], [`curve`], [`modular`].
//! - Signatures: [`schnorr`], [`musig`], [`projector`].
//! - Garbled verification of lottery draws: [`winner_net`], [`winner_proof`], [`garble`].
//! - Outputs: [`script`], [`taproot`], [`timeout_tree`], [`refresh`], [`liftv2`].
//! - Batch transactions: [`varint`], [`txn`], [`outpoint_map`], [`entry`], [`batch_txn`].
//! - Protocols: [`hexcodec`], [`json`], [`admission`], [`liftup_v2`], [`liftup_client`].
//! - The engine: [`stack`], [`call`], [`engine_session`], [`chain`], [`hook`], [`arcade`].

pub mod admission;
pub mod arcade;
pub mod batch_txn;
pub mod bytes;
pub mod call;
pub mod chain;
pub mod curve;
pub mod engine_session;
pub mod entry;
pub mod garble;
pub mod hash;
pub mod hexcodec;
pub mod hook;
pub mod json;
pub mod liftup_client;
pub mod liftup_v2;
pub mod liftv2;
pub mod modular;
pub mod musig;
pub mod outpoint_map;
pub mod projector;
pub mod refresh;
pub mod schnorr;
pub mod script;
pub mod stack;
pub mod taproot;
pub mod timeout_tree;
pub mod txn;
pub mod varint;
pub mod winner_net;
pub mod winner_proof;
