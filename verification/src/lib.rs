//! The engine of a Chaumian ecash mint and of its wallet.
//!
//! A mint issues blind signatures on coins of power-of-two denominations
//! against payments over Lightning; a wallet has coins signed, keeps them as
//! proofs, swaps them and melts them to pay invoices. This library holds
//! what both of them compute and decide, with contracts that Verus proves:
//!
//! - `amount`: the decomposition of an amount into denominations;
//! - `scalar`, `hex`, `encoding`: numbers as bytes, hex text, base64;
//! - `crypto`, `dhke`, `keyset`: keys, the blind key exchange, and the
//!   keys of a mint with their identifier;
//! - `model`, `token`, `error`: the records of the protocol, the envelope
//!   of a token, and the errors;
//! - `lightning`, `database`, `mint`: the mint and what it relies on;
//! - `client`, `localstore`, `selection`, `wallet`: the wallet and what it
//!   relies on.
//!
//! The curve arithmetic, SHA-256, base64, random numbers and the reading of
//! invoices are done by other crates. Each call into them stands in a
//! function of its own whose contract is taken on trust; those functions
//! have names that end in `_call`. A Lightning backend and the connection to
//! a mint answer from outside: nothing is assumed of their answers, and what
//! a function does with an answer is stated by the function that takes the
//! answer as an argument.

pub mod amount;
pub mod client;
pub mod crypto;
pub mod database;
pub mod dhke;
pub mod encoding;
pub mod error;
pub mod hex;
pub mod keyset;
pub mod lightning;
pub mod localstore;
pub mod mint;
pub mod model;
pub mod scalar;
pub mod selection;
pub mod token;
pub mod wallet;
