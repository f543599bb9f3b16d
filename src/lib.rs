//! Kaspa wallet key material: HD derivation from a seed, and the bech32m-style
//! address text that a public key is rendered as.

pub mod convert;
pub mod bech32;
pub mod address;
pub mod derive;
pub mod wallet;
pub mod mnemonic;
