//! Seeds from BIP-39 mnemonic phrases.

use vstd::prelude::*;

verus! {

#[verifier::external_type_specification]
#[verifier::external_body]
pub struct ExBip39Error(bip39::Error);

/// The 64-byte seed of an English mnemonic phrase under a passphrase, if
/// the phrase is a valid mnemonic.
pub uninterp spec fn bip39_seed(phrase: Seq<char>, passphrase: Seq<char>) -> Option<Seq<u8>>;

/// Relies on `bip39::Mnemonic::parse_in` (English word list, checksum
/// checked) and `bip39::Mnemonic::to_seed`: PBKDF2-HMAC-SHA512 over the
/// normalized phrase, 64 bytes, depending on phrase and passphrase alone.
#[verifier::external_body]
fn bip39_phrase_seed(phrase: &str, passphrase: &str) -> (r: Result<Vec<u8>, bip39::Error>)
    ensures
        r matches Ok(s) ==> s@.len() == 64 && bip39_seed(phrase@, passphrase@) == Some(s@),
        r is Err ==> bip39_seed(phrase@, passphrase@) is None,
{
    let mnemonic = bip39::Mnemonic::parse_in(bip39::Language::English, phrase)?;
    Ok(mnemonic.to_seed(passphrase).to_vec())
}

/// The seed of the English mnemonic `phrase` under `passphrase`, or `None`
/// when the phrase is not a valid mnemonic.
pub fn seed_from_mnemonic(phrase: &str, passphrase: &str) -> (r: Option<Vec<u8>>)
    ensures
        r matches Some(s) ==> s@.len() == 64 && bip39_seed(phrase@, passphrase@) == Some(s@),
        r is None ==> bip39_seed(phrase@, passphrase@) is None,
{
    match bip39_phrase_seed(phrase, passphrase) {
        Ok(seed) => Some(seed),
        Err(_) => None,
    }
}

} // verus!
