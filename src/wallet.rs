//! Wallet records: the hex-encoded key pair and the address of one derived
//! key, and the choices around saving them.

use crate::address::{address_spec, blake2b_256, kaspa_address, KASPA_PREFIX};
use crate::derive::{
    derive_key_material, derive_spec, wallet_path, wallet_segments, DerivationError,
    HARDENED_FLAG,
};
use vstd::prelude::*;
use vstd::string::StringExecFns;

verus! {

/// The lowercase hexadecimal digit of `n`, for `n < 16`.
pub open spec fn hex_digit(n: u8) -> char {
    if n < 10 {
        ((n + 48) as u8) as char
    } else {
        ((n + 87) as u8) as char
    }
}

/// Two lowercase hex digits per byte, high nibble first.
pub open spec fn hex_of(b: Seq<u8>) -> Seq<char> {
    Seq::new(
        2 * b.len(),
        |i: int|
            if i % 2 == 0 {
                hex_digit(b[i / 2] >> 4u8)
            } else {
                hex_digit(b[i / 2] & 0xf)
            },
    )
}

/// Relies on `hex::encode`: two lowercase hex digits per byte, high nibble
/// first.
#[verifier::external_body]
fn to_hex(b: &[u8]) -> (r: String)
    ensures
        r@ == hex_of(b@),
{
    hex::encode(b)
}

/// One generated wallet: its keys in hex and its address.
#[derive(Debug, Clone, PartialEq, Eq)]
pub struct Wallet {
    pub private_key: String,
    pub public_key: String,
    pub address: String,
}

/// `w` is the wallet that `seed` gives at `wallet_index`, or `r` is the
/// error that its derivation fails with.
pub open spec fn wallet_result(seed: Seq<u8>, wallet_index: u32, r: Result<Wallet, DerivationError>) -> bool {
    if wallet_index >= HARDENED_FLAG {
        r == Err::<Wallet, DerivationError>(DerivationError::MalformedPath)
    } else {
        match derive_spec(seed, wallet_segments(wallet_index)) {
            Ok(keys) => r is Ok && r->Ok_0.private_key@ == hex_of(keys.0) && r->Ok_0.public_key@
                == hex_of(keys.1) && r->Ok_0.address@ == address_spec(
                KASPA_PREFIX,
                blake2b_256(keys.1),
            ),
            Err(e) => r == Err::<Wallet, DerivationError>(e),
        }
    }
}

/// The wallet of `seed` at path `m/44'/111111'/0'/0/<wallet_index>`.
pub fn generate_wallet(seed: &[u8], wallet_index: u32) -> (r: Result<Wallet, DerivationError>)
    ensures
        wallet_result(seed@, wallet_index, r),
{
    if wallet_index >= HARDENED_FLAG {
        return Err(DerivationError::MalformedPath);
    }
    let path = wallet_path(wallet_index);
    let keys = derive_key_material(seed, &path)?;
    let address = kaspa_address(keys.public_key.as_slice());
    Ok(
        Wallet {
            private_key: to_hex(keys.private_key.as_slice()),
            public_key: to_hex(keys.public_key.as_slice()),
            address,
        },
    )
}

/// One wallet per seed, the `i`-th at wallet index `i`; the first failure
/// stops the run.
pub fn generate_wallets(seeds: &Vec<Vec<u8>>) -> (r: Result<Vec<Wallet>, DerivationError>)
    requires
        seeds@.len() <= HARDENED_FLAG,
    ensures
        r is Ok ==> r->Ok_0@.len() == seeds@.len() && forall|i: int|
            0 <= i < seeds@.len() ==> wallet_result(
                #[trigger] seeds@[i]@,
                i as u32,
                Ok::<Wallet, DerivationError>(r->Ok_0@[i]),
            ),
        r is Err ==> exists|i: int|
            0 <= i < seeds@.len() && wallet_result(
                #[trigger] seeds@[i]@,
                i as u32,
                Err::<Wallet, DerivationError>(r->Err_0),
            ),
{
    let mut wallets: Vec<Wallet> = Vec::new();
    let mut i: usize = 0;
    while i < seeds.len()
        invariant
            seeds@.len() <= HARDENED_FLAG,
            i <= seeds@.len(),
            wallets@.len() == i,
            forall|k: int|
                0 <= k < i ==> wallet_result(
                    #[trigger] seeds@[k]@,
                    k as u32,
                    Ok::<Wallet, DerivationError>(wallets@[k]),
                ),
        decreases seeds@.len() - i,
    {
        let w = generate_wallet(seeds[i].as_slice(), i as u32);
        match w {
            Ok(wallet) => {
                wallets.push(wallet);
            },
            Err(e) => {
                assert(wallet_result(seeds@[i as int]@, i as u32, Err::<Wallet, DerivationError>(e)));
                return Err(e);
            },
        }
        i = i + 1;
    }
    Ok(wallets)
}

/// The file formats that wallets can be saved in.
#[derive(Debug, Clone, Copy, PartialEq, Eq, Structural)]
pub enum OutputFormat {
    Txt,
    Csv,
}

/// A format name that is neither `txt`, `text` nor `csv` in any case.
#[derive(Debug, Clone, PartialEq, Eq)]
pub struct UnknownFormat {
    pub name: String,
}

/// The lowercase form of `s`, as std's `str::to_lowercase` gives it.
pub uninterp spec fn lowercase_of(s: Seq<char>) -> Seq<char>;

/// Relies on std's `str::to_lowercase`: the result depends on the
/// characters of `s` alone.
#[verifier::external_body]
fn lowercase(s: &str) -> (r: String)
    ensures
        r@ == lowercase_of(s@),
{
    s.to_lowercase()
}

/// The format that the lowercase name `name` stands for.
pub open spec fn format_named(name: Seq<char>) -> Option<OutputFormat> {
    if name == "txt"@ || name == "text"@ {
        Some(OutputFormat::Txt)
    } else if name == "csv"@ {
        Some(OutputFormat::Csv)
    } else {
        None
    }
}

impl OutputFormat {
    /// The format that an already lowercase name stands for.
    pub fn from_lowercase(name: &str) -> (r: Option<OutputFormat>)
        ensures
            r == format_named(name@),
    {
        let n = name.to_owned();
        if n == "txt".to_owned() || n == "text".to_owned() {
            Some(OutputFormat::Txt)
        } else if n == "csv".to_owned() {
            Some(OutputFormat::Csv)
        } else {
            None
        }
    }

    /// The format that `name` stands for, in any case.
    pub fn from_name(name: &str) -> (r: Option<OutputFormat>)
        ensures
            r == format_named(lowercase_of(name@)),
    {
        let lower = lowercase(name);
        OutputFormat::from_lowercase(lower.as_str())
    }

    /// The file name extension of this format, with its dot.
    pub open spec fn extension(self) -> Seq<char> {
        match self {
            OutputFormat::Txt => ".txt"@,
            OutputFormat::Csv => ".csv"@,
        }
    }
}

impl std::str::FromStr for OutputFormat {
    type Err = UnknownFormat;

    fn from_str(s: &str) -> Result<OutputFormat, UnknownFormat> {
        match OutputFormat::from_name(s) {
            Some(f) => Ok(f),
            None => Err(UnknownFormat { name: s.to_owned() }),
        }
    }
}

/// The name of the file that wallets in `format` are saved to: the base
/// name with the format's extension.
pub fn save_wallets(format: OutputFormat, base_filename: &str) -> (r: String)
    ensures
        r@ == base_filename@ + format.extension(),
{
    let mut name = base_filename.to_owned();
    match format {
        OutputFormat::Txt => name.append(".txt"),
        OutputFormat::Csv => name.append(".csv"),
    }
    name
}

} // verus!
