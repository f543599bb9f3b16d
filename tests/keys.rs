use kaspa_wallet::address::{address_from_digest, encode_address, kaspa_address};
use kaspa_wallet::derive::{
    derive_child, derive_child_skipping, derive_key_material, derive_path, master_key, parse_path,
    wallet_path, DerivationError, ExtendedPrivateKey, PathSegment,
};
use std::collections::HashSet;

const GOLDEN_PRIVATE: &str = "3c89d5fb6fe19738d0347ecea59bd02b487c52d68403dba09611592890ef3c42";
const GOLDEN_PUBLIC: &str = "03e9f93a4038f70d792ee1d9f8d3068e4d211aaf211b3af3833089bf6754d8ad1b";
const GOLDEN_ADDRESS: &str = "kaspa:dynpx657pddr9m6n3yv77rp8ep5454k889hgtm";

fn to_hex(b: &[u8]) -> String {
    b.iter().map(|x| format!("{:02x}", x)).collect()
}

#[test]
fn golden_vector_for_zero_seed() {
    let seed = [0u8; 64];
    let path = parse_path("m/44'/111111'/0'/0/0").unwrap();
    let kp = derive_key_material(&seed, &path).unwrap();
    assert_eq!(to_hex(&kp.private_key), GOLDEN_PRIVATE);
    assert_eq!(to_hex(&kp.public_key), GOLDEN_PUBLIC);
    assert_eq!(kaspa_address(&kp.public_key), GOLDEN_ADDRESS);
    assert_eq!(encode_address("kaspa", &kp.public_key), GOLDEN_ADDRESS);
}

#[test]
fn master_key_of_zero_seed() {
    let m = master_key(&[0u8; 64]).unwrap();
    assert_eq!(to_hex(&m.private_key), "eafd15702fca3f80beb565e66f19e20bbad0a34b46bb12075cbf1c5d94bb27d2");
    assert_eq!(to_hex(&m.chain_code), "cda6a96b8a91317d82fa5c6353562cd530761cf1eec6e13cfa3858b0b130b0bd");
    assert_eq!(m.depth, 0);
}

#[test]
fn master_key_refuses_seed_length() {
    assert_eq!(master_key(&[0u8; 10]), Err(DerivationError::InvalidSeed));
    let m = master_key(&(0u8..16).collect::<Vec<u8>>()).unwrap();
    assert_eq!(to_hex(&m.chain_code), "873dff81c02f525623fd1fe5167eac3a55a049de3d314bb42ee227ffed37d508");
}

#[test]
fn derivation_is_deterministic() {
    let seed: Vec<u8> = (0u8..64).collect();
    let path = wallet_path(7);
    let a = derive_key_material(&seed, &path).unwrap();
    let b = derive_key_material(&seed, &path).unwrap();
    assert_eq!(a, b);
    assert_eq!(a.private_key.len(), 32);
    assert_eq!(a.public_key.len(), 33);
}

#[test]
fn sibling_indices_give_distinct_keys() {
    let seed = [0u8; 64];
    let master = master_key(&seed).unwrap();
    let parent = derive_path(&master, &parse_path("m/44'/111111'/0'/0").unwrap()).unwrap();
    let mut seen = HashSet::new();
    for i in 0..300u32 {
        let child = derive_child(&parent, i, false).unwrap();
        assert_eq!(child.depth, 5);
        assert!(seen.insert(child.private_key));
    }
    let first = derive_key_material(&seed, &wallet_path(0)).unwrap();
    let second = derive_key_material(&seed, &wallet_path(1)).unwrap();
    assert_ne!(first.private_key, second.private_key);
}

#[test]
fn parse_path_matches_wallet_path() {
    let p = parse_path("m/44'/111111'/0'/0/5").unwrap();
    assert_eq!(p, wallet_path(5));
    assert_eq!(
        p.segments[0],
        PathSegment { index: 44, hardened: true }
    );
    assert_eq!(p.segments[4], PathSegment { index: 5, hardened: false });
    assert_eq!(parse_path("m").unwrap().segments.len(), 0);
}

#[test]
fn parse_path_rejects_malformed_text() {
    assert_eq!(parse_path("x/44'/0"), Err(DerivationError::MalformedPath));
    assert_eq!(parse_path("m/abc"), Err(DerivationError::MalformedPath));
    assert_eq!(parse_path("m/2147483648"), Err(DerivationError::MalformedPath));
}

#[test]
fn empty_path_keeps_master() {
    let master = master_key(&[7u8; 32]).unwrap();
    let leaf = derive_path(&master, &parse_path("m").unwrap()).unwrap();
    assert_eq!(leaf, master);
}

#[test]
fn derive_child_errors() {
    let master = master_key(&[0u8; 64]).unwrap();
    assert_eq!(derive_child(&master, 0x8000_0000, false), Err(DerivationError::MalformedPath));
    let deep = ExtendedPrivateKey { depth: 255, ..master.clone() };
    assert_eq!(derive_child(&deep, 0, true), Err(DerivationError::DepthExceeded));
    assert_eq!(derive_child_skipping(&deep, 0, true), Err(DerivationError::DepthExceeded));
    let bad = ExtendedPrivateKey { private_key: vec![0u8; 32], ..master };
    assert_eq!(derive_child(&bad, 3, true), Err(DerivationError::InvalidChildIndex { index: 3 }));
}

#[test]
fn derive_child_skipping_takes_first_good_index() {
    let master = master_key(&[0u8; 64]).unwrap();
    let (j, k) = derive_child_skipping(&master, 44, true).unwrap();
    assert_eq!(j, 44);
    assert_eq!(k, derive_child(&master, 44, true).unwrap());
    assert_eq!(
        derive_child_skipping(&master, 0x8000_0000, true),
        Err(DerivationError::MalformedPath)
    );
}

#[test]
fn zero_public_key_still_encodes() {
    let a = kaspa_address(&[0u8; 33]);
    assert_eq!(a, "kaspa:mzggc9jaaeu9jf88ggdql5zp3gvatkhwratx2c");
}

#[test]
fn address_from_digest_uses_first_twenty_bytes() {
    let digest: Vec<u8> = (0u8..32).collect();
    let mut other = digest.clone();
    other[25] = 0xff;
    assert_eq!(address_from_digest("kaspa", &digest), address_from_digest("kaspa", &other));
    assert_ne!(address_from_digest("kaspa", &digest), kaspa_address(&digest));
}
