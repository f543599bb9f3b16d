use kaspa_wallet::mnemonic::seed_from_mnemonic;
use kaspa_wallet::wallet::generate_wallet;

const PHRASE: &str =
    "abandon abandon abandon abandon abandon abandon abandon abandon abandon abandon abandon about";

fn to_hex(b: &[u8]) -> String {
    b.iter().map(|x| format!("{:02x}", x)).collect()
}

#[test]
fn seed_of_known_phrase() {
    let seed = seed_from_mnemonic(PHRASE, "TREZOR").unwrap();
    assert_eq!(
        to_hex(&seed),
        "c55257c360c07c72029aebc1b53c05ed0362ada38ead3e3e9efa3708e53495531f09a6987599d18264c1e1c92f2cf141630c7a3c4ab7c81b2f001698e7463b04"
    );
    let plain = seed_from_mnemonic(PHRASE, "").unwrap();
    assert_eq!(
        to_hex(&plain),
        "5eb00bbddcf069084889a8ab9155568165f5c453ccb85e70811aaed6f6da5fc19a5ac40b389cd370d086206dec8aa6c43daea6690f20ad3d8d48b2d2ce9e38e4"
    );
}

#[test]
fn invalid_phrases_give_no_seed() {
    assert_eq!(seed_from_mnemonic("abandon abandon", ""), None);
    let bad_checksum = ["abandon"; 12].join(" ");
    assert_eq!(seed_from_mnemonic(&bad_checksum, ""), None);
    assert_eq!(seed_from_mnemonic("", ""), None);
}

#[test]
fn wallet_from_phrase_seed() {
    let seed = seed_from_mnemonic(PHRASE, "").unwrap();
    let a = generate_wallet(&seed, 0).unwrap();
    let b = generate_wallet(&seed, 0).unwrap();
    assert_eq!(a, b);
    assert!(a.address.starts_with("kaspa:"));
    assert_eq!(a.address.len(), "kaspa:".len() + 32 + 6);
}
