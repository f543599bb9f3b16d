use kaspa_wallet::bech32::{
    bech32_create_checksum, bech32_encode, bech32_hrp_expand, bech32_polymod, BECH32M_CONST,
    BECH32_CONST,
};
use kaspa_wallet::convert::{convertbits, ConvertError};

const ALPHABET: &str = "qpzry9x8gf2tvdw0s3jn54khce6mua7l";

fn render(symbols: &[u8]) -> String {
    symbols.iter().map(|&d| ALPHABET.as_bytes()[d as usize] as char).collect()
}

fn checksum_with(hrp: &str, data: &[u8], constant: u32) -> Vec<u8> {
    let mut values = bech32_hrp_expand(hrp);
    values.extend_from_slice(data);
    values.extend_from_slice(&[0, 0, 0, 0, 0, 0]);
    let pm = bech32_polymod(&values) ^ constant;
    (0..6).map(|i| ((pm >> (5 * (5 - i))) & 0x1f) as u8).collect()
}

#[test]
fn bech32m_vector_pins_constant() {
    assert_eq!(bech32_encode("a", &[]), "a:lqfn3a");
    assert_eq!(render(&checksum_with("a", &[], BECH32M_CONST)), "lqfn3a");
    assert_eq!(render(&checksum_with("a", &[], BECH32_CONST)), "2uel5l");
}

#[test]
fn plain_bech32_checksum_differs() {
    let payloads: Vec<Vec<u8>> = vec![vec![], vec![0; 32], (0..32).collect(), vec![31; 7]];
    for p in payloads {
        assert_ne!(
            checksum_with("kaspa", &p, BECH32M_CONST),
            checksum_with("kaspa", &p, BECH32_CONST)
        );
        assert_eq!(bech32_create_checksum("kaspa", &p), checksum_with("kaspa", &p, BECH32M_CONST));
    }
}

#[test]
fn hrp_expand_kaspa() {
    assert_eq!(bech32_hrp_expand("kaspa"), vec![3, 3, 3, 3, 3, 0, 11, 1, 19, 16, 1]);
    assert_eq!(bech32_hrp_expand(""), vec![0]);
}

#[test]
fn polymod_values() {
    assert_eq!(bech32_polymod(&[]), 1);
    assert_eq!(bech32_polymod(&bech32_hrp_expand("kaspa")), 45216699);
}

#[test]
fn checksum_of_empty_kaspa_payload() {
    assert_eq!(bech32_create_checksum("kaspa", &[]), vec![15, 1, 24, 2, 2, 27]);
}

#[test]
fn encode_every_symbol() {
    let data: Vec<u8> = (0..32).collect();
    assert_eq!(bech32_encode("kaspa", &data), "kaspa:qpzry9x8gf2tvdw0s3jn54khce6mua7lzq6msu");
}

#[test]
fn encode_length_and_alphabet() {
    for n in [0usize, 1, 5, 32, 60] {
        let data: Vec<u8> = (0..n).map(|i| ((i * 7 + 3) % 32) as u8).collect();
        let s = bech32_encode("kaspa", &data);
        assert!(s.starts_with("kaspa:"));
        let body = &s["kaspa:".len()..];
        assert_eq!(body.len(), n + 6);
        assert!(body.chars().all(|c| ALPHABET.contains(c)));
    }
}

#[test]
fn convertbits_exact_symbols() {
    assert_eq!(convertbits(&[0xff, 0x00, 0xab], 8, 5, true), Ok(vec![31, 28, 0, 10, 22]));
    assert_eq!(convertbits(&[31, 28, 0, 10, 22], 5, 8, false), Ok(vec![0xff, 0x00, 0xab]));
}

#[test]
fn convertbits_empty_input() {
    assert_eq!(convertbits(&[], 8, 5, true), Ok(vec![]));
    assert_eq!(convertbits(&[], 5, 8, false), Ok(vec![]));
}

#[test]
fn convertbits_twenty_bytes_give_thirty_two_symbols() {
    let r = convertbits(&[0xa5; 20], 8, 5, true).unwrap();
    assert_eq!(r.len(), 32);
    assert!(r.iter().all(|&s| s < 32));
}

#[test]
fn convertbits_round_trip() {
    let inputs: Vec<Vec<u8>> = vec![
        vec![],
        vec![0],
        vec![0xff],
        vec![1, 2, 3, 4, 5],
        (0..=255).collect(),
        vec![0x80; 21],
    ];
    for b in inputs {
        let five = convertbits(&b, 8, 5, true).unwrap();
        assert_eq!(convertbits(&five, 5, 8, false), Ok(b));
    }
}

#[test]
fn convertbits_rejects_widths() {
    assert_eq!(convertbits(&[1], 0, 5, true), Err(ConvertError::EncodingPrecondition));
    assert_eq!(convertbits(&[1], 8, 9, true), Err(ConvertError::EncodingPrecondition));
    assert_eq!(convertbits(&[1], 9, 8, true), Err(ConvertError::EncodingPrecondition));
}

#[test]
fn convertbits_rejects_nonzero_padding() {
    assert_eq!(convertbits(&[1], 5, 8, false), Err(ConvertError::NonZeroPadding));
    assert_eq!(convertbits(&[1], 5, 8, true), Ok(vec![8]));
    assert_eq!(convertbits(&[0], 5, 8, false), Ok(vec![]));
}
