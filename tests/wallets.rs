use kaspa_wallet::derive::DerivationError;
use kaspa_wallet::wallet::{generate_wallet, generate_wallets, save_wallets, OutputFormat};

#[test]
fn wallet_of_zero_seed() {
    let w = generate_wallet(&[0u8; 64], 0).unwrap();
    assert_eq!(w.private_key, "3c89d5fb6fe19738d0347ecea59bd02b487c52d68403dba09611592890ef3c42");
    assert_eq!(w.public_key, "03e9f93a4038f70d792ee1d9f8d3068e4d211aaf211b3af3833089bf6754d8ad1b");
    assert_eq!(w.address, "kaspa:dynpx657pddr9m6n3yv77rp8ep5454k889hgtm");
}

#[test]
fn wallet_index_out_of_range() {
    assert_eq!(generate_wallet(&[0u8; 64], 0x8000_0000), Err(DerivationError::MalformedPath));
    assert_eq!(generate_wallet(&[0u8; 5], 0), Err(DerivationError::InvalidSeed));
}

#[test]
fn wallets_follow_seed_order() {
    let seeds = vec![vec![0u8; 64], vec![0u8; 64]];
    let ws = generate_wallets(&seeds).unwrap();
    assert_eq!(ws.len(), 2);
    assert_eq!(ws[0], generate_wallet(&seeds[0], 0).unwrap());
    assert_eq!(ws[1], generate_wallet(&seeds[1], 1).unwrap());
    assert_ne!(ws[0].private_key, ws[1].private_key);
    assert!(generate_wallets(&vec![]).unwrap().is_empty());
    assert_eq!(
        generate_wallets(&vec![vec![0u8; 64], vec![1u8; 3]]),
        Err(DerivationError::InvalidSeed)
    );
}

#[test]
fn output_format_names() {
    assert_eq!(OutputFormat::from_name("TXT"), Some(OutputFormat::Txt));
    assert_eq!(OutputFormat::from_name("Text"), Some(OutputFormat::Txt));
    assert_eq!(OutputFormat::from_name("csv"), Some(OutputFormat::Csv));
    assert_eq!(OutputFormat::from_name("xml"), None);
    assert_eq!("CSV".parse::<OutputFormat>(), Ok(OutputFormat::Csv));
    assert!("json".parse::<OutputFormat>().is_err());
}

#[test]
fn saved_file_names() {
    assert_eq!(save_wallets(OutputFormat::Txt, "wallets"), "wallets.txt");
    assert_eq!(save_wallets(OutputFormat::Csv, "my_wallets"), "my_wallets.csv");
}
