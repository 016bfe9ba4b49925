use std::str::FromStr;

use multisig::pubkey::id;
use multisig::Pubkey;

fn key(b: u8) -> Pubkey {
    Pubkey::new_from_array([b; 32])
}

#[test]
fn program_id_is_the_declared_address() {
    let declared =
        solana_program::pubkey::Pubkey::from_str("msigLK5Pz1XD5GcTTSx3JNik7NTx8JbfbD8eF5sw89h")
            .unwrap();
    assert_eq!(id().to_bytes(), declared.to_bytes());
}

#[test]
fn equals_compares_every_byte() {
    let a = key(7);
    let mut bytes = [7u8; 32];
    assert!(a.equals(&Pubkey::new_from_array(bytes)));
    bytes[31] = 8;
    assert!(!a.equals(&Pubkey::new_from_array(bytes)));
    bytes[31] = 7;
    bytes[0] = 0;
    assert!(!a.equals(&Pubkey::new_from_array(bytes)));
}

#[test]
fn to_bytes_gives_back_the_bytes() {
    let mut bytes = [0u8; 32];
    for (i, b) in bytes.iter_mut().enumerate() {
        *b = i as u8;
    }
    assert_eq!(Pubkey::new_from_array(bytes).to_bytes(), bytes);
}
