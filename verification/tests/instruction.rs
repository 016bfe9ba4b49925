use borsh::BorshSerialize;

use multisig::instruction::MultisigInstruction;
use multisig::{Pubkey, TransactionAccount, TransactionInstruction, UnpackError};

fn key(b: u8) -> Pubkey {
    Pubkey::new_from_array([b; 32])
}

fn same(a: &MultisigInstruction, b: &MultisigInstruction) -> bool {
    format!("{:?}", a) == format!("{:?}", b)
}

fn all_variants() -> Vec<MultisigInstruction> {
    vec![
        MultisigInstruction::CreateMultisig { seed: 77, owners: vec![key(1), key(2)], threshold: 2 },
        MultisigInstruction::AddOwner { owner: key(3) },
        MultisigInstruction::DeleteOwner { owner: key(4) },
        MultisigInstruction::UpdateThreshold { threshold: 5 },
        MultisigInstruction::CreateTransaction {
            seed: u128::MAX,
            accounts: vec![key(5)],
            instructions: vec![TransactionInstruction {
                program_id_index: 0,
                accounts: vec![TransactionAccount { pubkey_index: 0, is_signer: false, is_writable: true }],
                data: vec![9, 9],
            }],
        },
        MultisigInstruction::Approve,
        MultisigInstruction::ExecuteTransaction,
        MultisigInstruction::DeletePendingTransaction { pending_transaction: key(6) },
    ]
}

#[test]
fn variants_are_numbered_in_declaration_order() {
    for (tag, ix) in all_variants().iter().enumerate() {
        assert_eq!(ix.try_to_vec()[0], tag as u8);
    }
}

#[test]
fn create_multisig_data_follows_the_format() {
    let data = MultisigInstruction::CreateMultisig { seed: 77, owners: vec![key(1), key(2)], threshold: 2 }
        .try_to_vec();
    let mut expected = vec![0u8];
    expected.extend(77u128.try_to_vec().unwrap());
    expected.extend(vec![[1u8; 32], [2u8; 32]].try_to_vec().unwrap());
    expected.extend(2u64.try_to_vec().unwrap());
    assert_eq!(data, expected);
}

#[test]
fn simple_variants_data() {
    assert_eq!(MultisigInstruction::Approve.try_to_vec(), vec![5]);
    assert_eq!(MultisigInstruction::ExecuteTransaction.try_to_vec(), vec![6]);
    let mut add = vec![1u8];
    add.extend([3u8; 32]);
    assert_eq!(MultisigInstruction::AddOwner { owner: key(3) }.try_to_vec(), add);
    let mut threshold = vec![3u8];
    threshold.extend(5u64.to_le_bytes());
    assert_eq!(MultisigInstruction::UpdateThreshold { threshold: 5 }.try_to_vec(), threshold);
}

#[test]
fn every_variant_reads_back() {
    for ix in all_variants() {
        let data = ix.try_to_vec();
        let back = MultisigInstruction::try_from_slice(&data).unwrap();
        assert!(same(&back, &ix));
    }
}

#[test]
fn reading_refuses_leftover_or_missing_bytes() {
    let mut data = MultisigInstruction::Approve.try_to_vec();
    data.push(0);
    assert_eq!(MultisigInstruction::try_from_slice(&data).err().map(|e| e), Some(UnpackError::InvalidEncoding));
    let data = MultisigInstruction::AddOwner { owner: key(3) }.try_to_vec();
    assert_eq!(
        MultisigInstruction::try_from_slice(&data[..20]).err(),
        Some(UnpackError::InvalidEncoding)
    );
    assert_eq!(MultisigInstruction::try_from_slice(&[8]).err(), Some(UnpackError::InvalidEncoding));
    assert_eq!(MultisigInstruction::try_from_slice(&[]).err(), Some(UnpackError::InvalidEncoding));
}
