use borsh::BorshSerialize;

use multisig::state::{Multisig, Transaction, MULTISIG_LEN};
use multisig::{
    Pubkey, TransactionAccount, TransactionInstruction, UnpackError, MAX_SIGNERS,
    MAX_TRANSACTIONS,
};

fn key(b: u8) -> Pubkey {
    Pubkey::new_from_array([b; 32])
}

fn sample_instruction() -> TransactionInstruction {
    TransactionInstruction {
        program_id_index: 2,
        accounts: vec![
            TransactionAccount { pubkey_index: 0, is_signer: true, is_writable: true },
            TransactionAccount { pubkey_index: 1, is_signer: false, is_writable: false },
        ],
        data: vec![1, 2, 3],
    }
}

fn sample_transaction() -> Transaction {
    Transaction {
        is_initialized: true,
        multisig: key(9),
        signers: vec![true, false, true],
        did_execute: false,
        accounts: vec![key(1), key(2), key(3)],
        instructions: vec![sample_instruction()],
    }
}

fn expected_transaction_bytes(t: &Transaction) -> Vec<u8> {
    let mut out = Vec::new();
    out.extend(t.is_initialized.try_to_vec().unwrap());
    out.extend(t.multisig.bytes.try_to_vec().unwrap());
    out.extend(t.signers.try_to_vec().unwrap());
    out.extend(t.did_execute.try_to_vec().unwrap());
    let accounts: Vec<[u8; 32]> = t.accounts.iter().map(|k| k.bytes).collect();
    out.extend(accounts.try_to_vec().unwrap());
    out.extend((t.instructions.len() as u32).try_to_vec().unwrap());
    for ix in &t.instructions {
        out.push(ix.program_id_index);
        out.extend((ix.accounts.len() as u32).try_to_vec().unwrap());
        for a in &ix.accounts {
            out.push(a.pubkey_index);
            out.push(a.is_signer as u8);
            out.push(a.is_writable as u8);
        }
        out.extend(ix.data.try_to_vec().unwrap());
    }
    out
}

fn same_transaction(a: &Transaction, b: &Transaction) -> bool {
    a.is_initialized == b.is_initialized
        && a.multisig == b.multisig
        && a.signers == b.signers
        && a.did_execute == b.did_execute
        && a.accounts == b.accounts
        && a.instructions.len() == b.instructions.len()
        && a.instructions.iter().zip(b.instructions.iter()).all(|(x, y)| {
            x.program_id_index == y.program_id_index && x.accounts == y.accounts && x.data == y.data
        })
}

#[test]
fn transaction_bytes_follow_the_format() {
    let t = sample_transaction();
    assert_eq!(t.try_to_vec(), expected_transaction_bytes(&t));
}

#[test]
fn transaction_pack_then_unpack_round_trips() {
    let t = sample_transaction();
    let mut account = vec![0xEEu8; 300];
    t.pack_into_slice(&mut account);
    let len = t.try_to_vec().len();
    assert!(account[len..].iter().all(|b| *b == 0xEE));
    let back = Transaction::unpack_from_slice(&account).unwrap();
    assert!(same_transaction(&back, &t));
    assert!(back.is_initialized());
}

#[test]
fn transaction_unpack_refuses_short_or_malformed_data() {
    let bytes = sample_transaction().try_to_vec();
    assert_eq!(
        Transaction::unpack_from_slice(&bytes[..bytes.len() - 1]).err(),
        Some(UnpackError::InvalidEncoding)
    );
    let mut bad_bool = bytes.clone();
    bad_bool[0] = 2;
    assert_eq!(Transaction::unpack_from_slice(&bad_bool).err(), Some(UnpackError::InvalidEncoding));
    assert_eq!(Transaction::unpack_from_slice(&[]).err(), Some(UnpackError::InvalidEncoding));
}

fn sample_multisig(owners: usize, pending: usize, init: bool) -> Multisig {
    Multisig {
        is_initialized: init,
        owners: (0..owners).map(|i| key(i as u8 + 1)).collect(),
        threshold: 2,
        pending_transactions: (0..pending).map(|i| key(100 + i as u8)).collect(),
        seed: 0x0123_4567_89ab_cdef_0011_2233_4455_6677,
    }
}

fn same_multisig(a: &Multisig, b: &Multisig) -> bool {
    a.is_initialized == b.is_initialized
        && a.owners == b.owners
        && a.threshold == b.threshold
        && a.pending_transactions == b.pending_transactions
        && a.seed == b.seed
}

#[test]
fn multisig_bytes_follow_the_format() {
    let m = sample_multisig(3, 1, true);
    let mut expected = Vec::new();
    expected.extend(true.try_to_vec().unwrap());
    let owners: Vec<[u8; 32]> = m.owners.iter().map(|k| k.bytes).collect();
    expected.extend(owners.try_to_vec().unwrap());
    expected.extend(m.threshold.try_to_vec().unwrap());
    let pending: Vec<[u8; 32]> = m.pending_transactions.iter().map(|k| k.bytes).collect();
    expected.extend(pending.try_to_vec().unwrap());
    expected.extend(m.seed.try_to_vec().unwrap());
    assert_eq!(m.try_to_vec(), expected);
    assert_eq!(expected.len(), 33 + 32 * 4);
}

#[test]
fn full_multisig_fills_the_account_exactly() {
    let m = sample_multisig(MAX_SIGNERS, MAX_TRANSACTIONS, true);
    assert_eq!(m.try_to_vec().len(), MULTISIG_LEN);
    assert_eq!(MULTISIG_LEN, 833);
}

#[test]
fn multisig_pack_then_unpack_round_trips() {
    let m = sample_multisig(3, 2, true);
    let mut account = vec![0u8; MULTISIG_LEN];
    assert_eq!(Multisig::pack(sample_multisig(3, 2, true), &mut account), Ok(()));
    let back = Multisig::unpack(&account).unwrap();
    assert!(same_multisig(&back, &m));
    assert!(back.is_initialized());
}

#[test]
fn multisig_pack_refuses_account_of_wrong_length() {
    let mut account = vec![7u8; MULTISIG_LEN - 1];
    assert_eq!(
        Multisig::pack(sample_multisig(1, 0, true), &mut account),
        Err(UnpackError::InvalidAccountData)
    );
    assert!(account.iter().all(|b| *b == 7));
}

#[test]
fn multisig_unpack_checks_length_and_initialization() {
    let mut account = vec![0u8; MULTISIG_LEN];
    sample_multisig(2, 0, false).pack_into_slice(&mut account);
    assert_eq!(Multisig::unpack(&account).err(), Some(UnpackError::UninitializedAccount));
    let unchecked = Multisig::unpack_unchecked(&account).unwrap();
    assert!(!unchecked.is_initialized);
    assert_eq!(unchecked.owners.len(), 2);
    assert_eq!(Multisig::unpack(&account[..100]).err(), Some(UnpackError::InvalidAccountData));
    let mut longer = account.clone();
    longer.push(0);
    assert_eq!(Multisig::unpack_unchecked(&longer).err(), Some(UnpackError::InvalidAccountData));
}

#[test]
fn multisig_unpack_refuses_bad_encoding() {
    let mut account = vec![0u8; MULTISIG_LEN];
    account[0] = 1;
    account[1] = 200; // 200 owners do not fit in the account
    assert_eq!(Multisig::unpack(&account).err(), Some(UnpackError::InvalidEncoding));
}

#[test]
fn account_entries_resolve_to_account_metas() {
    let keys = vec![key(1), key(2), key(3)];
    let w = TransactionAccount { pubkey_index: 2, is_signer: true, is_writable: true };
    let m = w.to_account_meta(&keys);
    assert_eq!(m.pubkey, key(3));
    assert!(m.is_signer && m.is_writable);
    let r = TransactionAccount { pubkey_index: 0, is_signer: false, is_writable: false };
    let m = r.to_account_meta(&keys);
    assert_eq!(m.pubkey, key(1));
    assert!(!m.is_signer && !m.is_writable);
}

#[test]
fn compact_instructions_resolve_to_instructions() {
    let keys = vec![key(1), key(2), key(3)];
    let ix = sample_instruction().to_instruction(&keys);
    assert_eq!(ix.program_id, key(3));
    assert_eq!(ix.accounts.len(), 2);
    assert_eq!(ix.accounts[0].pubkey, key(1));
    assert!(ix.accounts[0].is_signer && ix.accounts[0].is_writable);
    assert_eq!(ix.accounts[1].pubkey, key(2));
    assert!(!ix.accounts[1].is_signer && !ix.accounts[1].is_writable);
    assert_eq!(ix.data, vec![1, 2, 3]);
}
