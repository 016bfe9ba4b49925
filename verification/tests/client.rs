use multisig::bindings::{approve, execute_transaction, get_instruction_accounts};
use multisig::{AccountMeta, Instruction};
use multisig::client::{batch_approve_execute_instructions, count_approvals, unique_accounts};
use multisig::state::Transaction;
use multisig::Pubkey;
use multisig::{TransactionAccount, TransactionInstruction};

fn entry(i: u8, s: bool, w: bool) -> TransactionAccount {
    TransactionAccount { pubkey_index: i, is_signer: s, is_writable: w }
}

#[test]
fn unique_accounts_merges_flags_per_index() {
    let tis = vec![
        TransactionInstruction { program_id_index: 3, accounts: vec![entry(0, true, false), entry(1, false, false)], data: vec![] },
        TransactionInstruction { program_id_index: 3, accounts: vec![entry(1, false, true), entry(0, false, false), entry(2, false, false)], data: vec![] },
    ];
    let mut merged = unique_accounts(tis);
    merged.sort_by_key(|a| a.pubkey_index);
    assert_eq!(merged, vec![entry(0, true, false), entry(1, false, true), entry(2, false, false)]);
}

#[test]
fn unique_accounts_keeps_first_occurrence_order() {
    let tis = vec![TransactionInstruction {
        program_id_index: 0,
        accounts: vec![entry(4, false, false), entry(2, true, true), entry(4, true, false)],
        data: vec![],
    }];
    assert_eq!(unique_accounts(tis), vec![entry(4, true, false), entry(2, true, true)]);
    assert_eq!(unique_accounts(vec![]), vec![]);
}

#[test]
fn approvals_count_set_flags() {
    assert_eq!(count_approvals(&vec![true, false, true]), 2);
    assert_eq!(count_approvals(&vec![]), 0);
    assert_eq!(count_approvals(&vec![false; 4]), 0);
}

#[test]
fn unique_accounts_does_not_depend_on_order() {
    let a = TransactionInstruction { program_id_index: 0, accounts: vec![entry(0, true, false), entry(1, false, false)], data: vec![] };
    let b = TransactionInstruction { program_id_index: 0, accounts: vec![entry(2, false, true), entry(1, false, true)], data: vec![] };
    let b_reordered = TransactionInstruction { program_id_index: 0, accounts: vec![entry(1, false, true), entry(2, false, true)], data: vec![] };
    let mut one = unique_accounts(vec![a.clone(), b]);
    let mut other = unique_accounts(vec![b_reordered, a]);
    assert_ne!(one, other);
    one.sort_by_key(|e| e.pubkey_index);
    other.sort_by_key(|e| e.pubkey_index);
    assert_eq!(one, other);
}

fn key(b: u8) -> Pubkey {
    Pubkey::new_from_array([b; 32])
}

#[test]
fn batch_approves_all_then_runs_each() {
    let voter = key(1);
    let multisig = key(2);
    let addresses = vec![key(3), key(4)];
    let transactions = vec![
        Transaction {
            is_initialized: true,
            multisig,
            signers: vec![true],
            did_execute: false,
            accounts: vec![key(7), multisig],
            instructions: vec![TransactionInstruction { program_id_index: 0, accounts: vec![entry(1, true, true), entry(0, false, false)], data: vec![1] }],
        },
        Transaction {
            is_initialized: true,
            multisig,
            signers: vec![false],
            did_execute: false,
            accounts: vec![key(8)],
            instructions: vec![],
        },
    ];
    let ixs = batch_approve_execute_instructions(&voter, &multisig, &addresses, &transactions);
    assert_eq!(ixs.len(), 4);
    assert_eq!(ixs[0], approve(&voter, &multisig, &key(3)));
    assert_eq!(ixs[1], approve(&voter, &multisig, &key(4)));
    let merged = vec![entry(1, true, true), entry(0, false, false)];
    assert_eq!(ixs[2], execute_transaction(&multisig, &key(3), &transactions[0].accounts, &merged));
    assert!(!ixs[2].accounts[2].is_signer);
    assert_eq!(ixs[3], execute_transaction(&multisig, &key(4), &transactions[1].accounts, &[]));
    assert_eq!(ixs[3].accounts.len(), 2);
}

#[test]
fn stored_transaction_runs_over_merged_accounts() {
    let multisig = key(2);
    let mut t = Transaction {
        is_initialized: true,
        multisig,
        signers: vec![true],
        did_execute: false,
        accounts: vec![key(7), multisig],
        instructions: vec![TransactionInstruction { program_id_index: 0, accounts: vec![entry(1, true, false), entry(1, false, true)], data: vec![1] }],
    };
    let ix = multisig::client::execute_stored_transaction(&multisig, &key(3), &t).unwrap();
    assert_eq!(ix, execute_transaction(&multisig, &key(3), &t.accounts, &[entry(1, true, true)]));
    t.instructions[0].accounts.push(entry(2, false, false));
    assert_eq!(multisig::client::execute_stored_transaction(&multisig, &key(3), &t), None);
}

#[test]
fn joined_instruction_lists_keep_the_first_accounts_first() {
    let ix = |p: u8, a: u8| Instruction {
        program_id: key(p),
        accounts: vec![AccountMeta { pubkey: key(a), is_signer: false, is_writable: true }],
        data: vec![],
    };
    let first = vec![ix(10, 1), ix(11, 2)];
    let second = vec![ix(12, 2), ix(10, 3)];
    let mut joined = first.clone();
    joined.extend(second.clone());
    let keys_first = get_instruction_accounts(&first);
    let keys_joined = get_instruction_accounts(&joined);
    assert_eq!(keys_joined[..keys_first.len()], keys_first[..]);
    assert_eq!(keys_joined, vec![key(1), key(10), key(2), key(11), key(12), key(3)]);
    let mut twice = first.clone();
    twice.extend(first.clone());
    assert_eq!(get_instruction_accounts(&twice), keys_first);
}
