use std::str::FromStr;

use multisig::bindings::{
    add_owner, approve, create_multisig, create_multisig_with_address, create_transaction,
    create_transaction_with_address, delete_pending_transaction,
    encode_instructions, execute_transaction, get_instruction_accounts, get_multisig_address,
    get_transaction_address,
};
use multisig::instruction::MultisigInstruction;
use multisig::pubkey::id;
use multisig::{AccountMeta, Instruction, Pubkey, TransactionAccount};

fn key(b: u8) -> Pubkey {
    Pubkey::new_from_array([b; 32])
}

fn program() -> solana_program::pubkey::Pubkey {
    solana_program::pubkey::Pubkey::new_from_array(id().to_bytes())
}

fn meta(k: Pubkey, is_signer: bool, is_writable: bool) -> AccountMeta {
    AccountMeta { pubkey: k, is_signer, is_writable }
}

#[test]
fn multisig_address_is_the_program_derived_address() {
    let seed = 0x1234_5678_9abc_def0_0fed_cba9_8765_4321u128;
    let (expected, _) = solana_program::pubkey::Pubkey::find_program_address(
        &[b"multisig", &seed.to_le_bytes()],
        &program(),
    );
    assert_eq!(get_multisig_address(seed).unwrap().to_bytes(), expected.to_bytes());
    assert_eq!(get_multisig_address(seed).unwrap(), get_multisig_address(seed).unwrap());
    assert_ne!(get_multisig_address(seed).unwrap(), get_multisig_address(seed + 1).unwrap());
}

#[test]
fn transaction_address_is_the_program_derived_address() {
    let seed = 42u128;
    let (expected, _) = solana_program::pubkey::Pubkey::find_program_address(
        &[b"transaction", &seed.to_le_bytes()],
        &program(),
    );
    assert_eq!(get_transaction_address(seed).unwrap().to_bytes(), expected.to_bytes());
    assert_ne!(get_transaction_address(seed).unwrap(), get_multisig_address(seed).unwrap());
}

#[test]
fn create_multisig_names_funder_multisig_system_and_rent() {
    let seed = 5u128;
    let ix = create_multisig(&key(1), seed, vec![key(2), key(3)], 2).unwrap();
    assert_eq!(ix.program_id, id());
    let system = solana_program::system_program::id().to_bytes();
    assert_eq!(system, [0u8; 32]);
    let rent = solana_program::pubkey::Pubkey::from_str("SysvarRent111111111111111111111111111111111")
        .unwrap()
        .to_bytes();
    assert_eq!(
        ix.accounts,
        vec![
            meta(key(1), true, true),
            meta(get_multisig_address(seed).unwrap(), false, true),
            meta(Pubkey::new_from_array(system), false, false),
            meta(Pubkey::new_from_array(rent), false, false),
        ]
    );
    assert_ne!(ix.accounts[3].pubkey, ix.accounts[2].pubkey);
    assert_eq!(
        ix.data,
        MultisigInstruction::CreateMultisig { seed, owners: vec![key(2), key(3)], threshold: 2 }.try_to_vec()
    );
}

#[test]
fn add_owner_is_signed_by_the_multisig() {
    let ix = add_owner(&key(1), key(2));
    assert_eq!(ix.program_id, id());
    assert_eq!(ix.accounts, vec![meta(key(1), true, true)]);
    assert_eq!(ix.data, MultisigInstruction::AddOwner { owner: key(2) }.try_to_vec());
}

#[test]
fn approve_names_proposer_transaction_and_multisig() {
    let ix = approve(&key(1), &key(2), &key(3));
    assert_eq!(
        ix.accounts,
        vec![meta(key(1), true, true), meta(key(3), false, true), meta(key(2), false, false)]
    );
    assert_eq!(ix.data, vec![5]);
}

#[test]
fn delete_pending_transaction_is_signed_by_the_multisig() {
    let ix = delete_pending_transaction(&key(1), key(9));
    assert_eq!(ix.accounts, vec![meta(key(1), true, true)]);
    let mut expected = vec![7u8];
    expected.extend([9u8; 32]);
    assert_eq!(ix.data, expected);
}

fn two_instructions() -> Vec<Instruction> {
    vec![
        Instruction {
            program_id: key(10),
            accounts: vec![meta(key(1), true, true), meta(key(2), false, false)],
            data: vec![1],
        },
        Instruction {
            program_id: key(11),
            accounts: vec![meta(key(2), false, true), meta(key(10), false, false), meta(key(3), true, false)],
            data: vec![2, 2],
        },
    ]
}

#[test]
fn instruction_accounts_in_first_occurrence_order() {
    let keys = get_instruction_accounts(&two_instructions());
    assert_eq!(keys, vec![key(1), key(2), key(10), key(3), key(11)]);
    assert_eq!(get_instruction_accounts(&[]), Vec::<Pubkey>::new());
}

#[test]
fn encoded_instructions_refer_to_accounts_by_position() {
    let (keys, encoded) = encode_instructions(two_instructions());
    assert_eq!(keys, vec![key(1), key(2), key(10), key(3), key(11)]);
    assert_eq!(encoded.len(), 2);
    assert_eq!(encoded[0].program_id_index, 2);
    assert_eq!(
        encoded[0].accounts,
        vec![
            TransactionAccount { pubkey_index: 0, is_signer: true, is_writable: true },
            TransactionAccount { pubkey_index: 1, is_signer: false, is_writable: false },
            TransactionAccount { pubkey_index: 2, is_signer: false, is_writable: false },
        ]
    );
    assert_eq!(encoded[1].program_id_index, 4);
    assert_eq!(
        encoded[1].accounts,
        vec![
            TransactionAccount { pubkey_index: 1, is_signer: false, is_writable: true },
            TransactionAccount { pubkey_index: 2, is_signer: false, is_writable: false },
            TransactionAccount { pubkey_index: 3, is_signer: true, is_writable: false },
            TransactionAccount { pubkey_index: 4, is_signer: false, is_writable: false },
        ]
    );
    assert_eq!(encoded[1].data, vec![2, 2]);
}

#[test]
fn encoded_instructions_decode_with_program_appended() {
    let ixs = two_instructions();
    let (keys, encoded) = encode_instructions(two_instructions());
    for (ix, t) in ixs.iter().zip(encoded.iter()) {
        let back = t.to_instruction(&keys);
        let mut accounts = ix.accounts.clone();
        accounts.push(meta(ix.program_id, false, false));
        assert_eq!(back, Instruction { program_id: ix.program_id, accounts, data: ix.data.clone() });
    }
}

#[test]
fn create_transaction_carries_the_encoded_instructions() {
    let seed = 99u128;
    let ix = create_transaction(&key(1), &key(2), &key(3), seed, two_instructions()).unwrap();
    assert_eq!(ix.program_id, id());
    assert_eq!(ix.accounts[0], meta(key(1), true, true));
    assert_eq!(ix.accounts[1], meta(key(2), true, true));
    assert_eq!(ix.accounts[2], meta(key(3), false, true));
    assert_eq!(ix.accounts[3], meta(get_transaction_address(seed).unwrap(), false, true));
    assert_eq!(ix.accounts.len(), 6);
    let (keys, encoded) = encode_instructions(two_instructions());
    let expected =
        MultisigInstruction::CreateTransaction { seed, accounts: keys, instructions: encoded }.try_to_vec();
    assert_eq!(ix.data, expected);
    let back = MultisigInstruction::try_from_slice(&ix.data).unwrap();
    match back {
        MultisigInstruction::CreateTransaction { seed: s, accounts, instructions } => {
            assert_eq!(s, seed);
            assert_eq!(accounts.len(), 5);
            assert_eq!(instructions.len(), 2);
        }
        _ => panic!("wrong variant"),
    }
}

#[test]
fn execute_never_asks_the_multisig_to_sign() {
    let multisig = key(1);
    let pubkeys = vec![key(5), multisig, key(6)];
    let accounts = vec![
        TransactionAccount { pubkey_index: 1, is_signer: true, is_writable: true },
        TransactionAccount { pubkey_index: 0, is_signer: true, is_writable: false },
        TransactionAccount { pubkey_index: 2, is_signer: false, is_writable: true },
    ];
    let ix = execute_transaction(&multisig, &key(2), &pubkeys, &accounts);
    assert_eq!(
        ix.accounts,
        vec![
            meta(multisig, false, true),
            meta(key(2), false, true),
            meta(multisig, false, true),
            meta(key(5), true, false),
            meta(key(6), false, true),
        ]
    );
    assert_eq!(ix.data, vec![6]);
}

#[test]
fn builders_with_an_address_use_that_address() {
    let ix = create_multisig_with_address(&key(1), key(8), 5, vec![key(2)], 1);
    assert_eq!(ix.accounts[1], meta(key(8), false, true));
    let derived = create_multisig(&key(1), 5, vec![key(2)], 1).unwrap();
    assert_eq!(derived.accounts[1].pubkey, get_multisig_address(5).unwrap());
    assert_eq!(derived.data, ix.data);
    let ix = create_transaction_with_address(&key(1), &key(2), &key(3), key(8), 7, two_instructions());
    assert_eq!(ix.accounts[3], meta(key(8), false, true));
    let derived = create_transaction(&key(1), &key(2), &key(3), 7, two_instructions()).unwrap();
    assert_eq!(derived.accounts[3].pubkey, get_transaction_address(7).unwrap());
    assert_eq!(derived.data, ix.data);
}
