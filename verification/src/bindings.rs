//! Builders of the instructions that clients send to the multisig program,
//! and the addresses of the accounts the program creates.
use vstd::prelude::*;

use crate::codec::{le_bytes, le_value, lemma_bytes_deep_view, lemma_le_bytes_of_value, write_u128};
use crate::codec::{all_ok, is_pubkey};
use crate::instruction::{
    enc_multisig_instruction, lemma_multisig_instruction_round_trip, multisig_instruction_from_slice, AccountMeta, AccountMetaView, Instruction, InstructionView,
    MultisigInstruction, MultisigInstructionView,
};
use crate::pubkey::{
    derived_address, id, program_id_bytes, rent_sysvar_bytes, rent_sysvar_id,
    system_program_bytes, system_program_id, try_find_program_address, Pubkey,
};
use crate::state::{
    instruction_ok, UnpackError, account_meta_of, indices_within, instruction_of, TransactionAccount, TransactionInstruction,
    TransactionInstructionView,
};

verus! {

/// A writable account.
pub open spec fn writable(pubkey: Seq<u8>, is_signer: bool) -> AccountMetaView {
    AccountMetaView { pubkey, is_signer, is_writable: true }
}

/// A read-only account.
pub open spec fn readonly(pubkey: Seq<u8>, is_signer: bool) -> AccountMetaView {
    AccountMetaView { pubkey, is_signer, is_writable: false }
}

/// The bytes of the text "multisig".
pub open spec fn multisig_tag() -> Seq<u8> {
    seq![109u8, 117, 108, 116, 105, 115, 105, 103]
}

/// The bytes of the text "transaction".
pub open spec fn transaction_tag() -> Seq<u8> {
    seq![116u8, 114, 97, 110, 115, 97, 99, 116, 105, 111, 110]
}

/// The first part of a derived address and its bump seed, if there is one.
pub open spec fn address_part(d: Option<(Seq<u8>, u8)>) -> Option<Seq<u8>> {
    match d {
        Some((address, _)) => Some(address),
        None => None,
    }
}

/// The bytes of an address, if there is one.
pub open spec fn opt_view(r: Option<Pubkey>) -> Option<Seq<u8>> {
    match r {
        Some(k) => Some(k@),
        None => None,
    }
}

/// The address of the multisig account made with `seed`: derived for the
/// multisig program from the text "multisig" and the seed's 16
/// little-endian bytes (none when no bump seed gives an address).
pub open spec fn multisig_address(seed: u128) -> Option<Seq<u8>> {
    address_part(derived_address(seq![multisig_tag(), le_bytes(seed as nat, 16)], program_id_bytes()))
}

/// The address of the transaction account made with `seed`: derived for
/// the multisig program from the text "transaction" and the seed's 16
/// little-endian bytes (none when no bump seed gives an address).
pub open spec fn transaction_address(seed: u128) -> Option<Seq<u8>> {
    address_part(derived_address(seq![transaction_tag(), le_bytes(seed as nat, 16)], program_id_bytes()))
}

/// The address that the multisig program derives from `tag` and `seed`.
fn derive_address(tag: Vec<u8>, seed: u128) -> (r: Option<Pubkey>)
    ensures
        opt_view(r) == address_part(derived_address(seq![tag@, le_bytes(seed as nat, 16)], program_id_bytes())),
{
    let mut seed_bytes: Vec<u8> = Vec::new();
    write_u128(&mut seed_bytes, seed);
    let ghost t = tag@;
    let ghost b = seed_bytes@;
    let mut seeds: Vec<Vec<u8>> = Vec::new();
    seeds.push(tag);
    seeds.push(seed_bytes);
    proof {
        lemma_bytes_deep_view(seeds@[0]);
        lemma_bytes_deep_view(seeds@[1]);
        assert(seeds.deep_view() =~= seq![t, b]);
    }
    let program = id();
    match try_find_program_address(&seeds, &program) {
        Some((address, _bump)) => Some(address),
        None => None,
    }
}

/// The address of the multisig account made with `seed`; none when no
/// bump seed gives an address off the curve.
pub fn get_multisig_address(seed: u128) -> (r: Option<Pubkey>)
    ensures
        opt_view(r) == multisig_address(seed),
{
    let tag = vec![109u8, 117, 108, 116, 105, 115, 105, 103];
    assert(tag@ =~= multisig_tag());
    derive_address(tag, seed)
}

/// The address of the transaction account made with `seed`; none when no
/// bump seed gives an address off the curve.
pub fn get_transaction_address(seed: u128) -> (r: Option<Pubkey>)
    ensures
        opt_view(r) == transaction_address(seed),
{
    let tag = vec![116u8, 114, 97, 110, 115, 97, 99, 116, 105, 111, 110];
    assert(tag@ =~= transaction_tag());
    derive_address(tag, seed)
}

/// The multisig account made with `seed` is derived for the multisig
/// program from the text "multisig" and the 16 bytes whose little-endian
/// value is the whole seed: no part of the seed is left out.
pub proof fn lemma_multisig_address_seed_bytes(seed: u128, b: Seq<u8>)
    requires
        b.len() == 16,
        le_value(b) == seed as nat,
    ensures
        multisig_address(seed) == address_part(
            derived_address(seq![seq![109u8, 117, 108, 116, 105, 115, 105, 103], b], program_id_bytes()),
        ),
{
    lemma_le_bytes_of_value(b);
    assert(multisig_tag() =~= seq![109u8, 117, 108, 116, 105, 115, 105, 103]);
}

/// The transaction account made with `seed` is derived for the multisig
/// program from the text "transaction" and the 16 bytes whose little-endian
/// value is the whole seed: seeds that differ anywhere, high bits included,
/// are derived from different bytes.
pub proof fn lemma_transaction_address_seed_bytes(seed: u128, b: Seq<u8>)
    requires
        b.len() == 16,
        le_value(b) == seed as nat,
    ensures
        transaction_address(seed) == address_part(
            derived_address(
                seq![seq![116u8, 114, 97, 110, 115, 97, 99, 116, 105, 111, 110], b],
                program_id_bytes(),
            ),
        ),
{
    lemma_le_bytes_of_value(b);
    assert(transaction_tag() =~= seq![116u8, 114, 97, 110, 115, 97, 99, 116, 105, 111, 110]);
}

/// The instruction of the multisig program with the given accounts and
/// request.
pub open spec fn program_instruction(accounts: Seq<AccountMetaView>, request: MultisigInstructionView) -> InstructionView {
    InstructionView { program_id: program_id_bytes(), accounts, data: enc_multisig_instruction(request) }
}

/// Creates the multisig account at `multisig_pubkey`, the address made with
/// `seed`, paid for by the funder, with the given owners and threshold.
pub fn create_multisig_with_address(
    funder_pubkey: &Pubkey,
    multisig_pubkey: Pubkey,
    seed: u128,
    owners: Vec<Pubkey>,
    threshold: u64,
) -> (r: Instruction)
    requires
        owners@.len() <= u32::MAX,
    ensures
        r@ == program_instruction(
            seq![
                writable(funder_pubkey@, true),
                writable(multisig_pubkey@, false),
                readonly(system_program_bytes(), false),
                readonly(rent_sysvar_bytes(), false),
            ],
            MultisigInstructionView::CreateMultisig {
                seed,
                owners: owners.deep_view(),
                threshold,
            },
        ),
{
    let request = MultisigInstruction::CreateMultisig { seed, owners, threshold };
    let data = request.try_to_vec();
    let accounts = vec![
        AccountMeta::new(*funder_pubkey, true),
        AccountMeta::new(multisig_pubkey, false),
        AccountMeta::new_readonly(system_program_id(), false),
        AccountMeta::new_readonly(rent_sysvar_id(), false),
    ];
    let r = Instruction { program_id: id(), accounts, data };
    assert(r.accounts.deep_view() =~= seq![
        writable(funder_pubkey@, true),
        writable(multisig_pubkey@, false),
        readonly(system_program_bytes(), false),
        readonly(rent_sysvar_bytes(), false),
    ]);
    r
}

/// Creates the multisig account made with `seed`, paid for by the funder,
/// with the given owners and threshold; none when the account has no
/// address.
pub fn create_multisig(funder_pubkey: &Pubkey, seed: u128, owners: Vec<Pubkey>, threshold: u64) -> (r: Option<Instruction>)
    requires
        owners@.len() <= u32::MAX,
    ensures
        match multisig_address(seed) {
            Some(address) => r matches Some(ix) && ix@ == program_instruction(
                seq![
                    writable(funder_pubkey@, true),
                    writable(address, false),
                    readonly(system_program_bytes(), false),
                    readonly(rent_sysvar_bytes(), false),
                ],
                MultisigInstructionView::CreateMultisig {
                    seed,
                    owners: owners.deep_view(),
                    threshold,
                },
            ),
            None => r is None,
        },
{
    match get_multisig_address(seed) {
        Some(multisig_pubkey) => Some(
            create_multisig_with_address(funder_pubkey, multisig_pubkey, seed, owners, threshold),
        ),
        None => None,
    }
}

/// Asks the multisig to add `owner` to its owners; the multisig account
/// itself signs it, so it runs as a transaction of the multisig.
pub fn add_owner(multisig_pubkey: &Pubkey, owner: Pubkey) -> (r: Instruction)
    ensures
        r@ == program_instruction(
            seq![writable(multisig_pubkey@, true)],
            MultisigInstructionView::AddOwner { owner: owner@ },
        ),
{
    let data = MultisigInstruction::AddOwner { owner }.try_to_vec();
    let accounts = vec![AccountMeta::new(*multisig_pubkey, true)];
    let r = Instruction { program_id: id(), accounts, data };
    assert(r.accounts.deep_view() =~= seq![writable(multisig_pubkey@, true)]);
    r
}

/// The instruction by which the proposer approves the transaction of the
/// multisig.
pub open spec fn approve_instruction(proposer: Seq<u8>, multisig: Seq<u8>, transaction: Seq<u8>) -> InstructionView {
    program_instruction(
        seq![writable(proposer, true), writable(transaction, false), readonly(multisig, false)],
        MultisigInstructionView::Approve,
    )
}

/// The proposer approves the transaction of the multisig.
pub fn approve(proposer_pubkey: &Pubkey, multisig_pubkey: &Pubkey, transaction_pubkey: &Pubkey) -> (r: Instruction)
    ensures
        r@ == approve_instruction(proposer_pubkey@, multisig_pubkey@, transaction_pubkey@),
{
    let data = MultisigInstruction::Approve.try_to_vec();
    let accounts = vec![
        AccountMeta::new(*proposer_pubkey, true),
        AccountMeta::new(*transaction_pubkey, false),
        AccountMeta::new_readonly(*multisig_pubkey, false),
    ];
    let r = Instruction { program_id: id(), accounts, data };
    assert(r.accounts.deep_view() =~= seq![
        writable(proposer_pubkey@, true),
        writable(transaction_pubkey@, false),
        readonly(multisig_pubkey@, false),
    ]);
    r
}

/// Asks the multisig to drop the pending transaction; the multisig account
/// itself signs it, so it runs as a transaction of the multisig.
pub fn delete_pending_transaction(multisig_pubkey: &Pubkey, pending_transaction: Pubkey) -> (r: Instruction)
    ensures
        r@ == program_instruction(
            seq![writable(multisig_pubkey@, true)],
            MultisigInstructionView::DeletePendingTransaction {
                pending_transaction: pending_transaction@,
            },
        ),
{
    let data = MultisigInstruction::DeletePendingTransaction { pending_transaction }.try_to_vec();
    let accounts = vec![AccountMeta::new(*multisig_pubkey, true)];
    let r = Instruction { program_id: id(), accounts, data };
    assert(r.accounts.deep_view() =~= seq![writable(multisig_pubkey@, true)]);
    r
}

/// The account that entry `a` of a transaction stands for when the
/// transaction runs: as `account_meta_of` gives it, except that the
/// multisig account is never asked to sign (the program signs for it).
pub open spec fn execution_account(a: TransactionAccount, keys: Seq<Seq<u8>>, multisig: Seq<u8>) -> AccountMetaView {
    let m = account_meta_of(a, keys);
    if m.pubkey == multisig {
        AccountMetaView { is_signer: false, ..m }
    } else {
        m
    }
}

/// When a transaction runs, the multisig account is never asked to sign (the
/// program signs for it); every other account keeps what its entry says.
pub proof fn lemma_execution_account(a: TransactionAccount, keys: Seq<Seq<u8>>, multisig: Seq<u8>)
    ensures
        execution_account(a, keys, multisig).pubkey == keys[a.pubkey_index as int],
        execution_account(a, keys, multisig).is_writable == a.is_writable,
        execution_account(a, keys, multisig).pubkey == multisig ==> !execution_account(
            a,
            keys,
            multisig,
        ).is_signer,
        execution_account(a, keys, multisig).pubkey != multisig ==> execution_account(
            a,
            keys,
            multisig,
        ).is_signer == a.is_signer,
{
}

/// The instruction that runs the transaction of the multisig: the multisig
/// and the transaction account, then the accounts that the entries
/// `accounts` stand for among the addresses `keys`.
pub open spec fn execute_instruction(
    multisig: Seq<u8>,
    transaction: Seq<u8>,
    keys: Seq<Seq<u8>>,
    accounts: Seq<TransactionAccount>,
) -> InstructionView {
    program_instruction(
        seq![writable(multisig, false), writable(transaction, false)] + accounts.map_values(
            |a: TransactionAccount| execution_account(a, keys, multisig),
        ),
        MultisigInstructionView::ExecuteTransaction,
    )
}

/// Runs the transaction of the multisig: the multisig and the transaction
/// account, then the accounts the transaction's instructions use.
pub fn execute_transaction(
    multisig_pubkey: &Pubkey,
    transaction_pubkey: &Pubkey,
    transaction_pubkeys: &[Pubkey],
    transaction_accounts: &[TransactionAccount],
) -> (r: Instruction)
    requires
        forall|i: int|
            0 <= i < transaction_accounts@.len() ==> (#[trigger] transaction_accounts@[i].pubkey_index as int)
                < transaction_pubkeys@.len(),
    ensures
        r@ == execute_instruction(
            multisig_pubkey@,
            transaction_pubkey@,
            transaction_pubkeys@.map_values(|k: Pubkey| k@),
            transaction_accounts@,
        ),
{
    let ghost keys = transaction_pubkeys@.map_values(|k: Pubkey| k@);
    let ghost f = |a: TransactionAccount| execution_account(a, keys, multisig_pubkey@);
    let mut accounts = vec![
        AccountMeta::new(*multisig_pubkey, false),
        AccountMeta::new(*transaction_pubkey, false),
    ];
    let ghost head = accounts.deep_view();
    let mut i: usize = 0;
    while i < transaction_accounts.len()
        invariant
            i <= transaction_accounts@.len(),
            forall|j: int|
                0 <= j < transaction_accounts@.len() ==> (#[trigger] transaction_accounts@[j].pubkey_index as int)
                    < transaction_pubkeys@.len(),
            keys == transaction_pubkeys@.map_values(|k: Pubkey| k@),
            f == (|a: TransactionAccount| execution_account(a, keys, multisig_pubkey@)),
            accounts.deep_view() =~= head + transaction_accounts@.take(i as int).map_values(f),
        decreases transaction_accounts@.len() - i,
    {
        assert(transaction_accounts@[i as int].pubkey_index < transaction_pubkeys@.len());
        let mut account_meta = transaction_accounts[i].to_account_meta(transaction_pubkeys);
        if account_meta.pubkey.equals(multisig_pubkey) {
            account_meta.is_signer = false;
        }
        let ghost before = accounts.deep_view();
        accounts.push(account_meta);
        proof {
            assert(account_meta@ == f(transaction_accounts@[i as int]));
            assert(transaction_accounts@.take(i + 1) =~= transaction_accounts@.take(i as int).push(
                transaction_accounts@[i as int],
            ));
            assert(accounts.deep_view() =~= before.push(account_meta@));
        }
        i = i + 1;
    }
    assert(transaction_accounts@.take(i as int) =~= transaction_accounts@);
    let data = MultisigInstruction::ExecuteTransaction.try_to_vec();
    let r = Instruction { program_id: id(), accounts, data };
    assert(head =~= seq![writable(multisig_pubkey@, false), writable(transaction_pubkey@, false)]);
    r
}

// ---------------------------------------------------------------------------
// The accounts of a list of instructions
// ---------------------------------------------------------------------------
/// The addresses an instruction names: its accounts in order, then its
/// program.
pub open spec fn instruction_keys(ix: InstructionView) -> Seq<Seq<u8>> {
    ix.accounts.map_values(|m: AccountMetaView| m.pubkey).push(ix.program_id)
}

/// The addresses the instructions name, one instruction after the other.
pub open spec fn all_keys(ixs: Seq<InstructionView>) -> Seq<Seq<u8>>
    decreases ixs.len(),
{
    if ixs.len() == 0 {
        Seq::empty()
    } else {
        all_keys(ixs.drop_last()) + instruction_keys(ixs.last())
    }
}

/// The items of `s` in the order of their first occurrence, each once.
pub open spec fn dedup(s: Seq<Seq<u8>>) -> Seq<Seq<u8>>
    decreases s.len(),
{
    if s.len() == 0 {
        Seq::empty()
    } else {
        let d = dedup(s.drop_last());
        if d.contains(s.last()) {
            d
        } else {
            d.push(s.last())
        }
    }
}

/// No item of `s` occurs twice.
pub open spec fn no_duplicates(s: Seq<Seq<u8>>) -> bool {
    forall|i: int, j: int| 0 <= i < s.len() && 0 <= j < s.len() && i != j ==> s[i] != s[j]
}

/// The position of the first occurrence of `x` in `s` (the length of `s`
/// when `x` does not occur).
pub open spec fn first_index(s: Seq<Seq<u8>>, x: Seq<u8>) -> int
    decreases s.len(),
{
    if s.len() == 0 {
        0
    } else if s[0] == x {
        0
    } else {
        1 + first_index(s.drop_first(), x)
    }
}

/// The views of a list of instructions.
pub open spec fn views_of(ixs: Seq<Instruction>) -> Seq<InstructionView> {
    ixs.map_values(|ix: Instruction| ix@)
}

/// The list of accounts that `dedup` keeps holds each item of the input
/// once, and nothing else.
pub proof fn lemma_dedup(s: Seq<Seq<u8>>)
    ensures
        no_duplicates(dedup(s)),
        forall|x: Seq<u8>| dedup(s).contains(x) <==> s.contains(x),
        dedup(s).len() <= s.len(),
    decreases s.len(),
{
    if s.len() > 0 {
        lemma_dedup(s.drop_last());
        let d = dedup(s.drop_last());
        assert forall|x: Seq<u8>| dedup(s).contains(x) <==> s.contains(x) by {
            if s.contains(x) && x != s.last() {
                let k = choose|k: int| 0 <= k < s.len() && s[k] == x;
                assert(s.drop_last().contains(x)) by {
                    assert(s.drop_last()[k] == x);
                }
            }
            if s.drop_last().contains(x) {
                let k = choose|k: int| 0 <= k < s.drop_last().len() && s.drop_last()[k] == x;
                assert(s[k] == x);
            }
            if x == s.last() {
                assert(s[s.len() - 1] == x);
            }
            if !d.contains(s.last()) && dedup(s).contains(x) && !d.contains(x) {
                let k = choose|k: int| 0 <= k < dedup(s).len() && dedup(s)[k] == x;
                if k < d.len() {
                    assert(d[k] == x);
                }
            }
            if !d.contains(s.last()) && d.contains(x) {
                let k = choose|k: int| 0 <= k < d.len() && d[k] == x;
                assert(dedup(s)[k] == x);
            }
            if !d.contains(s.last()) && x == s.last() {
                assert(dedup(s)[d.len() as int] == x);
            }
        }
    }
}

pub proof fn lemma_first_index(s: Seq<Seq<u8>>, x: Seq<u8>)
    ensures
        0 <= first_index(s, x) <= s.len(),
        s.contains(x) ==> first_index(s, x) < s.len() && s[first_index(s, x)] == x,
        forall|j: int| 0 <= j < first_index(s, x) ==> s[j] != x,
    decreases s.len(),
{
    if s.len() > 0 && s[0] != x {
        lemma_first_index(s.drop_first(), x);
        if s.contains(x) {
            let k = choose|k: int| 0 <= k < s.len() && s[k] == x;
            assert(s.drop_first()[k - 1] == x);
        }
        assert forall|j: int| 0 <= j < first_index(s, x) implies s[j] != x by {
            if j > 0 {
                assert(s[j] == s.drop_first()[j - 1]);
            }
        }
    }
}

/// Position `i` is where `x` first occurs in `s`.
pub proof fn lemma_first_index_at(s: Seq<Seq<u8>>, x: Seq<u8>, i: int)
    requires
        0 <= i < s.len(),
        s[i] == x,
        forall|j: int| 0 <= j < i ==> s[j] != x,
    ensures
        first_index(s, x) == i,
    decreases i,
{
    if i > 0 {
        assert(s[0] != x);
        assert forall|j: int| 0 <= j < i - 1 implies s.drop_first()[j] != x by {
            assert(s.drop_first()[j] == s[j + 1]);
        }
        lemma_first_index_at(s.drop_first(), x, i - 1);
    }
}

/// The position of `k` in `keys`, if it occurs.
fn find_key(keys: &Vec<Pubkey>, k: &Pubkey) -> (r: Option<usize>)
    ensures
        match r {
            Some(i) => i < keys@.len() && keys.deep_view()[i as int] == k@ && first_index(
                keys.deep_view(),
                k@,
            ) == i,
            None => !keys.deep_view().contains(k@),
        },
{
    let ghost ks = keys.deep_view();
    let mut i: usize = 0;
    while i < keys.len()
        invariant
            i <= keys@.len(),
            ks == keys.deep_view(),
            forall|j: int| 0 <= j < i ==> ks[j] != k@,
        decreases keys@.len() - i,
    {
        if keys[i].equals(k) {
            proof {
                lemma_first_index_at(ks, k@, i as int);
            }
            return Some(i);
        }
        i = i + 1;
    }
    proof {
        if ks.contains(k@) {
            let j = choose|j: int| 0 <= j < ks.len() && ks[j] == k@;
            assert(ks[j] != k@);
        }
    }
    None
}

/// Appends `k` unless it is already listed.
fn add_unique(seen: &mut Vec<Pubkey>, k: Pubkey)
    ensures
        final(seen).deep_view() == (if old(seen).deep_view().contains(k@) {
            old(seen).deep_view()
        } else {
            old(seen).deep_view().push(k@)
        }),
{
    match find_key(seen, &k) {
        Some(i) => {
            assert(seen.deep_view()[i as int] == k@);
        },
        None => {
            let ghost before = seen.deep_view();
            seen.push(k);
            assert(seen.deep_view() =~= before.push(k@));
        },
    }
}

pub proof fn lemma_dedup_push(s: Seq<Seq<u8>>, x: Seq<u8>)
    ensures
        dedup(s.push(x)) == (if dedup(s).contains(x) {
            dedup(s)
        } else {
            dedup(s).push(x)
        }),
{
    assert(s.push(x).drop_last() =~= s);
}

pub proof fn lemma_all_keys_take(ixs: Seq<InstructionView>, i: int)
    requires
        0 <= i < ixs.len(),
    ensures
        all_keys(ixs.take(i + 1)) == all_keys(ixs.take(i)) + instruction_keys(ixs[i]),
{
    assert(ixs.take(i + 1).drop_last() =~= ixs.take(i));
}

/// Every address that the instructions name, in the order of first
/// occurrence, each once: the instructions' accounts in order, each followed
/// by its program.
pub fn get_instruction_accounts(ixs: &[Instruction]) -> (r: Vec<Pubkey>)
    ensures
        r.deep_view() == dedup(all_keys(views_of(ixs@))),
        no_duplicates(r.deep_view()),
        forall|x: Seq<u8>| r.deep_view().contains(x) <==> all_keys(views_of(ixs@)).contains(x),
{
    let ghost views = views_of(ixs@);
    let mut seen: Vec<Pubkey> = Vec::new();
    let ghost mut done: Seq<Seq<u8>> = Seq::empty();
    let mut i: usize = 0;
    assert(seen.deep_view() =~= dedup(done));
    assert(views.take(0) =~= Seq::<InstructionView>::empty());
    while i < ixs.len()
        invariant
            i <= ixs@.len(),
            views == views_of(ixs@),
            done == all_keys(views.take(i as int)),
            seen.deep_view() == dedup(done),
        decreases ixs@.len() - i,
    {
        let ix = &ixs[i];
        let ghost base = done;
        let ghost metas = ix@.accounts;
        let mut j: usize = 0;
        assert(base + metas.map_values(|m: AccountMetaView| m.pubkey).take(0) =~= base);
        while j < ix.accounts.len()
            invariant
                j <= ix.accounts@.len(),
                metas == ix@.accounts,
                done == base + metas.map_values(|m: AccountMetaView| m.pubkey).take(j as int),
                seen.deep_view() == dedup(done),
            decreases ix.accounts@.len() - j,
        {
            add_unique(&mut seen, ix.accounts[j].pubkey);
            proof {
                lemma_dedup_push(done, ix.accounts@[j as int].pubkey@);
                done = done.push(ix.accounts@[j as int].pubkey@);
                assert(metas[j as int].pubkey == ix.accounts@[j as int].pubkey@);
                assert(done =~= base + metas.map_values(|m: AccountMetaView| m.pubkey).take(j + 1));
            }
            j = j + 1;
        }
        add_unique(&mut seen, ix.program_id);
        proof {
            lemma_dedup_push(done, ix.program_id@);
            done = done.push(ix.program_id@);
            assert(views[i as int] == ix@);
            assert(metas.map_values(|m: AccountMetaView| m.pubkey).take(j as int) =~= metas.map_values(
                |m: AccountMetaView| m.pubkey,
            ));
            assert(done =~= base + instruction_keys(views[i as int]));
            lemma_all_keys_take(views, i as int);
        }
        i = i + 1;
    }
    proof {
        assert(views.take(i as int) =~= views);
        lemma_dedup(done);
    }
    seen
}

/// The addresses of two lists of instructions joined are those of the first
/// list followed by those of the second.
pub proof fn lemma_all_keys_concat(a: Seq<InstructionView>, b: Seq<InstructionView>)
    ensures
        all_keys(a + b) == all_keys(a) + all_keys(b),
    decreases b.len(),
{
    if b.len() == 0 {
        assert(a + b =~= a);
        assert(all_keys(a) + all_keys(b) =~= all_keys(a));
    } else {
        lemma_all_keys_concat(a, b.drop_last());
        assert((a + b).drop_last() =~= a + b.drop_last());
        assert((a + b).last() == b.last());
        assert(all_keys(a) + all_keys(b) =~= all_keys(a) + all_keys(b.drop_last()) + instruction_keys(
            b.last(),
        ));
    }
}

/// Keeping the first occurrences of `s` followed by `t` starts with the
/// first occurrences of `s`.
pub proof fn lemma_dedup_prefix(s: Seq<Seq<u8>>, t: Seq<Seq<u8>>)
    ensures
        dedup(s).len() <= dedup(s + t).len(),
        dedup(s + t).subrange(0, dedup(s).len() as int) == dedup(s),
    decreases t.len(),
{
    if t.len() == 0 {
        assert(s + t =~= s);
        assert(dedup(s).subrange(0, dedup(s).len() as int) =~= dedup(s));
    } else {
        let t0 = t.drop_last();
        lemma_dedup_prefix(s, t0);
        assert(s + t =~= (s + t0).push(t.last()));
        lemma_dedup_push(s + t0, t.last());
        let d0 = dedup(s + t0);
        if !d0.contains(t.last()) {
            assert(d0.push(t.last()).subrange(0, dedup(s).len() as int) =~= d0.subrange(
                0,
                dedup(s).len() as int,
            ));
        }
    }
}

/// Adding addresses that already occur leaves the first occurrences as
/// they were.
pub proof fn lemma_dedup_absorbs(s: Seq<Seq<u8>>, t: Seq<Seq<u8>>)
    requires
        forall|x: Seq<u8>| t.contains(x) ==> s.contains(x),
    ensures
        dedup(s + t) == dedup(s),
    decreases t.len(),
{
    if t.len() == 0 {
        assert(s + t =~= s);
    } else {
        let t0 = t.drop_last();
        let x = t.last();
        assert forall|y: Seq<u8>| t0.contains(y) implies s.contains(y) by {
            let k = choose|k: int| 0 <= k < t0.len() && t0[k] == y;
            assert(t[k] == y);
        }
        lemma_dedup_absorbs(s, t0);
        assert(s + t =~= (s + t0).push(x));
        lemma_dedup_push(s + t0, x);
        assert(t.contains(x)) by {
            assert(t[t.len() - 1] == x);
        }
        lemma_dedup(s + t0);
        let k = choose|k: int| 0 <= k < s.len() && s[k] == x;
        assert((s + t0)[k] == x);
        assert((s + t0).contains(x));
    }
}

/// The views of two lists of instructions joined are the views of each
/// list joined.
pub proof fn lemma_views_concat(a: Seq<Instruction>, b: Seq<Instruction>)
    ensures
        views_of(a + b) == views_of(a) + views_of(b),
{
    assert(views_of(a + b) =~= views_of(a) + views_of(b));
}

/// The accounts of two lists of instructions joined, as
/// `get_instruction_accounts` gives them, start with the accounts of the
/// first list; and the accounts of a list joined with itself are the
/// accounts of the list.
pub proof fn lemma_instruction_accounts_of_joined(ixs1: Seq<Instruction>, ixs2: Seq<Instruction>)
    ensures
        dedup(all_keys(views_of(ixs1))).len() <= dedup(all_keys(views_of(ixs1 + ixs2))).len(),
        dedup(all_keys(views_of(ixs1 + ixs2))).subrange(0, dedup(all_keys(views_of(ixs1))).len() as int)
            == dedup(all_keys(views_of(ixs1))),
        dedup(all_keys(views_of(ixs1 + ixs1))) == dedup(all_keys(views_of(ixs1))),
{
    lemma_views_concat(ixs1, ixs2);
    lemma_views_concat(ixs1, ixs1);
    lemma_all_keys_concat(views_of(ixs1), views_of(ixs2));
    lemma_all_keys_concat(views_of(ixs1), views_of(ixs1));
    lemma_dedup_prefix(all_keys(views_of(ixs1)), all_keys(views_of(ixs2)));
    lemma_dedup_absorbs(all_keys(views_of(ixs1)), all_keys(views_of(ixs1)));
}

// ---------------------------------------------------------------------------
// The compact form of a transaction's instructions
// ---------------------------------------------------------------------------
/// The entry that stands for account `m` among the addresses `keys`: the
/// position of its address, truncated to a byte.
pub open spec fn encoded_account(m: AccountMetaView, keys: Seq<Seq<u8>>) -> TransactionAccount {
    TransactionAccount {
        pubkey_index: first_index(keys, m.pubkey) as u8,
        is_signer: m.is_signer,
        is_writable: m.is_writable,
    }
}

/// The compact form of `ix` among the addresses `keys`: its program and
/// accounts by position, then its program once more as a read-only,
/// non-signing account.
pub open spec fn encoded_instruction(ix: InstructionView, keys: Seq<Seq<u8>>) -> TransactionInstructionView {
    TransactionInstructionView {
        program_id_index: first_index(keys, ix.program_id) as u8,
        accounts: ix.accounts.map_values(|m: AccountMetaView| encoded_account(m, keys)).push(
            encoded_account(readonly(ix.program_id, false), keys),
        ),
        data: ix.data,
    }
}

/// Every address that instruction `i` names is among those of all the
/// instructions.
pub proof fn lemma_keys_in_all(ixs: Seq<InstructionView>, i: int, x: Seq<u8>)
    requires
        0 <= i < ixs.len(),
        instruction_keys(ixs[i]).contains(x),
    ensures
        all_keys(ixs).contains(x),
        instruction_keys(ixs[i]).len() <= all_keys(ixs).len(),
    decreases ixs.len(),
{
    let d = all_keys(ixs.drop_last());
    let l = instruction_keys(ixs.last());
    if i == ixs.len() - 1 {
        let k = choose|k: int| 0 <= k < l.len() && l[k] == x;
        assert((d + l)[d.len() + k] == x);
    } else {
        assert(ixs.drop_last()[i] == ixs[i]);
        lemma_keys_in_all(ixs.drop_last(), i, x);
        let k = choose|k: int| 0 <= k < d.len() && d[k] == x;
        assert((d + l)[k] == x);
    }
}

/// The position of `k` among `keys`, truncated to a byte.
fn pubkey_index(keys: &Vec<Pubkey>, k: &Pubkey) -> (r: u8)
    requires
        keys.deep_view().contains(k@),
    ensures
        r == first_index(keys.deep_view(), k@) as u8,
{
    match find_key(keys, k) {
        Some(i) => i as u8,
        None => {
            proof {
                assert(false);
            }
            0
        },
    }
}

/// The addresses of the instructions, each once, and the instructions in
/// the compact form that refers to accounts by their position among those
/// addresses.
pub fn encode_instructions(ixs: Vec<Instruction>) -> (r: (Vec<Pubkey>, Vec<TransactionInstruction>))
    ensures
        r.0.deep_view() == dedup(all_keys(views_of(ixs@))),
        r.1.deep_view() == views_of(ixs@).map_values(
            |ix: InstructionView| encoded_instruction(ix, r.0.deep_view()),
        ),
{
    let transaction_accounts = get_instruction_accounts(ixs.as_slice());
    let ghost views = views_of(ixs@);
    let ghost keys = transaction_accounts.deep_view();
    let ghost enc = |ix: InstructionView| encoded_instruction(ix, keys);
    let mut transaction_instructions: Vec<TransactionInstruction> = Vec::new();
    let mut i: usize = 0;
    while i < ixs.len()
        invariant
            i <= ixs@.len(),
            views == views_of(ixs@),
            keys == transaction_accounts.deep_view(),
            forall|x: Seq<u8>| keys.contains(x) <==> all_keys(views).contains(x),
            enc == (|ix: InstructionView| encoded_instruction(ix, keys)),
            transaction_instructions.deep_view() =~= views.take(i as int).map_values(enc),
        decreases ixs@.len() - i,
    {
        let ix = &ixs[i];
        let ghost v = views[i as int];
        assert(v == ix@);
        let ghost f = |m: AccountMetaView| encoded_account(m, keys);
        let mut accounts: Vec<TransactionAccount> = Vec::new();
        let mut j: usize = 0;
        while j < ix.accounts.len()
            invariant
                j <= ix.accounts@.len(),
                i < ixs@.len(),
                views == views_of(ixs@),
                v == views[i as int],
                v == ix@,
                keys == transaction_accounts.deep_view(),
                forall|x: Seq<u8>| keys.contains(x) <==> all_keys(views).contains(x),
                f == (|m: AccountMetaView| encoded_account(m, keys)),
                accounts@ =~= v.accounts.take(j as int).map_values(f),
            decreases ix.accounts@.len() - j,
        {
            let acc = ix.accounts[j];
            proof {
                assert(v.accounts[j as int] == acc@);
                assert(instruction_keys(v)[j as int] == acc.pubkey@);
                lemma_keys_in_all(views, i as int, acc.pubkey@);
            }
            let idx = pubkey_index(&transaction_accounts, &acc.pubkey);
            let ghost before = accounts@;
            accounts.push(TransactionAccount { pubkey_index: idx, is_signer: acc.is_signer, is_writable: acc.is_writable });
            proof {
                assert(v.accounts.take(j + 1) =~= v.accounts.take(j as int).push(v.accounts[j as int]));
                assert(accounts@ =~= before.push(f(v.accounts[j as int])));
            }
            j = j + 1;
        }
        proof {
            assert(instruction_keys(v)[instruction_keys(v).len() - 1] == ix.program_id@);
            lemma_keys_in_all(views, i as int, ix.program_id@);
            assert(v.accounts.take(j as int) =~= v.accounts);
        }
        let pidx = pubkey_index(&transaction_accounts, &ix.program_id);
        accounts.push(TransactionAccount { pubkey_index: pidx, is_signer: false, is_writable: false });
        let t = TransactionInstruction { program_id_index: pidx, accounts, data: ix.data.clone() };
        assert(t@ == enc(v));
        let ghost before = transaction_instructions.deep_view();
        transaction_instructions.push(t);
        proof {
            assert(views.take(i + 1) =~= views.take(i as int).push(views[i as int]));
            assert(transaction_instructions.deep_view() =~= before.push(t@));
        }
        i = i + 1;
    }
    assert(views.take(i as int) =~= views);
    (transaction_accounts, transaction_instructions)
}

/// The lists that `create_transaction` writes fit the format: at most
/// `u32::MAX` instructions, distinct addresses, and data bytes of one
/// instruction, and fewer than `u32::MAX` accounts in one instruction (its
/// program is added as one more).
pub open spec fn transaction_fits_format(ixs: Seq<InstructionView>) -> bool {
    &&& ixs.len() <= u32::MAX
    &&& dedup(all_keys(ixs)).len() <= u32::MAX
    &&& forall|i: int|
        0 <= i < ixs.len() ==> (#[trigger] ixs[i]).accounts.len() + 1 <= u32::MAX && ixs[i].data.len()
            <= u32::MAX
}

/// The accounts and compact instructions that `create_transaction` sends
/// for the instructions `ixs`.
pub open spec fn transaction_request(seed: u128, ixs: Seq<InstructionView>) -> MultisigInstructionView {
    let keys = dedup(all_keys(ixs));
    MultisigInstructionView::CreateTransaction {
        seed,
        accounts: keys,
        instructions: ixs.map_values(|ix: InstructionView| encoded_instruction(ix, keys)),
    }
}

/// The proposer, one of the owners, proposes a transaction of the multisig
/// that runs the instructions `ixs`; the funder pays for the transaction
/// account at `transaction_pubkey`, the address made with `seed`.
pub fn create_transaction_with_address(
    funder_pubkey: &Pubkey,
    proposer_pubkey: &Pubkey,
    multisig_pubkey: &Pubkey,
    transaction_pubkey: Pubkey,
    seed: u128,
    ixs: Vec<Instruction>,
) -> (r: Instruction)
    requires
        transaction_fits_format(views_of(ixs@)),
    ensures
        r@ == program_instruction(
            seq![
                writable(funder_pubkey@, true),
                writable(proposer_pubkey@, true),
                writable(multisig_pubkey@, false),
                writable(transaction_pubkey@, false),
                readonly(system_program_bytes(), false),
                readonly(rent_sysvar_bytes(), false),
            ],
            transaction_request(seed, views_of(ixs@)),
        ),
{
    let ghost views = views_of(ixs@);
    let ghost n = ixs@.len();
    let (transaction_accounts, transaction_instructions) = encode_instructions(ixs);
    let ghost keys = transaction_accounts.deep_view();
    proof {
        assert forall|i: int| 0 <= i < transaction_instructions@.len() implies crate::state::instruction_fits(
            #[trigger] transaction_instructions@[i]@,
        ) by {
            let tv = transaction_instructions.deep_view();
            assert(tv.len() == transaction_instructions@.len());
            assert(tv == views.map_values(|ix: InstructionView| encoded_instruction(ix, keys)));
            assert(i < views.len());
            assert(tv[i] == transaction_instructions@[i]@);
            assert(tv[i] == encoded_instruction(views[i], keys));
            assert(views[i].data.len() <= u32::MAX);
            assert(views[i].accounts.len() + 1 <= u32::MAX);
        }
    }
    assert(transaction_accounts@.len() == keys.len());
    assert(transaction_instructions@.len() == transaction_instructions.deep_view().len());
    assert(transaction_instructions.deep_view().len() == n);
    let request = MultisigInstruction::CreateTransaction {
        seed,
        accounts: transaction_accounts,
        instructions: transaction_instructions,
    };
    let data = request.try_to_vec();
    let accounts = vec![
        AccountMeta::new(*funder_pubkey, true),
        AccountMeta::new(*proposer_pubkey, true),
        AccountMeta::new(*multisig_pubkey, false),
        AccountMeta::new(transaction_pubkey, false),
        AccountMeta::new_readonly(system_program_id(), false),
        AccountMeta::new_readonly(rent_sysvar_id(), false),
    ];
    let r = Instruction { program_id: id(), accounts, data };
    assert(r.accounts.deep_view() =~= seq![
        writable(funder_pubkey@, true),
        writable(proposer_pubkey@, true),
        writable(multisig_pubkey@, false),
        writable(transaction_pubkey@, false),
        readonly(system_program_bytes(), false),
        readonly(rent_sysvar_bytes(), false),
    ]);
    r
}

/// The proposer, one of the owners, proposes a transaction of the multisig
/// that runs the instructions `ixs`; the funder pays for the transaction
/// account made with `seed`. None when that account has no address.
pub fn create_transaction(
    funder_pubkey: &Pubkey,
    proposer_pubkey: &Pubkey,
    multisig_pubkey: &Pubkey,
    seed: u128,
    ixs: Vec<Instruction>,
) -> (r: Option<Instruction>)
    requires
        transaction_fits_format(views_of(ixs@)),
    ensures
        match transaction_address(seed) {
            Some(address) => r matches Some(ix) && ix@ == program_instruction(
                seq![
                    writable(funder_pubkey@, true),
                    writable(proposer_pubkey@, true),
                    writable(multisig_pubkey@, false),
                    writable(address, false),
                    readonly(system_program_bytes(), false),
                    readonly(rent_sysvar_bytes(), false),
                ],
                transaction_request(seed, views_of(ixs@)),
            ),
            None => r is None,
        },
{
    match get_transaction_address(seed) {
        Some(transaction_pubkey) => Some(
            create_transaction_with_address(
                funder_pubkey,
                proposer_pubkey,
                multisig_pubkey,
                transaction_pubkey,
                seed,
                ixs,
            ),
        ),
        None => None,
    }
}

/// Every address that instructions in memory name has 32 bytes.
pub proof fn lemma_all_keys_are_pubkeys(ixs: Seq<Instruction>)
    ensures
        forall|x: Seq<u8>| all_keys(views_of(ixs)).contains(x) ==> x.len() == 32,
    decreases ixs.len(),
{
    if ixs.len() > 0 {
        let p = ixs.drop_last();
        lemma_all_keys_are_pubkeys(p);
        assert(views_of(ixs).drop_last() =~= views_of(p));
        let d = all_keys(views_of(p));
        let ix = ixs.last();
        let l = instruction_keys(views_of(ixs).last());
        assert(views_of(ixs).last() == ix@);
        assert forall|x: Seq<u8>| all_keys(views_of(ixs)).contains(x) implies x.len() == 32 by {
            let k = choose|k: int| 0 <= k < (d + l).len() && (d + l)[k] == x;
            if k < d.len() {
                assert(d[k] == x);
            } else {
                let j = k - d.len();
                assert(l[j] == x);
                if j < ix@.accounts.len() {
                    assert(x == ix.accounts@[j].pubkey@);
                } else {
                    assert(x == ix.program_id@);
                }
            }
        }
    }
}

/// The program reads back the request that `create_transaction` writes:
/// `MultisigInstruction::try_from_slice` of the instruction data is the
/// request, the instructions' addresses and their compact form.
pub proof fn lemma_create_transaction_data_decodes(seed: u128, ixs: Seq<Instruction>)
    requires
        transaction_fits_format(views_of(ixs)),
    ensures
        multisig_instruction_from_slice(enc_multisig_instruction(transaction_request(seed, views_of(ixs))))
            == Ok::<MultisigInstructionView, UnpackError>(transaction_request(seed, views_of(ixs))),
{
    let views = views_of(ixs);
    let keys = dedup(all_keys(views));
    let request = transaction_request(seed, views);
    lemma_dedup(all_keys(views));
    lemma_all_keys_are_pubkeys(ixs);
    assert(all_ok(keys, is_pubkey())) by {
        assert forall|i: int| 0 <= i < keys.len() implies #[trigger] is_pubkey()(keys[i]) by {
            assert(keys.contains(keys[i]));
        }
    }
    let encoded = views.map_values(|ix: InstructionView| encoded_instruction(ix, keys));
    assert(all_ok(encoded, instruction_ok())) by {
        assert forall|i: int| 0 <= i < encoded.len() implies #[trigger] instruction_ok()(encoded[i]) by {
            assert(encoded[i] == encoded_instruction(views[i], keys));
        }
    }
    lemma_multisig_instruction_round_trip(request);
}

/// When the instructions name at most 256 distinct addresses, the compact
/// form of each instruction refers only to listed accounts, and turning it
/// back into an instruction (as `TransactionInstruction::to_instruction`
/// does) gives the instruction with its program appended as a read-only,
/// non-signing account.
pub proof fn lemma_encoded_instruction_decodes(ixs: Seq<InstructionView>, i: int)
    requires
        0 <= i < ixs.len(),
        dedup(all_keys(ixs)).len() <= 256,
    ensures
        indices_within(encoded_instruction(ixs[i], dedup(all_keys(ixs))), dedup(all_keys(ixs)).len()),
        instruction_of(encoded_instruction(ixs[i], dedup(all_keys(ixs))), dedup(all_keys(ixs)))
            == (InstructionView {
            program_id: ixs[i].program_id,
            accounts: ixs[i].accounts.push(readonly(ixs[i].program_id, false)),
            data: ixs[i].data,
        }),
{
    let keys = dedup(all_keys(ixs));
    let ix = ixs[i];
    let t = encoded_instruction(ix, keys);
    lemma_dedup(all_keys(ixs));
    assert forall|x: Seq<u8>| #[trigger] instruction_keys(ix).contains(x) implies first_index(keys, x) < keys.len()
        && keys[first_index(keys, x)] == x && (first_index(keys, x) as u8) as int == first_index(
        keys,
        x,
    ) by {
        lemma_keys_in_all(ixs, i, x);
        lemma_first_index(keys, x);
    }
    let pk = instruction_keys(ix);
    assert(pk.contains(ix.program_id)) by {
        assert(pk[pk.len() - 1] == ix.program_id);
    }
    assert forall|j: int| 0 <= j < ix.accounts.len() implies #[trigger] pk.contains(ix.accounts[j].pubkey) by {
        assert(pk[j] == ix.accounts[j].pubkey);
    }
    let expected = ix.accounts.push(readonly(ix.program_id, false));
    let got = t.accounts.map_values(|a: TransactionAccount| account_meta_of(a, keys));
    assert forall|j: int| 0 <= j < t.accounts.len() implies (#[trigger] t.accounts[j].pubkey_index as int)
        < keys.len() by {
        if j < ix.accounts.len() {
            assert(pk.contains(ix.accounts[j].pubkey));
        }
    }
    assert forall|j: int| 0 <= j < expected.len() implies #[trigger] got[j] == expected[j] by {
        if j < ix.accounts.len() {
            assert(pk.contains(ix.accounts[j].pubkey));
        }
    }
    assert(got =~= expected);
}

} // verus!
