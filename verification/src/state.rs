//! Account state: the multisig account, the transaction accounts it
//! governs, and the compact form in which a transaction stores the
//! instructions it will run.
use vstd::prelude::*;

use crate::codec::{
    agrees, all_ok, any_value, bool_encoder, bool_reader, bytes_at, enc_bool, enc_pubkey, enc_seq,
    enc_u128, enc_u64, enc_u8, is_pubkey, lemma_all_any, lemma_bool_reads_back,
    lemma_bools_deep_view, lemma_bytes_at_concat, lemma_bytes_deep_view, lemma_flatten_push,
    lemma_pubkey_reads_back, lemma_pubkeys_ok, lemma_read_bool, lemma_read_items_start,
    lemma_read_items_step, lemma_read_pubkey, lemma_read_seq, lemma_read_u128, lemma_read_u64,
    lemma_read_u8, lemma_u8_reads_back, pubkey_encoder, pubkey_reader, read_bool, read_bool_at,
    read_bools_at, read_bytes_at, read_items, read_pubkey, read_pubkey_at, read_pubkeys_at,
    read_seq, read_u128, read_u128_at, read_u32_at, read_u64, read_u64_at, read_u8, read_u8_at,
    reads_back, u8_encoder, u8_reader, write_bool, write_bools, write_bytes, write_pubkey,
    write_pubkeys, write_u128, write_u32, write_u64, write_u8, flatten, le_bytes,
    lemma_bool_list_at, lemma_pubkey_list_at, lemma_read_seq_count, lemma_read_u128_value,
    lemma_read_u64_value, lemma_byte_list_at, read_u32,
};
use crate::instruction::{AccountMeta, AccountMetaView, Instruction, InstructionView};
use crate::pubkey::Pubkey;

verus! {

/// Minimum number of multisignature signers
pub const MIN_SIGNERS: usize = 1;

/// Maximum number of multisignature signers
pub const MAX_SIGNERS: usize = 10;

/// Maximum number of pending transactions
pub const MAX_TRANSACTIONS: usize = 15;

/// Why stored account data could not be read.
#[derive(Debug, Clone, Copy, PartialEq, Eq, Structural)]
pub enum UnpackError {
    /// The account data does not have the length of the state it holds.
    InvalidAccountData,
    /// The account holds state that was never initialized.
    UninitializedAccount,
    /// The bytes do not encode a value of the expected type.
    InvalidEncoding,
}

// ---------------------------------------------------------------------------
// TransactionAccount
// ---------------------------------------------------------------------------
/// An account of an instruction, by its index in the transaction's list of
/// accounts.
#[derive(Clone, Copy, Debug, PartialEq, Eq, Structural)]
pub struct TransactionAccount {
    pub pubkey_index: u8,
    pub is_signer: bool,
    pub is_writable: bool,
}

impl DeepView for TransactionAccount {
    type V = TransactionAccount;

    open spec fn deep_view(&self) -> TransactionAccount {
        *self
    }
}

pub open spec fn enc_account(a: TransactionAccount) -> Seq<u8> {
    enc_u8(a.pubkey_index) + enc_bool(a.is_signer) + enc_bool(a.is_writable)
}

pub open spec fn read_account(s: Seq<u8>, p: nat) -> Option<(TransactionAccount, nat)> {
    match read_u8(s, p) {
        Some((i, p1)) => match read_bool(s, p1) {
            Some((sg, p2)) => match read_bool(s, p2) {
                Some((w, p3)) => Some(
                    (TransactionAccount { pubkey_index: i, is_signer: sg, is_writable: w }, p3),
                ),
                None => None,
            },
            None => None,
        },
        None => None,
    }
}

pub open spec fn account_encoder() -> spec_fn(TransactionAccount) -> Seq<u8> {
    |a: TransactionAccount| enc_account(a)
}

pub open spec fn account_reader() -> spec_fn(Seq<u8>, nat) -> Option<(TransactionAccount, nat)> {
    |s: Seq<u8>, p: nat| read_account(s, p)
}

pub proof fn lemma_read_account(s: Seq<u8>, p: nat, a: TransactionAccount)
    requires
        bytes_at(s, p, enc_account(a)),
    ensures
        read_account(s, p) == Some((a, p + 3)),
{
    lemma_bytes_at_concat(s, p, enc_u8(a.pubkey_index) + enc_bool(a.is_signer), enc_bool(a.is_writable));
    lemma_bytes_at_concat(s, p, enc_u8(a.pubkey_index), enc_bool(a.is_signer));
    lemma_read_u8(s, p, a.pubkey_index);
    lemma_read_bool(s, p + 1, a.is_signer);
    lemma_read_bool(s, p + 2, a.is_writable);
}

pub proof fn lemma_account_reads_back()
    ensures
        reads_back(account_reader(), account_encoder(), any_value()),
{
    assert forall|s: Seq<u8>, p: nat, a: TransactionAccount|
        any_value()(a) && bytes_at(s, p, #[trigger] account_encoder()(a)) implies #[trigger] account_reader()(s, p)
        == Some((a, p + account_encoder()(a).len())) by {
        lemma_read_account(s, p, a);
    }
}

pub proof fn lemma_accounts_deep_view(v: Vec<TransactionAccount>)
    ensures
        v.deep_view() == v@,
{
    assert(v.deep_view() =~= v@);
}

fn write_account(out: &mut Vec<u8>, a: &TransactionAccount)
    ensures
        final(out)@ == old(out)@ + enc_account(*a),
{
    write_u8(out, a.pubkey_index);
    write_bool(out, a.is_signer);
    write_bool(out, a.is_writable);
    assert(out@ =~= old(out)@ + enc_account(*a));
}

fn read_account_at(s: &[u8], pos: usize) -> (r: Option<(TransactionAccount, usize)>)
    ensures
        agrees(r, read_account(s@, pos as nat), s@.len()),
{
    let (i, p1) = match read_u8_at(s, pos) {
        Some(x) => x,
        None => return None,
    };
    let (sg, p2) = match read_bool_at(s, p1) {
        Some(x) => x,
        None => return None,
    };
    let (w, p3) = match read_bool_at(s, p2) {
        Some(x) => x,
        None => return None,
    };
    Some((TransactionAccount { pubkey_index: i, is_signer: sg, is_writable: w }, p3))
}

fn write_accounts(out: &mut Vec<u8>, v: &Vec<TransactionAccount>)
    requires
        v@.len() <= u32::MAX,
    ensures
        final(out)@ == old(out)@ + enc_seq(v@, account_encoder()),
{
    let ghost start = out@;
    let ghost xs = v@;
    write_u32(out, v.len() as u32);
    let mut i: usize = 0;
    while i < v.len()
        invariant
            i <= v@.len(),
            xs == v@,
            out@ == start + le_bytes(xs.len(), 4) + flatten(xs.take(i as int), account_encoder()),
        decreases v@.len() - i,
    {
        write_account(out, &v[i]);
        proof {
            assert(xs.take(i + 1) =~= xs.take(i as int).push(xs[i as int]));
            lemma_flatten_push(xs.take(i as int), xs[i as int], account_encoder());
        }
        i = i + 1;
    }
    assert(xs.take(i as int) =~= xs);
}

fn read_accounts_at(s: &[u8], pos: usize) -> (r: Option<(Vec<TransactionAccount>, usize)>)
    ensures
        agrees(r, read_seq(s@, pos as nat, account_reader()), s@.len()),
{
    let (n, mut p) = match read_u32_at(s, pos) {
        Some(x) => x,
        None => return None,
    };
    let mut acc: Vec<TransactionAccount> = Vec::new();
    proof {
        lemma_read_items_start(s@, p as nat, n as nat, account_reader());
        assert(acc.deep_view() =~= Seq::<TransactionAccount>::empty());
    }
    let mut i: u32 = 0;
    while i < n
        invariant
            i <= n,
            p <= s@.len(),
            read_seq(s@, pos as nat, account_reader()) == (match read_items(
                s@,
                p as nat,
                (n - i) as nat,
                account_reader(),
            ) {
                Some((xs, q)) => Some((acc.deep_view() + xs, q)),
                None => None,
            }),
        decreases n - i,
    {
        match read_account_at(s, p) {
            Some((x, p1)) => {
                proof {
                    lemma_read_items_step(
                        s@,
                        p as nat,
                        (n - i) as nat,
                        account_reader(),
                        x.deep_view(),
                        p1 as nat,
                        acc.deep_view(),
                    );
                }
                let ghost before = acc.deep_view();
                acc.push(x);
                assert(acc.deep_view() =~= before.push(x.deep_view()));
                p = p1;
                i = i + 1;
            },
            None => {
                return None;
            },
        }
    }
    assert(acc.deep_view() + Seq::<TransactionAccount>::empty() =~= acc.deep_view());
    Some((acc, p))
}

impl TransactionAccount {
    /// The account this entry stands for, given the transaction's list of
    /// accounts: writable or read-only, signer or not, as the entry says.
    pub fn to_account_meta(&self, accounts: &[Pubkey]) -> (r: AccountMeta)
        requires
            (self.pubkey_index as int) < accounts@.len(),
        ensures
            r@ == account_meta_of(*self, accounts@.map_values(|k: Pubkey| k@)),
    {
        let pubkey = accounts[self.pubkey_index as usize];
        match self.is_writable {
            false => AccountMeta::new_readonly(pubkey, self.is_signer),
            true => AccountMeta::new(pubkey, self.is_signer),
        }
    }
}

/// The account that entry `a` stands for among the addresses `keys`.
pub open spec fn account_meta_of(a: TransactionAccount, keys: Seq<Seq<u8>>) -> AccountMetaView {
    AccountMetaView { pubkey: keys[a.pubkey_index as int], is_signer: a.is_signer, is_writable: a.is_writable }
}

// ---------------------------------------------------------------------------
// TransactionInstruction
// ---------------------------------------------------------------------------
/// An instruction as a transaction stores it: the program and the accounts
/// by their index in the transaction's list of accounts.
#[derive(Clone, Debug)]
pub struct TransactionInstruction {
    // Target program to execute against.
    pub program_id_index: u8,
    // Accounts required for the instruction.
    pub accounts: Vec<TransactionAccount>,
    // Instruction data for the instruction.
    pub data: Vec<u8>,
}

pub struct TransactionInstructionView {
    pub program_id_index: u8,
    pub accounts: Seq<TransactionAccount>,
    pub data: Seq<u8>,
}

impl View for TransactionInstruction {
    type V = TransactionInstructionView;

    open spec fn view(&self) -> TransactionInstructionView {
        TransactionInstructionView {
            program_id_index: self.program_id_index,
            accounts: self.accounts@,
            data: self.data@,
        }
    }
}

impl DeepView for TransactionInstruction {
    type V = TransactionInstructionView;

    open spec fn deep_view(&self) -> TransactionInstructionView {
        self@
    }
}

pub open spec fn enc_instruction(t: TransactionInstructionView) -> Seq<u8> {
    enc_u8(t.program_id_index) + enc_seq(t.accounts, account_encoder()) + enc_seq(
        t.data,
        u8_encoder(),
    )
}

/// The lengths of the instruction's lists fit the format.
pub open spec fn instruction_fits(t: TransactionInstructionView) -> bool {
    t.accounts.len() <= u32::MAX && t.data.len() <= u32::MAX
}

pub open spec fn read_instruction(s: Seq<u8>, p: nat) -> Option<(TransactionInstructionView, nat)> {
    match read_u8(s, p) {
        Some((i, p1)) => match read_seq(s, p1, account_reader()) {
            Some((accounts, p2)) => match read_seq(s, p2, u8_reader()) {
                Some((data, p3)) => Some(
                    (TransactionInstructionView { program_id_index: i, accounts, data }, p3),
                ),
                None => None,
            },
            None => None,
        },
        None => None,
    }
}

pub open spec fn instruction_encoder() -> spec_fn(TransactionInstructionView) -> Seq<u8> {
    |t: TransactionInstructionView| enc_instruction(t)
}

pub open spec fn instruction_reader() -> spec_fn(Seq<u8>, nat) -> Option<(TransactionInstructionView, nat)> {
    |s: Seq<u8>, p: nat| read_instruction(s, p)
}

pub open spec fn instruction_ok() -> spec_fn(TransactionInstructionView) -> bool {
    |t: TransactionInstructionView| instruction_fits(t)
}

pub proof fn lemma_read_instruction(s: Seq<u8>, p: nat, t: TransactionInstructionView)
    requires
        instruction_fits(t),
        bytes_at(s, p, enc_instruction(t)),
    ensures
        read_instruction(s, p) == Some((t, p + enc_instruction(t).len())),
{
    let a = enc_u8(t.program_id_index);
    let b = enc_seq(t.accounts, account_encoder());
    let c = enc_seq(t.data, u8_encoder());
    lemma_bytes_at_concat(s, p, a + b, c);
    lemma_bytes_at_concat(s, p, a, b);
    lemma_read_u8(s, p, t.program_id_index);
    lemma_account_reads_back();
    lemma_u8_reads_back();
    lemma_all_any(t.accounts);
    lemma_all_any(t.data);
    lemma_read_seq(s, p + 1, t.accounts, account_encoder(), account_reader(), any_value());
    lemma_read_seq(s, p + 1 + b.len(), t.data, u8_encoder(), u8_reader(), any_value());
}

pub proof fn lemma_instruction_reads_back()
    ensures
        reads_back(instruction_reader(), instruction_encoder(), instruction_ok()),
{
    assert forall|s: Seq<u8>, p: nat, t: TransactionInstructionView|
        instruction_ok()(t) && bytes_at(s, p, #[trigger] instruction_encoder()(t)) implies #[trigger] instruction_reader()(
        s,
        p,
    ) == Some((t, p + instruction_encoder()(t).len())) by {
        lemma_read_instruction(s, p, t);
    }
}

fn write_instruction(out: &mut Vec<u8>, t: &TransactionInstruction)
    requires
        instruction_fits(t@),
    ensures
        final(out)@ == old(out)@ + enc_instruction(t@),
{
    write_u8(out, t.program_id_index);
    write_accounts(out, &t.accounts);
    write_bytes(out, &t.data);
    proof {
        lemma_bytes_deep_view(t.data);
    }
    assert(out@ =~= old(out)@ + enc_instruction(t@));
}

fn read_instruction_at(s: &[u8], pos: usize) -> (r: Option<(TransactionInstruction, usize)>)
    ensures
        agrees(r, read_instruction(s@, pos as nat), s@.len()),
{
    let (i, p1) = match read_u8_at(s, pos) {
        Some(x) => x,
        None => return None,
    };
    let (accounts, p2) = match read_accounts_at(s, p1) {
        Some(x) => x,
        None => return None,
    };
    let (data, p3) = match read_bytes_at(s, p2) {
        Some(x) => x,
        None => return None,
    };
    proof {
        lemma_accounts_deep_view(accounts);
        lemma_bytes_deep_view(data);
    }
    Some((TransactionInstruction { program_id_index: i, accounts, data }, p3))
}

pub proof fn lemma_instructions_ok(v: Seq<TransactionInstruction>)
    requires
        forall|i: int| 0 <= i < v.len() ==> instruction_fits(#[trigger] v[i]@),
    ensures
        all_ok(Seq::new(v.len(), |i: int| v[i].deep_view()), instruction_ok()),
{
}

pub(crate) fn write_instructions(out: &mut Vec<u8>, v: &Vec<TransactionInstruction>)
    requires
        v@.len() <= u32::MAX,
        forall|i: int| 0 <= i < v@.len() ==> instruction_fits(#[trigger] v@[i]@),
    ensures
        final(out)@ == old(out)@ + enc_seq(v.deep_view(), instruction_encoder()),
{
    let ghost start = out@;
    let ghost xs = v.deep_view();
    write_u32(out, v.len() as u32);
    let mut i: usize = 0;
    while i < v.len()
        invariant
            i <= v@.len(),
            xs == v.deep_view(),
            forall|j: int| 0 <= j < v@.len() ==> instruction_fits(#[trigger] v@[j]@),
            out@ == start + le_bytes(xs.len(), 4) + flatten(xs.take(i as int), instruction_encoder()),
        decreases v@.len() - i,
    {
        write_instruction(out, &v[i]);
        proof {
            assert(xs.take(i + 1) =~= xs.take(i as int).push(xs[i as int]));
            lemma_flatten_push(xs.take(i as int), xs[i as int], instruction_encoder());
        }
        i = i + 1;
    }
    assert(xs.take(i as int) =~= xs);
}

pub(crate) fn read_instructions_at(s: &[u8], pos: usize) -> (r: Option<(Vec<TransactionInstruction>, usize)>)
    ensures
        agrees(r, read_seq(s@, pos as nat, instruction_reader()), s@.len()),
{
    let (n, mut p) = match read_u32_at(s, pos) {
        Some(x) => x,
        None => return None,
    };
    let mut acc: Vec<TransactionInstruction> = Vec::new();
    proof {
        lemma_read_items_start(s@, p as nat, n as nat, instruction_reader());
        assert(acc.deep_view() =~= Seq::<TransactionInstructionView>::empty());
    }
    let mut i: u32 = 0;
    while i < n
        invariant
            i <= n,
            p <= s@.len(),
            read_seq(s@, pos as nat, instruction_reader()) == (match read_items(
                s@,
                p as nat,
                (n - i) as nat,
                instruction_reader(),
            ) {
                Some((xs, q)) => Some((acc.deep_view() + xs, q)),
                None => None,
            }),
        decreases n - i,
    {
        match read_instruction_at(s, p) {
            Some((x, p1)) => {
                proof {
                    lemma_read_items_step(
                        s@,
                        p as nat,
                        (n - i) as nat,
                        instruction_reader(),
                        x.deep_view(),
                        p1 as nat,
                        acc.deep_view(),
                    );
                }
                let ghost before = acc.deep_view();
                acc.push(x);
                assert(acc.deep_view() =~= before.push(x.deep_view()));
                p = p1;
                i = i + 1;
            },
            None => {
                return None;
            },
        }
    }
    assert(acc.deep_view() + Seq::<TransactionInstructionView>::empty() =~= acc.deep_view());
    Some((acc, p))
}

impl TransactionInstruction {
    /// The instruction this entry stands for, given the transaction's list
    /// of accounts.
    pub fn to_instruction(&self, accounts: &[Pubkey]) -> (r: Instruction)
        requires
            indices_within(self@, accounts@.len()),
        ensures
            r@ == instruction_of(self@, accounts@.map_values(|k: Pubkey| k@)),
    {
        let ghost keys = accounts@.map_values(|k: Pubkey| k@);
        let mut metas: Vec<AccountMeta> = Vec::new();
        let mut i: usize = 0;
        while i < self.accounts.len()
            invariant
                i <= self.accounts@.len(),
                indices_within(self@, accounts@.len()),
                keys == accounts@.map_values(|k: Pubkey| k@),
                metas.deep_view() =~= self.accounts@.take(i as int).map_values(
                    |a: TransactionAccount| account_meta_of(a, keys),
                ),
            decreases self.accounts@.len() - i,
        {
            assert(self@.accounts[i as int] == self.accounts@[i as int]);
            let m = self.accounts[i].to_account_meta(accounts);
            let ghost before = metas.deep_view();
            metas.push(m);
            proof {
                assert(self.accounts@.take(i + 1) =~= self.accounts@.take(i as int).push(
                    self.accounts@[i as int],
                ));
                assert(metas.deep_view() =~= before.push(m@));
            }
            i = i + 1;
        }
        assert(self.accounts@.take(i as int) =~= self.accounts@);
        Instruction {
            program_id: accounts[self.program_id_index as usize],
            accounts: metas,
            data: self.data.clone(),
        }
    }
}

/// Every index in the entry points into a list of `n` accounts.
pub open spec fn indices_within(t: TransactionInstructionView, n: nat) -> bool {
    &&& (t.program_id_index as int) < n
    &&& forall|i: int| 0 <= i < t.accounts.len() ==> (#[trigger] t.accounts[i].pubkey_index as int) < n
}

/// The instruction that entry `t` stands for among the addresses `keys`.
pub open spec fn instruction_of(t: TransactionInstructionView, keys: Seq<Seq<u8>>) -> InstructionView {
    InstructionView {
        program_id: keys[t.program_id_index as int],
        accounts: t.accounts.map_values(|a: TransactionAccount| account_meta_of(a, keys)),
        data: t.data,
    }
}

// ---------------------------------------------------------------------------
// Transaction
// ---------------------------------------------------------------------------
/// A proposed transaction of a multisig, with the approvals it has gathered.
#[derive(Debug)]
pub struct Transaction {
    pub is_initialized: bool,
    // The multisig account this transaction belongs to.
    pub multisig: Pubkey,
    // signers[index] is true if multisig.owners[index] signed the transaction.
    pub signers: Vec<bool>,
    // Boolean ensuring one time execution.
    pub did_execute: bool,
    // Accounts used in transaction
    pub accounts: Vec<Pubkey>,
    // Instructions for the transaction.
    pub instructions: Vec<TransactionInstruction>,
}

pub struct TransactionView {
    pub is_initialized: bool,
    pub multisig: Seq<u8>,
    pub signers: Seq<bool>,
    pub did_execute: bool,
    pub accounts: Seq<Seq<u8>>,
    pub instructions: Seq<TransactionInstructionView>,
}

impl View for Transaction {
    type V = TransactionView;

    open spec fn view(&self) -> TransactionView {
        TransactionView {
            is_initialized: self.is_initialized,
            multisig: self.multisig@,
            signers: self.signers@,
            did_execute: self.did_execute,
            accounts: self.accounts.deep_view(),
            instructions: self.instructions.deep_view(),
        }
    }
}

impl DeepView for Transaction {
    type V = TransactionView;

    open spec fn deep_view(&self) -> TransactionView {
        self@
    }
}

pub open spec fn enc_transaction(t: TransactionView) -> Seq<u8> {
    enc_bool(t.is_initialized) + enc_pubkey(t.multisig) + enc_seq(t.signers, bool_encoder()) + enc_bool(
        t.did_execute,
    ) + enc_seq(t.accounts, pubkey_encoder()) + enc_seq(t.instructions, instruction_encoder())
}

/// The addresses have 32 bytes and every list fits the format.
pub open spec fn transaction_fits(t: TransactionView) -> bool {
    &&& t.multisig.len() == 32
    &&& t.signers.len() <= u32::MAX
    &&& t.accounts.len() <= u32::MAX
    &&& all_ok(t.accounts, is_pubkey())
    &&& t.instructions.len() <= u32::MAX
    &&& all_ok(t.instructions, instruction_ok())
}

pub open spec fn read_transaction(s: Seq<u8>, p: nat) -> Option<(TransactionView, nat)> {
    match read_bool(s, p) {
        Some((is_initialized, p1)) => match read_pubkey(s, p1) {
            Some((multisig, p2)) => match read_seq(s, p2, bool_reader()) {
                Some((signers, p3)) => match read_bool(s, p3) {
                    Some((did_execute, p4)) => match read_seq(s, p4, pubkey_reader()) {
                        Some((accounts, p5)) => match read_seq(s, p5, instruction_reader()) {
                            Some((instructions, p6)) => Some(
                                (
                                    TransactionView {
                                        is_initialized,
                                        multisig,
                                        signers,
                                        did_execute,
                                        accounts,
                                        instructions,
                                    },
                                    p6,
                                ),
                            ),
                            None => None,
                        },
                        None => None,
                    },
                    None => None,
                },
                None => None,
            },
            None => None,
        },
        None => None,
    }
}

/// Reading a transaction where its bytes stand gives it back.
pub proof fn lemma_read_transaction(s: Seq<u8>, p: nat, t: TransactionView)
    requires
        transaction_fits(t),
        bytes_at(s, p, enc_transaction(t)),
    ensures
        read_transaction(s, p) == Some((t, p + enc_transaction(t).len())),
{
    let a = enc_bool(t.is_initialized);
    let b = enc_pubkey(t.multisig);
    let c = enc_seq(t.signers, bool_encoder());
    let d = enc_bool(t.did_execute);
    let e = enc_seq(t.accounts, pubkey_encoder());
    let f = enc_seq(t.instructions, instruction_encoder());
    assert(enc_transaction(t) == a + b + c + d + e + f);
    let p1 = p + 1;
    let p2 = p1 + 32;
    let p3 = p2 + c.len();
    let p4 = p3 + 1;
    let p5 = p4 + e.len();
    let p6 = p5 + f.len();
    assert(bytes_at(s, p5, f) && bytes_at(s, p, a + b + c + d + e)) by {
        lemma_bytes_at_concat(s, p, a + b + c + d + e, f);
    }
    assert(bytes_at(s, p4, e) && bytes_at(s, p, a + b + c + d)) by {
        lemma_bytes_at_concat(s, p, a + b + c + d, e);
    }
    assert(bytes_at(s, p3, d) && bytes_at(s, p, a + b + c)) by {
        lemma_bytes_at_concat(s, p, a + b + c, d);
    }
    assert(bytes_at(s, p2, c) && bytes_at(s, p, a + b)) by {
        lemma_bytes_at_concat(s, p, a + b, c);
    }
    assert(bytes_at(s, p, a) && bytes_at(s, p1, b)) by {
        lemma_bytes_at_concat(s, p, a, b);
    }
    assert(read_bool(s, p) == Some((t.is_initialized, p1))) by {
        lemma_read_bool(s, p, t.is_initialized);
    }
    assert(read_pubkey(s, p1) == Some((t.multisig, p2))) by {
        lemma_read_pubkey(s, p1, t.multisig);
    }
    assert(read_seq(s, p2, bool_reader()) == Some((t.signers, p3))) by {
        lemma_bool_reads_back();
        lemma_all_any(t.signers);
        lemma_read_seq(s, p2, t.signers, bool_encoder(), bool_reader(), any_value());
    }
    assert(read_bool(s, p3) == Some((t.did_execute, p4))) by {
        lemma_read_bool(s, p3, t.did_execute);
    }
    assert(read_seq(s, p4, pubkey_reader()) == Some((t.accounts, p5))) by {
        lemma_pubkey_reads_back();
        lemma_read_seq(s, p4, t.accounts, pubkey_encoder(), pubkey_reader(), is_pubkey());
    }
    assert(read_seq(s, p5, instruction_reader()) == Some((t.instructions, p6))) by {
        lemma_instruction_reads_back();
        lemma_read_seq(s, p5, t.instructions, instruction_encoder(), instruction_reader(), instruction_ok());
    }
}

impl Transaction {
    /// Every list of the transaction fits the format.
    pub open spec fn fits(&self) -> bool {
        &&& self.signers@.len() <= u32::MAX
        &&& self.accounts@.len() <= u32::MAX
        &&& self.instructions@.len() <= u32::MAX
        &&& forall|i: int|
            0 <= i < self.instructions@.len() ==> instruction_fits(#[trigger] self.instructions@[i]@)
    }

    pub fn is_initialized(&self) -> (r: bool)
        ensures
            r == self.is_initialized,
    {
        self.is_initialized
    }

    /// The bytes of the transaction.
    pub fn try_to_vec(&self) -> (r: Vec<u8>)
        requires
            self.fits(),
        ensures
            r@ == enc_transaction(self@),
            transaction_fields_at(r@, self@),
    {
        let mut out: Vec<u8> = Vec::new();
        write_bool(&mut out, self.is_initialized);
        write_pubkey(&mut out, &self.multisig);
        write_bools(&mut out, &self.signers);
        write_bool(&mut out, self.did_execute);
        write_pubkeys(&mut out, &self.accounts);
        write_instructions(&mut out, &self.instructions);
        proof {
            lemma_bools_deep_view(self.signers);
        }
        assert(out@ =~= enc_transaction(self@));
        proof {
            lemma_transaction_view_fits(self);
            lemma_transaction_fields(self@, Seq::empty());
        }
        out
    }

    /// Writes the bytes of the transaction at the start of `dst`; the rest of
    /// `dst` is left as it was.
    pub fn pack_into_slice(&self, dst: &mut [u8])
        requires
            self.fits(),
            enc_transaction(self@).len() <= old(dst)@.len(),
        ensures
            final(dst)@ == enc_transaction(self@) + old(dst)@.skip(enc_transaction(self@).len() as int),
            transaction_fields_at(final(dst)@, self@),
    {
        let data = self.try_to_vec();
        copy_prefix(dst, &data);
        proof {
            lemma_transaction_view_fits(self);
            lemma_transaction_fields(self@, old(dst)@.skip(enc_transaction(self@).len() as int));
        }
    }

    /// Reads a transaction from the start of `src`; bytes after it are
    /// ignored.
    pub fn unpack_from_slice(src: &[u8]) -> (r: Result<Transaction, UnpackError>)
        ensures
            match read_transaction(src@, 0) {
                Some((t, _)) => r matches Ok(x) && x@ == t,
                None => r == Err::<Transaction, UnpackError>(UnpackError::InvalidEncoding),
            },
            r matches Ok(x) ==> transaction_fields_at(src@, x@),
    {
        proof {
            lemma_read_transaction_fields(src@);
        }
        match read_transaction_at(src, 0) {
            Some((t, _)) => Ok(t),
            None => Err(UnpackError::InvalidEncoding),
        }
    }
}

fn read_transaction_at(s: &[u8], pos: usize) -> (r: Option<(Transaction, usize)>)
    ensures
        agrees(r, read_transaction(s@, pos as nat), s@.len()),
{
    let (is_initialized, p1) = match read_bool_at(s, pos) {
        Some(x) => x,
        None => return None,
    };
    let (multisig, p2) = match read_pubkey_at(s, p1) {
        Some(x) => x,
        None => return None,
    };
    let (signers, p3) = match read_bools_at(s, p2) {
        Some(x) => x,
        None => return None,
    };
    let (did_execute, p4) = match read_bool_at(s, p3) {
        Some(x) => x,
        None => return None,
    };
    let (accounts, p5) = match read_pubkeys_at(s, p4) {
        Some(x) => x,
        None => return None,
    };
    let (instructions, p6) = match read_instructions_at(s, p5) {
        Some(x) => x,
        None => return None,
    };
    proof {
        lemma_bools_deep_view(signers);
    }
    Some((Transaction { is_initialized, multisig, signers, did_execute, accounts, instructions }, p6))
}

/// Copies `data` over the start of `dst`.
fn copy_prefix(dst: &mut [u8], data: &Vec<u8>)
    requires
        data@.len() <= old(dst)@.len(),
    ensures
        final(dst)@ == data@ + old(dst)@.skip(data@.len() as int),
{
    let ghost orig = dst@;
    let mut i: usize = 0;
    while i < data.len()
        invariant
            i <= data@.len(),
            data@.len() <= orig.len(),
            dst@.len() == orig.len(),
            forall|j: int| 0 <= j < i ==> dst@[j] == data@[j],
            forall|j: int| i <= j < orig.len() ==> dst@[j] == orig[j],
        decreases data@.len() - i,
    {
        dst[i] = data[i];
        i = i + 1;
    }
    assert(dst@ =~= data@ + orig.skip(data@.len() as int));
}

// ---------------------------------------------------------------------------
// Multisig
// ---------------------------------------------------------------------------
/// A multisig account: its owners, how many of them must approve a
/// transaction, and the transactions awaiting approval.
#[derive(Debug)]
pub struct Multisig {
    pub is_initialized: bool,
    // Set of custodians
    pub owners: Vec<Pubkey>,
    // Required number of signers
    pub threshold: u64,
    // Set of pending transactions
    pub pending_transactions: Vec<Pubkey>,
    // Seed to derive PDA
    pub seed: u128,
}

pub struct MultisigView {
    pub is_initialized: bool,
    pub owners: Seq<Seq<u8>>,
    pub threshold: u64,
    pub pending_transactions: Seq<Seq<u8>>,
    pub seed: u128,
}

impl View for Multisig {
    type V = MultisigView;

    open spec fn view(&self) -> MultisigView {
        MultisigView {
            is_initialized: self.is_initialized,
            owners: self.owners.deep_view(),
            threshold: self.threshold,
            pending_transactions: self.pending_transactions.deep_view(),
            seed: self.seed,
        }
    }
}

impl DeepView for Multisig {
    type V = MultisigView;

    open spec fn deep_view(&self) -> MultisigView {
        self@
    }
}

/// The size of a multisig account's data: room for the most owners and the
/// most pending transactions.
pub const MULTISIG_LEN: usize = 833;

pub open spec fn enc_multisig(m: MultisigView) -> Seq<u8> {
    enc_bool(m.is_initialized) + enc_seq(m.owners, pubkey_encoder()) + enc_u64(m.threshold) + enc_seq(
        m.pending_transactions,
        pubkey_encoder(),
    ) + enc_u128(m.seed)
}

/// The addresses have 32 bytes and every list fits the format.
pub open spec fn multisig_fits(m: MultisigView) -> bool {
    &&& m.owners.len() <= u32::MAX
    &&& all_ok(m.owners, is_pubkey())
    &&& m.pending_transactions.len() <= u32::MAX
    &&& all_ok(m.pending_transactions, is_pubkey())
}

pub open spec fn read_multisig(s: Seq<u8>, p: nat) -> Option<(MultisigView, nat)> {
    match read_bool(s, p) {
        Some((is_initialized, p1)) => match read_seq(s, p1, pubkey_reader()) {
            Some((owners, p2)) => match read_u64(s, p2) {
                Some((threshold, p3)) => match read_seq(s, p3, pubkey_reader()) {
                    Some((pending_transactions, p4)) => match read_u128(s, p4) {
                        Some((seed, p5)) => Some(
                            (
                                MultisigView {
                                    is_initialized,
                                    owners,
                                    threshold,
                                    pending_transactions,
                                    seed,
                                },
                                p5,
                            ),
                        ),
                        None => None,
                    },
                    None => None,
                },
                None => None,
            },
            None => None,
        },
        None => None,
    }
}

/// What `Multisig::unpack_unchecked` gives for the account data `s`.
pub open spec fn multisig_unpack_unchecked(s: Seq<u8>) -> Result<MultisigView, UnpackError> {
    if s.len() != MULTISIG_LEN {
        Err(UnpackError::InvalidAccountData)
    } else {
        match read_multisig(s, 0) {
            Some((m, _)) => Ok(m),
            None => Err(UnpackError::InvalidEncoding),
        }
    }
}

/// What `Multisig::unpack` gives for the account data `s`.
pub open spec fn multisig_unpack(s: Seq<u8>) -> Result<MultisigView, UnpackError> {
    match multisig_unpack_unchecked(s) {
        Ok(m) => if m.is_initialized {
            Ok(m)
        } else {
            Err(UnpackError::UninitializedAccount)
        },
        Err(e) => Err(e),
    }
}

/// The exec result `r` is the spec result `spec`.
pub open spec fn same_result(r: Result<Multisig, UnpackError>, spec: Result<MultisigView, UnpackError>) -> bool {
    match spec {
        Ok(m) => r matches Ok(x) && x@ == m,
        Err(e) => r == Err::<Multisig, UnpackError>(e),
    }
}

/// Reading a multisig where its bytes stand gives it back.
pub proof fn lemma_read_multisig(s: Seq<u8>, p: nat, m: MultisigView)
    requires
        multisig_fits(m),
        bytes_at(s, p, enc_multisig(m)),
    ensures
        read_multisig(s, p) == Some((m, p + enc_multisig(m).len())),
{
    let a = enc_bool(m.is_initialized);
    let b = enc_seq(m.owners, pubkey_encoder());
    let c = enc_u64(m.threshold);
    let d = enc_seq(m.pending_transactions, pubkey_encoder());
    let e = enc_u128(m.seed);
    assert(enc_multisig(m) == a + b + c + d + e);
    crate::codec::lemma_le_bytes_len(m.threshold as nat, 8);
    crate::codec::lemma_le_bytes_len(m.seed as nat, 16);
    let p1 = p + 1;
    let p2 = p1 + b.len();
    let p3 = p2 + 8;
    let p4 = p3 + d.len();
    let p5 = p4 + 16;
    assert(bytes_at(s, p4, e) && bytes_at(s, p, a + b + c + d)) by {
        lemma_bytes_at_concat(s, p, a + b + c + d, e);
    }
    assert(bytes_at(s, p3, d) && bytes_at(s, p, a + b + c)) by {
        lemma_bytes_at_concat(s, p, a + b + c, d);
    }
    assert(bytes_at(s, p2, c) && bytes_at(s, p, a + b)) by {
        lemma_bytes_at_concat(s, p, a + b, c);
    }
    assert(bytes_at(s, p, a) && bytes_at(s, p1, b)) by {
        lemma_bytes_at_concat(s, p, a, b);
    }
    assert(read_bool(s, p) == Some((m.is_initialized, p1))) by {
        lemma_read_bool(s, p, m.is_initialized);
    }
    assert(read_seq(s, p1, pubkey_reader()) == Some((m.owners, p2))) by {
        lemma_pubkey_reads_back();
        lemma_read_seq(s, p1, m.owners, pubkey_encoder(), pubkey_reader(), is_pubkey());
    }
    assert(read_u64(s, p2) == Some((m.threshold, p3))) by {
        lemma_read_u64(s, p2, m.threshold);
    }
    assert(read_seq(s, p3, pubkey_reader()) == Some((m.pending_transactions, p4))) by {
        lemma_pubkey_reads_back();
        lemma_read_seq(s, p3, m.pending_transactions, pubkey_encoder(), pubkey_reader(), is_pubkey());
    }
    assert(read_u128(s, p4) == Some((m.seed, p5))) by {
        lemma_read_u128(s, p4, m.seed);
    }
}

fn read_multisig_at(s: &[u8], pos: usize) -> (r: Option<(Multisig, usize)>)
    ensures
        agrees(r, read_multisig(s@, pos as nat), s@.len()),
{
    let (is_initialized, p1) = match read_bool_at(s, pos) {
        Some(x) => x,
        None => return None,
    };
    let (owners, p2) = match read_pubkeys_at(s, p1) {
        Some(x) => x,
        None => return None,
    };
    let (threshold, p3) = match read_u64_at(s, p2) {
        Some(x) => x,
        None => return None,
    };
    let (pending_transactions, p4) = match read_pubkeys_at(s, p3) {
        Some(x) => x,
        None => return None,
    };
    let (seed, p5) = match read_u128_at(s, p4) {
        Some(x) => x,
        None => return None,
    };
    Some((Multisig { is_initialized, owners, threshold, pending_transactions, seed }, p5))
}

impl Multisig {
    /// Every list of the multisig fits the format.
    pub open spec fn fits(&self) -> bool {
        &&& self.owners@.len() <= u32::MAX
        &&& self.pending_transactions@.len() <= u32::MAX
    }

    pub fn is_initialized(&self) -> (r: bool)
        ensures
            r == self.is_initialized,
    {
        self.is_initialized
    }

    /// The bytes of the multisig.
    pub fn try_to_vec(&self) -> (r: Vec<u8>)
        requires
            self.fits(),
        ensures
            r@ == enc_multisig(self@),
            multisig_fields_at(r@, self@),
    {
        let mut out: Vec<u8> = Vec::new();
        write_bool(&mut out, self.is_initialized);
        write_pubkeys(&mut out, &self.owners);
        write_u64(&mut out, self.threshold);
        write_pubkeys(&mut out, &self.pending_transactions);
        write_u128(&mut out, self.seed);
        assert(out@ =~= enc_multisig(self@));
        proof {
            lemma_multisig_view_fits(self);
            lemma_multisig_fields(self@, Seq::empty());
            assert(enc_multisig(self@) + Seq::<u8>::empty() =~= enc_multisig(self@));
        }
        out
    }

    /// Writes the bytes of the multisig at the start of `dst`; the rest of
    /// `dst` is left as it was.
    pub fn pack_into_slice(&self, dst: &mut [u8])
        requires
            self.fits(),
            enc_multisig(self@).len() <= old(dst)@.len(),
        ensures
            final(dst)@ == enc_multisig(self@) + old(dst)@.skip(enc_multisig(self@).len() as int),
            multisig_fields_at(final(dst)@, self@),
    {
        let data = self.try_to_vec();
        copy_prefix(dst, &data);
        proof {
            lemma_multisig_view_fits(self);
            lemma_multisig_fields(self@, old(dst)@.skip(enc_multisig(self@).len() as int));
        }
    }

    /// Reads a multisig from the start of `src`; bytes after it are ignored.
    pub fn unpack_from_slice(src: &[u8]) -> (r: Result<Multisig, UnpackError>)
        ensures
            match read_multisig(src@, 0) {
                Some((m, _)) => r matches Ok(x) && x@ == m,
                None => r == Err::<Multisig, UnpackError>(UnpackError::InvalidEncoding),
            },
            r matches Ok(x) ==> multisig_fields_at(src@, x@),
    {
        proof {
            lemma_read_multisig_fields(src@);
        }
        match read_multisig_at(src, 0) {
            Some((m, _)) => Ok(m),
            None => Err(UnpackError::InvalidEncoding),
        }
    }

    /// Reads the multisig held by account data of exactly `MULTISIG_LEN`
    /// bytes, initialized or not.
    pub fn unpack_unchecked(input: &[u8]) -> (r: Result<Multisig, UnpackError>)
        ensures
            same_result(r, multisig_unpack_unchecked(input@)),
    {
        if input.len() != MULTISIG_LEN {
            return Err(UnpackError::InvalidAccountData);
        }
        Self::unpack_from_slice(input)
    }

    /// Reads the multisig held by account data of exactly `MULTISIG_LEN`
    /// bytes, and refuses one that was never initialized.
    pub fn unpack(input: &[u8]) -> (r: Result<Multisig, UnpackError>)
        ensures
            same_result(r, multisig_unpack(input@)),
    {
        let value = Self::unpack_unchecked(input)?;
        if value.is_initialized() {
            Ok(value)
        } else {
            Err(UnpackError::UninitializedAccount)
        }
    }

    /// Writes the multisig into account data of exactly `MULTISIG_LEN`
    /// bytes; account data of another length is refused and left as it was.
    pub fn pack(src: Multisig, dst: &mut [u8]) -> (r: Result<(), UnpackError>)
        requires
            src.fits(),
            old(dst)@.len() == MULTISIG_LEN ==> enc_multisig(src@).len() <= MULTISIG_LEN,
        ensures
            old(dst)@.len() != MULTISIG_LEN ==> r == Err::<(), UnpackError>(UnpackError::InvalidAccountData)
                && final(dst)@ == old(dst)@,
            old(dst)@.len() == MULTISIG_LEN ==> r is Ok && final(dst)@ == enc_multisig(src@)
                + old(dst)@.skip(enc_multisig(src@).len() as int),
    {
        if dst.len() != MULTISIG_LEN {
            return Err(UnpackError::InvalidAccountData);
        }
        src.pack_into_slice(dst);
        Ok(())
    }
}

// ---------------------------------------------------------------------------
// Laws of the stored state
// ---------------------------------------------------------------------------
/// A transaction read back from the bytes that `Transaction::pack_into_slice`
/// writes is the transaction that was written, whatever follows the bytes.
pub proof fn lemma_transaction_round_trip(t: TransactionView, rest: Seq<u8>)
    requires
        transaction_fits(t),
    ensures
        read_transaction(enc_transaction(t) + rest, 0) == Some((t, enc_transaction(t).len())),
{
    let s = enc_transaction(t) + rest;
    assert(s.subrange(0, enc_transaction(t).len() as int) =~= enc_transaction(t));
    lemma_read_transaction(s, 0, t);
}

/// A multisig read back from the bytes that `Multisig::pack_into_slice`
/// writes is the multisig that was written, whatever follows the bytes.
pub proof fn lemma_multisig_round_trip(m: MultisigView, rest: Seq<u8>)
    requires
        multisig_fits(m),
    ensures
        read_multisig(enc_multisig(m) + rest, 0) == Some((m, enc_multisig(m).len())),
{
    let s = enc_multisig(m) + rest;
    assert(s.subrange(0, enc_multisig(m).len() as int) =~= enc_multisig(m));
    lemma_read_multisig(s, 0, m);
}

/// An initialized multisig that `Multisig::pack` writes into account data
/// of `MULTISIG_LEN` bytes is what `Multisig::unpack` reads from it.
pub proof fn lemma_multisig_pack_then_unpack(m: MultisigView, account: Seq<u8>)
    requires
        multisig_fits(m),
        m.is_initialized,
        account.len() == MULTISIG_LEN,
        enc_multisig(m).len() <= MULTISIG_LEN,
    ensures
        multisig_unpack(enc_multisig(m) + account.skip(enc_multisig(m).len() as int)) == Ok::<
            MultisigView,
            UnpackError,
        >(m),
{
    lemma_multisig_round_trip(m, account.skip(enc_multisig(m).len() as int));
}

/// Account data that holds a multisig never initialized is refused by
/// `Multisig::unpack`, whatever else it holds.
pub proof fn lemma_multisig_unpack_refuses_uninitialized(m: MultisigView, account: Seq<u8>)
    requires
        multisig_fits(m),
        !m.is_initialized,
        account.len() == MULTISIG_LEN,
        enc_multisig(m).len() <= MULTISIG_LEN,
    ensures
        multisig_unpack(enc_multisig(m) + account.skip(enc_multisig(m).len() as int)) == Err::<
            MultisigView,
            UnpackError,
        >(UnpackError::UninitializedAccount),
{
    lemma_multisig_round_trip(m, account.skip(enc_multisig(m).len() as int));
}

/// The byte that stands for a flag: 1 when set, 0 when not.
pub open spec fn flag_byte(b: bool) -> u8 {
    if b {
        1u8
    } else {
        0u8
    }
}

/// Account entries read one after the other take three bytes each: the
/// `k`-th has its account index at `p + 3 k`, its signer flag after it and
/// its writable flag after that.
pub proof fn lemma_read_accounts_layout(s: Seq<u8>, p: nat, count: nat)
    ensures
        read_items(s, p, count, account_reader()) matches Some((xs, q)) ==> {
            &&& xs.len() == count
            &&& q == p + 3 * count
            &&& (count > 0 ==> q <= s.len())
            &&& forall|k: int|
                0 <= k < count ==> {
                    &&& s[p + 3 * k] == (#[trigger] xs[k]).pubkey_index
                    &&& s[p + 3 * k + 1] == flag_byte(xs[k].is_signer)
                    &&& s[p + 3 * k + 2] == flag_byte(xs[k].is_writable)
                }
        },
    decreases count,
{
    if count > 0 {
        match read_account(s, p) {
            Some((x, p1)) => {
                assert(account_reader()(s, p) == Some((x, p1)));
                assert(p1 == p + 3);
                lemma_read_accounts_layout(s, p1, (count - 1) as nat);
                match read_items(s, p1, (count - 1) as nat, account_reader()) {
                    Some((rest, q)) => {
                        let xs = seq![x] + rest;
                        assert forall|k: int| 0 <= k < count implies {
                            &&& s[p + 3 * k] == (#[trigger] xs[k]).pubkey_index
                            &&& s[p + 3 * k + 1] == flag_byte(xs[k].is_signer)
                            &&& s[p + 3 * k + 2] == flag_byte(xs[k].is_writable)
                        } by {
                            if k > 0 {
                                assert(xs[k] == rest[k - 1]);
                                assert(p1 + 3 * (k - 1) == p + 3 * k);
                            }
                        }
                    },
                    None => {},
                }
            },
            None => {},
        }
    }
}

/// Where each field of a stored instruction stands in `s` from position
/// `p`: the index of its program's account, the number of account entries
/// in four little-endian bytes, each entry in three bytes (account index,
/// signer flag, writable flag), the number of data bytes in four
/// little-endian bytes, then the data.
pub open spec fn instruction_fields_at(s: Seq<u8>, p: int, t: TransactionInstructionView) -> bool {
    let n = t.accounts.len() as int;
    let d = t.data.len() as int;
    &&& 0 <= p
    &&& p + 9 + 3 * n + d <= s.len()
    &&& s[p] == t.program_id_index
    &&& s.subrange(p + 1, p + 5) == le_bytes(n as nat, 4)
    &&& forall|k: int|
        0 <= k < n ==> {
            &&& s[p + 5 + 3 * k] == (#[trigger] t.accounts[k]).pubkey_index
            &&& s[p + 6 + 3 * k] == flag_byte(t.accounts[k].is_signer)
            &&& s[p + 7 + 3 * k] == flag_byte(t.accounts[k].is_writable)
        }
    &&& s.subrange(p + 5 + 3 * n, p + 9 + 3 * n) == le_bytes(d as nat, 4)
    &&& s.subrange(p + 9 + 3 * n, p + 9 + 3 * n + d) == t.data
}

/// A stored instruction read at `p` has its fields where
/// `instruction_fields_at` places them, and the read ends right after its
/// data.
pub proof fn lemma_read_instruction_fields(s: Seq<u8>, p: nat)
    ensures
        read_instruction(s, p) matches Some((t, q)) ==> instruction_fields_at(s, p as int, t) && q == p + 9
            + 3 * t.accounts.len() + t.data.len(),
{
    if p < s.len() {
        lemma_read_seq_count(s, p + 1, account_reader());
        match read_u32(s, p + 1) {
            Some((n, q1)) => lemma_read_accounts_layout(s, q1, n as nat),
            None => {},
        }
        match read_seq(s, p + 1, account_reader()) {
            Some((accounts, p2)) => {
                let n = accounts.len();
                assert(p2 == p + 5 + 3 * n);
                lemma_byte_list_at(s, p2);
                assert forall|k: int| 0 <= k < n implies {
                    &&& s[p + 5 + 3 * k] == (#[trigger] accounts[k]).pubkey_index
                    &&& s[p + 6 + 3 * k] == flag_byte(accounts[k].is_signer)
                    &&& s[p + 7 + 3 * k] == flag_byte(accounts[k].is_writable)
                } by {
                    assert(p + 1 + 4 + 3 * k + 1 == p + 6 + 3 * k);
                    assert(p + 1 + 4 + 3 * k + 2 == p + 7 + 3 * k);
                }
            },
            None => {},
        }
    }
}

/// The bytes of a stored instruction have each field where
/// `instruction_fields_at` places them, wherever they stand.
pub proof fn lemma_instruction_fields(s: Seq<u8>, p: nat, t: TransactionInstructionView)
    requires
        instruction_fits(t),
        bytes_at(s, p, enc_instruction(t)),
    ensures
        instruction_fields_at(s, p as int, t),
{
    lemma_read_instruction(s, p, t);
    lemma_read_instruction_fields(s, p);
}

/// Where each field of a transaction stands in the account data `s`, by
/// absolute position: the initialized flag in byte 0, the multisig's 32
/// bytes, the number of signer flags in four little-endian bytes, the flag
/// of the `k`-th owner in the byte at `37 + k`, the executed flag, the
/// number of accounts and each account's 32 bytes in order, then the number
/// of instructions.
pub open spec fn transaction_fields_at(s: Seq<u8>, t: TransactionView) -> bool {
    let n = t.signers.len() as int;
    let m = t.accounts.len() as int;
    &&& 46 + n + 32 * m <= s.len()
    &&& s[0] == flag_byte(t.is_initialized)
    &&& s.subrange(1, 33) == t.multisig
    &&& s.subrange(33, 37) == le_bytes(n as nat, 4)
    &&& forall|k: int| 0 <= k < n ==> s[37 + k] == flag_byte(#[trigger] t.signers[k])
    &&& s[37 + n] == flag_byte(t.did_execute)
    &&& s.subrange(38 + n, 42 + n) == le_bytes(m as nat, 4)
    &&& forall|k: int|
        0 <= k < m ==> #[trigger] t.accounts[k] == s.subrange(42 + n + 32 * k, 74 + n + 32 * k)
    &&& s.subrange(42 + n + 32 * m, 46 + n + 32 * m) == le_bytes(t.instructions.len(), 4)
}

/// Where each field of a multisig stands in the account data `s`, by
/// absolute position: the initialized flag in byte 0, the number of owners
/// in four little-endian bytes and each owner's 32 bytes in order, the
/// threshold in eight little-endian bytes, the number of pending
/// transactions and each one's 32 bytes in order, then the seed in sixteen
/// little-endian bytes.
pub open spec fn multisig_fields_at(s: Seq<u8>, ms: MultisigView) -> bool {
    let n = ms.owners.len() as int;
    let m = ms.pending_transactions.len() as int;
    &&& 33 + 32 * (n + m) <= s.len()
    &&& s[0] == flag_byte(ms.is_initialized)
    &&& s.subrange(1, 5) == le_bytes(n as nat, 4)
    &&& forall|k: int| 0 <= k < n ==> #[trigger] ms.owners[k] == s.subrange(5 + 32 * k, 37 + 32 * k)
    &&& s.subrange(5 + 32 * n, 13 + 32 * n) == le_bytes(ms.threshold as nat, 8)
    &&& s.subrange(13 + 32 * n, 17 + 32 * n) == le_bytes(m as nat, 4)
    &&& forall|k: int|
        0 <= k < m ==> #[trigger] ms.pending_transactions[k] == s.subrange(
            17 + 32 * n + 32 * k,
            49 + 32 * n + 32 * k,
        )
    &&& s.subrange(17 + 32 * (n + m), 33 + 32 * (n + m)) == le_bytes(ms.seed as nat, 16)
}

/// A transaction that `Transaction::unpack_from_slice` reads from account
/// data has its fields where `transaction_fields_at` places them: above
/// all, the `k`-th signer flag is the byte at `37 + k`, so an approval is
/// read for the owner at the same index in the multisig's list.
pub proof fn lemma_read_transaction_fields(s: Seq<u8>)
    ensures
        read_transaction(s, 0) matches Some((t, _)) ==> transaction_fields_at(s, t),
{
    if s.len() >= 33 {
        lemma_bool_list_at(s, 33);
        match read_seq(s, 33, bool_reader()) {
            Some((signers, p3)) => {
                let n = signers.len();
                assert(p3 == 37 + n);
                lemma_pubkey_list_at(s, 38 + n);
                match read_seq(s, 38 + n, pubkey_reader()) {
                    Some((accounts, p5)) => {
                        lemma_read_seq_count(s, p5, instruction_reader());
                        assert forall|k: int| 0 <= k < accounts.len() implies #[trigger] accounts[k]
                            == s.subrange(42 + n + 32 * k, 74 + n + 32 * k) by {
                            assert(38 + n + 4 + 32 * k + 32 == 74 + n + 32 * k);
                        }
                    },
                    None => {},
                }
            },
            None => {},
        }
    }
}

/// The account data that `Transaction::pack_into_slice` writes has each
/// field where `transaction_fields_at` places it: the flag of the `k`-th
/// owner in the byte at `37 + k`.
pub proof fn lemma_transaction_fields(t: TransactionView, rest: Seq<u8>)
    requires
        transaction_fits(t),
    ensures
        transaction_fields_at(enc_transaction(t) + rest, t),
        transaction_fields_at(enc_transaction(t), t),
{
    lemma_transaction_round_trip(t, rest);
    lemma_read_transaction_fields(enc_transaction(t) + rest);
    lemma_transaction_round_trip(t, Seq::empty());
    assert(enc_transaction(t) + Seq::<u8>::empty() =~= enc_transaction(t));
    lemma_read_transaction_fields(enc_transaction(t));
}

/// A multisig that `Multisig::unpack_from_slice` reads from account data
/// has its fields where `multisig_fields_at` places them.
pub proof fn lemma_read_multisig_fields(s: Seq<u8>)
    ensures
        read_multisig(s, 0) matches Some((ms, _)) ==> multisig_fields_at(s, ms),
{
    lemma_pubkey_list_at(s, 1);
    match read_seq(s, 1, pubkey_reader()) {
        Some((owners, p2)) => {
            let n = owners.len();
            lemma_read_u64_value(s, p2);
            lemma_pubkey_list_at(s, 13 + 32 * n);
            match read_seq(s, 13 + 32 * n, pubkey_reader()) {
                Some((pending, p4)) => {
                    let m = pending.len();
                    lemma_read_u128_value(s, p4);
                    assert(p4 == 17 + 32 * (n + m));
                    assert(33 + 32 * (n + m) == 17 + 32 * (n + m) + 16);
                    assert forall|k: int| 0 <= k < m implies #[trigger] pending[k] == s.subrange(
                        17 + 32 * n + 32 * k,
                        49 + 32 * n + 32 * k,
                    ) by {
                        assert(13 + 32 * n + 4 + 32 * k + 32 == 49 + 32 * n + 32 * k);
                    }
                },
                None => {},
            }
        },
        None => {},
    }
}

/// The account data that `Multisig::pack_into_slice` writes has each field
/// where `multisig_fields_at` places it.
pub proof fn lemma_multisig_fields(ms: MultisigView, rest: Seq<u8>)
    requires
        multisig_fits(ms),
    ensures
        multisig_fields_at(enc_multisig(ms) + rest, ms),
{
    lemma_multisig_round_trip(ms, rest);
    lemma_read_multisig_fields(enc_multisig(ms) + rest);
}

pub proof fn lemma_flatten_pubkeys_len(ks: Seq<Seq<u8>>)
    requires
        all_ok(ks, is_pubkey()),
    ensures
        flatten(ks, pubkey_encoder()).len() == 32 * ks.len(),
    decreases ks.len(),
{
    if ks.len() > 0 {
        assert(is_pubkey()(ks[ks.len() - 1]));
        assert(all_ok(ks.drop_last(), is_pubkey())) by {
            assert forall|i: int| 0 <= i < ks.drop_last().len() implies #[trigger] is_pubkey()(
                ks.drop_last()[i],
            ) by {
                assert(ks.drop_last()[i] == ks[i]);
            }
        }
        lemma_flatten_pubkeys_len(ks.drop_last());
    }
}

/// The bytes of a multisig take 33 bytes plus 32 for each owner and each
/// pending transaction; within `MAX_SIGNERS` owners and `MAX_TRANSACTIONS`
/// pending transactions they fit the account's `MULTISIG_LEN` bytes exactly.
pub proof fn lemma_multisig_encoded_len(m: MultisigView)
    requires
        multisig_fits(m),
    ensures
        enc_multisig(m).len() == 33 + 32 * (m.owners.len() + m.pending_transactions.len()),
        m.owners.len() <= MAX_SIGNERS && m.pending_transactions.len() <= MAX_TRANSACTIONS
            ==> enc_multisig(m).len() <= MULTISIG_LEN,
        m.owners.len() == MAX_SIGNERS && m.pending_transactions.len() == MAX_TRANSACTIONS
            ==> enc_multisig(m).len() == MULTISIG_LEN,
{
    crate::codec::lemma_le_bytes_len(m.owners.len(), 4);
    crate::codec::lemma_le_bytes_len(m.pending_transactions.len(), 4);
    crate::codec::lemma_le_bytes_len(m.threshold as nat, 8);
    crate::codec::lemma_le_bytes_len(m.seed as nat, 16);
    lemma_flatten_pubkeys_len(m.owners);
    lemma_flatten_pubkeys_len(m.pending_transactions);
}

/// The view of a multisig in memory fits the format when its lists do.
pub proof fn lemma_multisig_view_fits(m: &Multisig)
    requires
        m.fits(),
    ensures
        multisig_fits(m@),
{
    lemma_pubkeys_ok(m.owners@);
    lemma_pubkeys_ok(m.pending_transactions@);
}

/// The view of a transaction in memory fits the format when its lists do.
pub proof fn lemma_transaction_view_fits(t: &Transaction)
    requires
        t.fits(),
    ensures
        transaction_fits(t@),
{
    lemma_pubkeys_ok(t.accounts@);
    lemma_instructions_ok(t.instructions@);
}

} // verus!
