//! Instructions: the general form in which a program is asked to act on a
//! list of accounts, and the instruction set of the multisig program.
use vstd::prelude::*;

use crate::codec::{
    le_bytes, lemma_pubkey_list_at, lemma_read_seq_count, lemma_read_u128_value, lemma_read_u64_value,
    agrees, bytes_at, enc_pubkey, enc_seq, enc_u128, enc_u64, enc_u8, is_pubkey,
    lemma_bytes_at_concat, lemma_pubkey_reads_back, lemma_read_pubkey, lemma_read_seq,
    lemma_read_u128, lemma_read_u64, lemma_read_u8, pubkey_encoder, pubkey_reader, read_pubkey,
    read_pubkey_at, read_pubkeys_at, read_seq, read_u128, read_u128_at, read_u64, read_u64_at,
    read_u8, read_u8_at, all_ok, write_pubkey, write_pubkeys, write_u128, write_u64, write_u8,
};
use crate::pubkey::Pubkey;
use crate::state::{
    instruction_encoder, instruction_fits, instruction_ok, instruction_reader,
    lemma_instruction_reads_back, lemma_instructions_ok, read_instructions_at, write_instructions,
    TransactionInstruction, TransactionInstructionView, UnpackError,
};

verus! {

/// An account that an instruction reads or writes.
#[derive(Clone, Copy, Debug, PartialEq, Eq)]
pub struct AccountMeta {
    pub pubkey: Pubkey,
    pub is_signer: bool,
    pub is_writable: bool,
}

pub struct AccountMetaView {
    pub pubkey: Seq<u8>,
    pub is_signer: bool,
    pub is_writable: bool,
}

impl View for AccountMeta {
    type V = AccountMetaView;

    open spec fn view(&self) -> AccountMetaView {
        AccountMetaView { pubkey: self.pubkey@, is_signer: self.is_signer, is_writable: self.is_writable }
    }
}

impl DeepView for AccountMeta {
    type V = AccountMetaView;

    open spec fn deep_view(&self) -> AccountMetaView {
        self@
    }
}

impl AccountMeta {
    /// A writable account.
    pub fn new(pubkey: Pubkey, is_signer: bool) -> (r: AccountMeta)
        ensures
            r@ == (AccountMetaView { pubkey: pubkey@, is_signer, is_writable: true }),
    {
        AccountMeta { pubkey, is_signer, is_writable: true }
    }

    /// A read-only account.
    pub fn new_readonly(pubkey: Pubkey, is_signer: bool) -> (r: AccountMeta)
        ensures
            r@ == (AccountMetaView { pubkey: pubkey@, is_signer, is_writable: false }),
    {
        AccountMeta { pubkey, is_signer, is_writable: false }
    }
}

/// A request to a program: the program, the accounts it acts on, and its
/// input.
#[derive(Clone, Debug, PartialEq, Eq)]
pub struct Instruction {
    pub program_id: Pubkey,
    pub accounts: Vec<AccountMeta>,
    pub data: Vec<u8>,
}

pub struct InstructionView {
    pub program_id: Seq<u8>,
    pub accounts: Seq<AccountMetaView>,
    pub data: Seq<u8>,
}

impl View for Instruction {
    type V = InstructionView;

    open spec fn view(&self) -> InstructionView {
        InstructionView {
            program_id: self.program_id@,
            accounts: self.accounts.deep_view(),
            data: self.data@,
        }
    }
}

impl DeepView for Instruction {
    type V = InstructionView;

    open spec fn deep_view(&self) -> InstructionView {
        self@
    }
}

// ---------------------------------------------------------------------------
// The instruction set of the multisig program
// ---------------------------------------------------------------------------
/// What the multisig program is asked to do.
#[derive(Debug)]
pub enum MultisigInstruction {
    /// Initializes a new multisig account with a set of owners and a threshold
    CreateMultisig { seed: u128, owners: Vec<Pubkey>, threshold: u64 },
    /// Add a new account to custodian list
    AddOwner { owner: Pubkey },
    /// Delete account from custodian list
    DeleteOwner { owner: Pubkey },
    /// Update threshold
    UpdateThreshold { threshold: u64 },
    /// Creates a new transaction account, automatically signed by the creator,
    /// which must be one of the owners of the multisig
    CreateTransaction {
        seed: u128,
        accounts: Vec<Pubkey>,
        instructions: Vec<TransactionInstruction>,
    },
    /// Approves a transaction on behalf of an owner of the multisig
    Approve,
    /// Execute transaction
    ExecuteTransaction,
    /// Delete pending transaction
    DeletePendingTransaction { pending_transaction: Pubkey },
}

pub enum MultisigInstructionView {
    CreateMultisig { seed: u128, owners: Seq<Seq<u8>>, threshold: u64 },
    AddOwner { owner: Seq<u8> },
    DeleteOwner { owner: Seq<u8> },
    UpdateThreshold { threshold: u64 },
    CreateTransaction {
        seed: u128,
        accounts: Seq<Seq<u8>>,
        instructions: Seq<TransactionInstructionView>,
    },
    Approve,
    ExecuteTransaction,
    DeletePendingTransaction { pending_transaction: Seq<u8> },
}

impl View for MultisigInstruction {
    type V = MultisigInstructionView;

    open spec fn view(&self) -> MultisigInstructionView {
        match self {
            MultisigInstruction::CreateMultisig { seed, owners, threshold } => {
                MultisigInstructionView::CreateMultisig {
                    seed: *seed,
                    owners: owners.deep_view(),
                    threshold: *threshold,
                }
            },
            MultisigInstruction::AddOwner { owner } => MultisigInstructionView::AddOwner {
                owner: owner@,
            },
            MultisigInstruction::DeleteOwner { owner } => MultisigInstructionView::DeleteOwner {
                owner: owner@,
            },
            MultisigInstruction::UpdateThreshold { threshold } => {
                MultisigInstructionView::UpdateThreshold { threshold: *threshold }
            },
            MultisigInstruction::CreateTransaction { seed, accounts, instructions } => {
                MultisigInstructionView::CreateTransaction {
                    seed: *seed,
                    accounts: accounts.deep_view(),
                    instructions: instructions.deep_view(),
                }
            },
            MultisigInstruction::Approve => MultisigInstructionView::Approve,
            MultisigInstruction::ExecuteTransaction => MultisigInstructionView::ExecuteTransaction,
            MultisigInstruction::DeletePendingTransaction { pending_transaction } => {
                MultisigInstructionView::DeletePendingTransaction {
                    pending_transaction: pending_transaction@,
                }
            },
        }
    }
}

/// The instruction data: the variant's number in one byte, then its fields.
pub open spec fn enc_multisig_instruction(i: MultisigInstructionView) -> Seq<u8> {
    match i {
        MultisigInstructionView::CreateMultisig { seed, owners, threshold } => enc_u8(0) + enc_u128(
            seed,
        ) + enc_seq(owners, pubkey_encoder()) + enc_u64(threshold),
        MultisigInstructionView::AddOwner { owner } => enc_u8(1) + enc_pubkey(owner),
        MultisigInstructionView::DeleteOwner { owner } => enc_u8(2) + enc_pubkey(owner),
        MultisigInstructionView::UpdateThreshold { threshold } => enc_u8(3) + enc_u64(threshold),
        MultisigInstructionView::CreateTransaction { seed, accounts, instructions } => enc_u8(4)
            + enc_u128(seed) + enc_seq(accounts, pubkey_encoder()) + enc_seq(
            instructions,
            instruction_encoder(),
        ),
        MultisigInstructionView::Approve => enc_u8(5),
        MultisigInstructionView::ExecuteTransaction => enc_u8(6),
        MultisigInstructionView::DeletePendingTransaction { pending_transaction } => enc_u8(7)
            + enc_pubkey(pending_transaction),
    }
}

/// The addresses have 32 bytes and every list fits the format.
pub open spec fn multisig_instruction_fits(i: MultisigInstructionView) -> bool {
    match i {
        MultisigInstructionView::CreateMultisig { owners, .. } => owners.len() <= u32::MAX
            && all_ok(owners, is_pubkey()),
        MultisigInstructionView::AddOwner { owner } => owner.len() == 32,
        MultisigInstructionView::DeleteOwner { owner } => owner.len() == 32,
        MultisigInstructionView::CreateTransaction { accounts, instructions, .. } => accounts.len()
            <= u32::MAX && all_ok(accounts, is_pubkey()) && instructions.len() <= u32::MAX && all_ok(
            instructions,
            instruction_ok(),
        ),
        MultisigInstructionView::DeletePendingTransaction { pending_transaction } =>
            pending_transaction.len() == 32,
        _ => true,
    }
}

pub open spec fn read_multisig_instruction(s: Seq<u8>, p: nat) -> Option<(MultisigInstructionView, nat)> {
    match read_u8(s, p) {
        Some((tag, p1)) => if tag == 0 {
            match read_u128(s, p1) {
                Some((seed, p2)) => match read_seq(s, p2, pubkey_reader()) {
                    Some((owners, p3)) => match read_u64(s, p3) {
                        Some((threshold, p4)) => Some(
                            (MultisigInstructionView::CreateMultisig { seed, owners, threshold }, p4),
                        ),
                        None => None,
                    },
                    None => None,
                },
                None => None,
            }
        } else if tag == 1 {
            match read_pubkey(s, p1) {
                Some((owner, p2)) => Some((MultisigInstructionView::AddOwner { owner }, p2)),
                None => None,
            }
        } else if tag == 2 {
            match read_pubkey(s, p1) {
                Some((owner, p2)) => Some((MultisigInstructionView::DeleteOwner { owner }, p2)),
                None => None,
            }
        } else if tag == 3 {
            match read_u64(s, p1) {
                Some((threshold, p2)) => Some(
                    (MultisigInstructionView::UpdateThreshold { threshold }, p2),
                ),
                None => None,
            }
        } else if tag == 4 {
            match read_u128(s, p1) {
                Some((seed, p2)) => match read_seq(s, p2, pubkey_reader()) {
                    Some((accounts, p3)) => match read_seq(s, p3, instruction_reader()) {
                        Some((instructions, p4)) => Some(
                            (
                                MultisigInstructionView::CreateTransaction {
                                    seed,
                                    accounts,
                                    instructions,
                                },
                                p4,
                            ),
                        ),
                        None => None,
                    },
                    None => None,
                },
                None => None,
            }
        } else if tag == 5 {
            Some((MultisigInstructionView::Approve, p1))
        } else if tag == 6 {
            Some((MultisigInstructionView::ExecuteTransaction, p1))
        } else if tag == 7 {
            match read_pubkey(s, p1) {
                Some((pending_transaction, p2)) => Some(
                    (MultisigInstructionView::DeletePendingTransaction { pending_transaction }, p2),
                ),
                None => None,
            }
        } else {
            None
        },
        None => None,
    }
}

/// What `MultisigInstruction::try_from_slice` gives for the data `s`: the
/// instruction whose bytes are all of `s`.
pub open spec fn multisig_instruction_from_slice(s: Seq<u8>) -> Result<MultisigInstructionView, UnpackError> {
    match read_multisig_instruction(s, 0) {
        Some((i, q)) => if q == s.len() {
            Ok(i)
        } else {
            Err(UnpackError::InvalidEncoding)
        },
        None => Err(UnpackError::InvalidEncoding),
    }
}

impl MultisigInstruction {
    /// Every list of the instruction fits the format.
    pub open spec fn fits(&self) -> bool {
        match self {
            MultisigInstruction::CreateMultisig { owners, .. } => owners@.len() <= u32::MAX,
            MultisigInstruction::CreateTransaction { accounts, instructions, .. } => {
                &&& accounts@.len() <= u32::MAX
                &&& instructions@.len() <= u32::MAX
                &&& forall|i: int|
                    0 <= i < instructions@.len() ==> instruction_fits(#[trigger] instructions@[i]@)
            },
            _ => true,
        }
    }

    /// The instruction data.
    pub fn try_to_vec(&self) -> (r: Vec<u8>)
        requires
            self.fits(),
        ensures
            r@ == enc_multisig_instruction(self@),
            fields_at(r@, self@),
    {
        let mut out: Vec<u8> = Vec::new();
        match self {
            MultisigInstruction::CreateMultisig { seed, owners, threshold } => {
                write_u8(&mut out, 0);
                write_u128(&mut out, *seed);
                write_pubkeys(&mut out, owners);
                write_u64(&mut out, *threshold);
            },
            MultisigInstruction::AddOwner { owner } => {
                write_u8(&mut out, 1);
                write_pubkey(&mut out, owner);
            },
            MultisigInstruction::DeleteOwner { owner } => {
                write_u8(&mut out, 2);
                write_pubkey(&mut out, owner);
            },
            MultisigInstruction::UpdateThreshold { threshold } => {
                write_u8(&mut out, 3);
                write_u64(&mut out, *threshold);
            },
            MultisigInstruction::CreateTransaction { seed, accounts, instructions } => {
                write_u8(&mut out, 4);
                write_u128(&mut out, *seed);
                write_pubkeys(&mut out, accounts);
                write_instructions(&mut out, instructions);
            },
            MultisigInstruction::Approve => {
                write_u8(&mut out, 5);
            },
            MultisigInstruction::ExecuteTransaction => {
                write_u8(&mut out, 6);
            },
            MultisigInstruction::DeletePendingTransaction { pending_transaction } => {
                write_u8(&mut out, 7);
                write_pubkey(&mut out, pending_transaction);
            },
        }
        assert(out@ =~= enc_multisig_instruction(self@));
        proof {
            lemma_multisig_instruction_view_fits(self);
            lemma_multisig_instruction_fields(self@);
        }
        out
    }

    /// Reads the instruction whose bytes are the whole of `data`.
    pub fn try_from_slice(data: &[u8]) -> (r: Result<MultisigInstruction, UnpackError>)
        ensures
            match multisig_instruction_from_slice(data@) {
                Ok(i) => r matches Ok(x) && x@ == i,
                Err(e) => r matches Err(x) && x == e,
            },
            r matches Ok(x) ==> fields_at(data@, x@),
    {
        proof {
            lemma_read_multisig_instruction_fields(data@);
        }
        match read_multisig_instruction_at(data, 0) {
            Some((i, q)) => if q == data.len() {
                Ok(i)
            } else {
                Err(UnpackError::InvalidEncoding)
            },
            None => Err(UnpackError::InvalidEncoding),
        }
    }
}

impl DeepView for MultisigInstruction {
    type V = MultisigInstructionView;

    open spec fn deep_view(&self) -> MultisigInstructionView {
        self@
    }
}

fn read_multisig_instruction_at(s: &[u8], pos: usize) -> (r: Option<(MultisigInstruction, usize)>)
    ensures
        agrees(r, read_multisig_instruction(s@, pos as nat), s@.len()),
{
    let (tag, p1) = match read_u8_at(s, pos) {
        Some(x) => x,
        None => return None,
    };
    if tag == 0 {
        let (seed, p2) = match read_u128_at(s, p1) {
            Some(x) => x,
            None => return None,
        };
        let (owners, p3) = match read_pubkeys_at(s, p2) {
            Some(x) => x,
            None => return None,
        };
        let (threshold, p4) = match read_u64_at(s, p3) {
            Some(x) => x,
            None => return None,
        };
        Some((MultisigInstruction::CreateMultisig { seed, owners, threshold }, p4))
    } else if tag == 1 {
        match read_pubkey_at(s, p1) {
            Some((owner, p2)) => Some((MultisigInstruction::AddOwner { owner }, p2)),
            None => None,
        }
    } else if tag == 2 {
        match read_pubkey_at(s, p1) {
            Some((owner, p2)) => Some((MultisigInstruction::DeleteOwner { owner }, p2)),
            None => None,
        }
    } else if tag == 3 {
        match read_u64_at(s, p1) {
            Some((threshold, p2)) => Some((MultisigInstruction::UpdateThreshold { threshold }, p2)),
            None => None,
        }
    } else if tag == 4 {
        let (seed, p2) = match read_u128_at(s, p1) {
            Some(x) => x,
            None => return None,
        };
        let (accounts, p3) = match read_pubkeys_at(s, p2) {
            Some(x) => x,
            None => return None,
        };
        let (instructions, p4) = match read_instructions_at(s, p3) {
            Some(x) => x,
            None => return None,
        };
        Some((MultisigInstruction::CreateTransaction { seed, accounts, instructions }, p4))
    } else if tag == 5 {
        Some((MultisigInstruction::Approve, p1))
    } else if tag == 6 {
        Some((MultisigInstruction::ExecuteTransaction, p1))
    } else if tag == 7 {
        match read_pubkey_at(s, p1) {
            Some((pending_transaction, p2)) => Some(
                (MultisigInstruction::DeletePendingTransaction { pending_transaction }, p2),
            ),
            None => None,
        }
    } else {
        None
    }
}

/// Reading an instruction where its bytes stand gives it back.
pub proof fn lemma_read_multisig_instruction(s: Seq<u8>, p: nat, i: MultisigInstructionView)
    requires
        multisig_instruction_fits(i),
        bytes_at(s, p, enc_multisig_instruction(i)),
    ensures
        read_multisig_instruction(s, p) == Some((i, p + enc_multisig_instruction(i).len())),
{
    match i {
        MultisigInstructionView::CreateMultisig { seed, owners, threshold } => {
            let a = enc_u8(0);
            let b = enc_u128(seed);
            let c = enc_seq(owners, pubkey_encoder());
            let d = enc_u64(threshold);
            crate::codec::lemma_le_bytes_len(seed as nat, 16);
            crate::codec::lemma_le_bytes_len(threshold as nat, 8);
            assert(bytes_at(s, p, a + b + c) && bytes_at(s, p + 17 + c.len(), d)) by {
                lemma_bytes_at_concat(s, p, a + b + c, d);
            }
            assert(bytes_at(s, p, a + b) && bytes_at(s, p + 17, c)) by {
                lemma_bytes_at_concat(s, p, a + b, c);
            }
            assert(bytes_at(s, p, a) && bytes_at(s, p + 1, b)) by {
                lemma_bytes_at_concat(s, p, a, b);
            }
            lemma_read_u8(s, p, 0);
            lemma_read_u128(s, p + 1, seed);
            lemma_pubkey_reads_back();
            lemma_read_seq(s, p + 17, owners, pubkey_encoder(), pubkey_reader(), is_pubkey());
            lemma_read_u64(s, p + 17 + c.len(), threshold);
        },
        MultisigInstructionView::AddOwner { owner } => {
            lemma_bytes_at_concat(s, p, enc_u8(1), enc_pubkey(owner));
            lemma_read_u8(s, p, 1);
            lemma_read_pubkey(s, p + 1, owner);
        },
        MultisigInstructionView::DeleteOwner { owner } => {
            lemma_bytes_at_concat(s, p, enc_u8(2), enc_pubkey(owner));
            lemma_read_u8(s, p, 2);
            lemma_read_pubkey(s, p + 1, owner);
        },
        MultisigInstructionView::UpdateThreshold { threshold } => {
            crate::codec::lemma_le_bytes_len(threshold as nat, 8);
            lemma_bytes_at_concat(s, p, enc_u8(3), enc_u64(threshold));
            lemma_read_u8(s, p, 3);
            lemma_read_u64(s, p + 1, threshold);
        },
        MultisigInstructionView::CreateTransaction { seed, accounts, instructions } => {
            let a = enc_u8(4);
            let b = enc_u128(seed);
            let c = enc_seq(accounts, pubkey_encoder());
            let d = enc_seq(instructions, instruction_encoder());
            crate::codec::lemma_le_bytes_len(seed as nat, 16);
            assert(bytes_at(s, p, a + b + c) && bytes_at(s, p + 17 + c.len(), d)) by {
                lemma_bytes_at_concat(s, p, a + b + c, d);
            }
            assert(bytes_at(s, p, a + b) && bytes_at(s, p + 17, c)) by {
                lemma_bytes_at_concat(s, p, a + b, c);
            }
            assert(bytes_at(s, p, a) && bytes_at(s, p + 1, b)) by {
                lemma_bytes_at_concat(s, p, a, b);
            }
            lemma_read_u8(s, p, 4);
            lemma_read_u128(s, p + 1, seed);
            lemma_pubkey_reads_back();
            lemma_read_seq(s, p + 17, accounts, pubkey_encoder(), pubkey_reader(), is_pubkey());
            lemma_instruction_reads_back();
            lemma_read_seq(
                s,
                p + 17 + c.len(),
                instructions,
                instruction_encoder(),
                instruction_reader(),
                instruction_ok(),
            );
        },
        MultisigInstructionView::Approve => {
            lemma_read_u8(s, p, 5);
        },
        MultisigInstructionView::ExecuteTransaction => {
            lemma_read_u8(s, p, 6);
        },
        MultisigInstructionView::DeletePendingTransaction { pending_transaction } => {
            lemma_bytes_at_concat(s, p, enc_u8(7), enc_pubkey(pending_transaction));
            lemma_read_u8(s, p, 7);
            lemma_read_pubkey(s, p + 1, pending_transaction);
        },
    }
}

/// The program reads back the instruction data that
/// `MultisigInstruction::try_to_vec` writes: `try_from_slice` of those
/// bytes is the instruction that was written.
pub proof fn lemma_multisig_instruction_round_trip(i: MultisigInstructionView)
    requires
        multisig_instruction_fits(i),
    ensures
        multisig_instruction_from_slice(enc_multisig_instruction(i)) == Ok::<
            MultisigInstructionView,
            UnpackError,
        >(i),
{
    let s = enc_multisig_instruction(i);
    assert(s.subrange(0, s.len() as int) =~= s);
    lemma_read_multisig_instruction(s, 0, i);
}

/// Where each field of an instruction stands in the data `s`, by absolute
/// position: the variant number in byte 0, then the fields in the order in
/// which the variant declares them; integers as their little-endian bytes,
/// an address as its 32 bytes, a list as its length in four little-endian
/// bytes followed by its items.
pub open spec fn fields_at(s: Seq<u8>, i: MultisigInstructionView) -> bool {
    match i {
        MultisigInstructionView::CreateMultisig { seed, owners, threshold } => {
            let n = owners.len();
            &&& 29 + 32 * n <= s.len()
            &&& s[0] == 0
            &&& s.subrange(1, 17) == le_bytes(seed as nat, 16)
            &&& s.subrange(17, 21) == le_bytes(n, 4)
            &&& forall|k: int| 0 <= k < n ==> #[trigger] owners[k] == s.subrange(21 + 32 * k, 53 + 32 * k)
            &&& s.subrange((21 + 32 * n) as int, (29 + 32 * n) as int) == le_bytes(threshold as nat, 8)
        },
        MultisigInstructionView::AddOwner { owner } => {
            &&& 33 <= s.len()
            &&& s[0] == 1
            &&& s.subrange(1, 33) == owner
        },
        MultisigInstructionView::DeleteOwner { owner } => {
            &&& 33 <= s.len()
            &&& s[0] == 2
            &&& s.subrange(1, 33) == owner
        },
        MultisigInstructionView::UpdateThreshold { threshold } => {
            &&& 9 <= s.len()
            &&& s[0] == 3
            &&& s.subrange(1, 9) == le_bytes(threshold as nat, 8)
        },
        MultisigInstructionView::CreateTransaction { seed, accounts, instructions } => {
            let n = accounts.len();
            &&& 25 + 32 * n <= s.len()
            &&& s[0] == 4
            &&& s.subrange(1, 17) == le_bytes(seed as nat, 16)
            &&& s.subrange(17, 21) == le_bytes(n, 4)
            &&& forall|k: int|
                0 <= k < n ==> #[trigger] accounts[k] == s.subrange(21 + 32 * k, 53 + 32 * k)
            &&& s.subrange((21 + 32 * n) as int, (25 + 32 * n) as int) == le_bytes(instructions.len(), 4)
        },
        MultisigInstructionView::Approve => 1 <= s.len() && s[0] == 5,
        MultisigInstructionView::ExecuteTransaction => 1 <= s.len() && s[0] == 6,
        MultisigInstructionView::DeletePendingTransaction { pending_transaction } => {
            &&& 33 <= s.len()
            &&& s[0] == 7
            &&& s.subrange(1, 33) == pending_transaction
        },
    }
}

/// What the program reads from instruction data is laid out field by field
/// in declaration order: for a request to create a transaction, the number 4
/// in byte 0, the seed in bytes 1 to 16 (little-endian), the number of
/// accounts in bytes 17 to 20, the `k`-th account in the 32 bytes from
/// `21 + 32 k`, then the number of instructions.
pub proof fn lemma_read_multisig_instruction_fields(s: Seq<u8>)
    ensures
        read_multisig_instruction(s, 0) matches Some((i, _)) ==> fields_at(s, i),
{
    if s.len() > 0 {
        let tag = s[0];
        lemma_read_u128_value(s, 1);
        lemma_read_u64_value(s, 1);
        lemma_pubkey_list_at(s, 17);
        match read_seq(s, 17, pubkey_reader()) {
            Some((xs, q)) => {
                lemma_read_u64_value(s, q);
                lemma_read_seq_count(s, q, instruction_reader());
                assert(q == 21 + 32 * xs.len());
                assert forall|k: int| 0 <= k < xs.len() implies #[trigger] xs[k] == s.subrange(
                    21 + 32 * k,
                    53 + 32 * k,
                ) by {
                    assert(17 + 4 + 32 * k + 32 == 53 + 32 * k);
                }
            },
            None => {},
        }
    }
}

/// The instruction data that `MultisigInstruction::try_to_vec` writes has
/// each field where `fields_at` places it: for a request to create a
/// transaction, the number 4, the seed's 16 little-endian bytes, the number
/// of accounts in four bytes, each account's 32 bytes in order, then the
/// number of instructions.
pub proof fn lemma_multisig_instruction_fields(i: MultisigInstructionView)
    requires
        multisig_instruction_fits(i),
    ensures
        fields_at(enc_multisig_instruction(i), i),
{
    let s = enc_multisig_instruction(i);
    lemma_multisig_instruction_round_trip(i);
    lemma_read_multisig_instruction_fields(s);
}

/// The view of an instruction in memory fits the format when its lists do.
pub proof fn lemma_multisig_instruction_view_fits(i: &MultisigInstruction)
    requires
        i.fits(),
    ensures
        multisig_instruction_fits(i@),
{
    match i {
        MultisigInstruction::CreateMultisig { owners, .. } => {
            crate::codec::lemma_pubkeys_ok(owners@);
        },
        MultisigInstruction::CreateTransaction { accounts, instructions, .. } => {
            crate::codec::lemma_pubkeys_ok(accounts@);
            lemma_instructions_ok(instructions@);
        },
        _ => {},
    }
}

} // verus!
