//! Client-side library of a multisignature wallet program: account state
//! layouts and their byte format, the program's instruction set, and the
//! builders that turn requests into program instructions.

pub mod bindings;
pub mod client;
pub mod codec;
pub mod instruction;
pub mod pubkey;
pub mod state;

pub use bindings::{
    add_owner, approve, create_multisig, create_multisig_with_address, create_transaction,
    create_transaction_with_address, delete_pending_transaction, encode_instructions,
    execute_transaction, get_instruction_accounts, get_multisig_address, get_transaction_address,
};
pub use instruction::{AccountMeta, Instruction, MultisigInstruction};
pub use pubkey::{id, Pubkey};
pub use state::{
    Multisig, Transaction, TransactionAccount, TransactionInstruction, UnpackError, MAX_SIGNERS,
    MAX_TRANSACTIONS, MIN_SIGNERS, MULTISIG_LEN,
};
