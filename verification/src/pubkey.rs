use vstd::prelude::*;

verus! {

/// A 32-byte account address.
#[derive(Clone, Copy, Debug, PartialEq, Eq, Hash)]
pub struct Pubkey {
    pub bytes: [u8; 32],
}

impl View for Pubkey {
    type V = Seq<u8>;

    open spec fn view(&self) -> Seq<u8> {
        self.bytes@
    }
}

impl DeepView for Pubkey {
    type V = Seq<u8>;

    open spec fn deep_view(&self) -> Seq<u8> {
        self.bytes@
    }
}

impl Pubkey {
    /// The address made of the given bytes.
    pub fn new_from_array(bytes: [u8; 32]) -> (r: Pubkey)
        ensures
            r.bytes == bytes,
            r@ == bytes@,
    {
        Pubkey { bytes }
    }

    /// The bytes of the address.
    pub fn to_bytes(&self) -> (r: [u8; 32])
        ensures
            r == self.bytes,
            r@ == self@,
    {
        self.bytes
    }

    /// Whether two addresses are the same.
    pub fn equals(&self, other: &Pubkey) -> (r: bool)
        ensures
            r == (self@ == other@),
    {
        let mut i: usize = 0;
        while i < 32
            invariant
                i <= 32,
                forall|j: int| 0 <= j < i ==> self@[j] == other@[j],
            decreases 32 - i,
        {
            if self.bytes[i] != other.bytes[i] {
                assert(self@[i as int] != other@[i as int]);
                return false;
            }
            i = i + 1;
        }
        assert(self@ =~= other@);
        true
    }
}

/// The bytes of the multisig program's address,
/// msigLK5Pz1XD5GcTTSx3JNik7NTx8JbfbD8eF5sw89h in base 58.
pub open spec fn program_id_bytes() -> Seq<u8> {
    seq![11, 126, 231, 62, 12, 234, 179, 11, 163, 38, 157, 73, 234, 56, 162, 236, 11, 70, 199, 102, 211, 151, 227, 94, 177, 109, 15, 171, 55, 207, 89, 4]
}

/// The address of the multisig program.
pub fn id() -> (r: Pubkey)
    ensures
        r@ == program_id_bytes(),
{
    let r = Pubkey { bytes: [11, 126, 231, 62, 12, 234, 179, 11, 163, 38, 157, 73, 234, 56, 162, 236, 11, 70, 199, 102, 211, 151, 227, 94, 177, 109, 15, 171, 55, 207, 89, 4] };
    assert(r@ =~= program_id_bytes());
    r
}

/// The bytes of the system program's address,
/// 11111111111111111111111111111111 in base 58: all zero.
pub open spec fn system_program_bytes() -> Seq<u8> {
    Seq::new(32, |i: int| 0u8)
}

/// The bytes of the rent sysvar's address,
/// SysvarRent111111111111111111111111111111111 in base 58.
pub open spec fn rent_sysvar_bytes() -> Seq<u8> {
    seq![6, 167, 213, 23, 25, 44, 92, 81, 33, 140, 201, 76, 61, 74, 241, 127, 88, 218, 238, 8, 155, 161, 253, 68, 227, 219, 217, 138, 0, 0, 0, 0]
}

/// Calls `solana_program::system_program::id`, which the crate declares
/// from the base-58 text 11111111111111111111111111111111; the contract
/// claims the 32 bytes that text stands for.
#[verifier::external_body]
pub(crate) fn system_program_id() -> (r: Pubkey)
    ensures
        r@ == system_program_bytes(),
{
    Pubkey { bytes: solana_program::system_program::id().to_bytes() }
}

/// Calls `solana_program::sysvar::rent::id`, which the crate declares from
/// the base-58 text SysvarRent111111111111111111111111111111111; the
/// contract claims the 32 bytes that text stands for.
#[verifier::external_body]
pub(crate) fn rent_sysvar_id() -> (r: Pubkey)
    ensures
        r@ == rent_sysvar_bytes(),
{
    Pubkey { bytes: solana_program::sysvar::rent::id().to_bytes() }
}

/// The program-derived address that `Pubkey::try_find_program_address` of
/// solana_program finds for `seeds` and the program `program_id`, with its
/// bump seed, or `None` where it finds none. It hashes the seeds with the
/// program id and a bump seed, trying bump seeds down from 255 for a hash
/// that is not a curve point; the search is not stated here.
pub uninterp spec fn derived_address(seeds: Seq<Seq<u8>>, program_id: Seq<u8>) -> Option<(Seq<u8>, u8)>;

/// Calls `solana_program::pubkey::Pubkey::try_find_program_address`, which
/// returns `None` instead of panicking: for more than 15 seeds, for a seed
/// longer than 32 bytes, and when no bump seed gives an address off the
/// curve. The contract claims that the result depends on the seeds and the
/// program id alone, as the name `derived_address`.
#[verifier::external_body]
pub(crate) fn try_find_program_address(seeds: &Vec<Vec<u8>>, program_id: &Pubkey) -> (r: Option<(Pubkey, u8)>)
    ensures
        match derived_address(seeds.deep_view(), program_id@) {
            Some((address, bump)) => r matches Some(x) && x.0@ == address && x.1 == bump,
            None => r is None,
        },
{
    let seed_slices: Vec<&[u8]> = seeds.iter().map(|s| s.as_slice()).collect();
    let program = solana_program::pubkey::Pubkey::new_from_array(program_id.bytes);
    match solana_program::pubkey::Pubkey::try_find_program_address(&seed_slices, &program) {
        Some((address, bump)) => Some((Pubkey { bytes: address.to_bytes() }, bump)),
        None => None,
    }
}

} // verus!
