use vstd::prelude::*;

use crate::errors::ProcessError;

verus! {

/// A principal: a fixed-width, byte-exact identifier for an actor, a
/// program or a storage slot.
#[derive(Debug, Clone)]
pub struct Address {
    pub bytes: Vec<u8>,
}

impl View for Address {
    type V = Seq<u8>;

    open spec fn view(&self) -> Seq<u8> {
        self.bytes@
    }
}

impl Address {
    /// A well-formed principal holds exactly 32 bytes.
    pub open spec fn wf(&self) -> bool {
        self.bytes@.len() == 32
    }
}

impl PartialEq for Address {
    /// Byte-exact equality of principals.
    fn eq(&self, other: &Self) -> bool {
        let n = self.bytes.len();
        if n != other.bytes.len() {
            return false;
        }
        let mut i: usize = 0;
        while i < n
            invariant
                n == self.bytes@.len(),
                n == other.bytes@.len(),
                i <= n,
                forall|j: int| 0 <= j < i ==> self.bytes@[j] == other.bytes@[j],
            decreases n - i,
        {
            if self.bytes[i] != other.bytes[i] {
                return false;
            }
            i += 1;
        }
        proof {
            assert(self.bytes@ =~= other.bytes@);
        }
        true
    }
}

impl vstd::std_specs::cmp::PartialEqSpecImpl for Address {
    open spec fn obeys_eq_spec() -> bool {
        true
    }

    open spec fn eq_spec(&self, other: &Self) -> bool {
        self@ == other@
    }
}

/// What the host's address derivation returns for the fixed seed
/// `favorites` followed by an owner identity, under a program identity:
/// the canonical `(address, bump)` pair, or nothing in the statistically
/// improbable case that the bump space is exhausted. A function of the
/// two identities alone.
pub uninterp spec fn pda_of(owner: Seq<u8>, program: Seq<u8>) -> Option<(Seq<u8>, u8)>;

/// Relies on solana_program's `Pubkey::try_find_program_address`, called
/// with the seeds `[b"favorites", owner]`: the result is deterministic, a
/// function of the seeds and the program identity alone, and any address
/// it finds is 32 bytes wide.
#[verifier::external_body]
fn find_favorites_address(owner: &Address, program: &Address) -> (r: Option<(Address, u8)>)
    requires
        owner.wf(),
        program.wf(),
    ensures
        (match r {
            Option::Some(p) => pda_of(owner@, program@) == Some((p.0@, p.1)) && p.0.wf(),
            Option::None => pda_of(owner@, program@) is None,
        }),
{
    let program_id = solana_program::pubkey::Pubkey::new_from_array(
        program.bytes.as_slice().try_into().unwrap(),
    );
    let seeds: [&[u8]; 2] = ["favorites".as_bytes(), owner.bytes.as_slice()];
    solana_program::pubkey::Pubkey::try_find_program_address(&seeds, &program_id).map(
        |found: (solana_program::pubkey::Pubkey, u8)|
            (Address { bytes: found.0.to_bytes().to_vec() }, found.1),
    )
}

/// Derives the canonical favorites slot address and its bump for an owner
/// under a program. Deterministic and pure: the result is pinned to a
/// function of the two identities alone, so repeated derivation always
/// yields the same pair. Fails only when the bump space is exhausted.
pub fn derive_favorites_address(owner: &Address, program: &Address) -> (r: Result<
    (Address, u8),
    ProcessError,
>)
    requires
        owner.wf(),
        program.wf(),
    ensures
        (match r {
            Ok(p) => pda_of(owner@, program@) == Some((p.0@, p.1)) && p.0.wf(),
            Err(e) => e == ProcessError::AddressUnavailable && pda_of(owner@, program@) is None,
        }),
{
    match find_favorites_address(owner, program) {
        Option::Some(p) => Ok(p),
        Option::None => Err(ProcessError::AddressUnavailable),
    }
}

/// Law: derivation is deterministic. Whatever the derivation contract
/// assigns to a fixed owner and program is one value; two results both
/// equal to it are equal to each other.
pub proof fn lemma_derivation_deterministic(
    owner: Seq<u8>,
    program: Seq<u8>,
    r1: Option<(Seq<u8>, u8)>,
    r2: Option<(Seq<u8>, u8)>,
)
    requires
        r1 == pda_of(owner, program),
        r2 == pda_of(owner, program),
    ensures
        r1 == r2,
{
}

} // verus!
