use vstd::prelude::*;

use crate::account::{AccountState, AccountView};
use crate::addr::{derive_favorites_address, pda_of, Address};
use crate::codec::{lemma_canonical_size_value, spec_canonical_size};
use crate::errors::ProcessError;
use crate::state::Favorites;

verus! {

/// The one side effect slot creation asks of the runtime: allocate
/// `space` bytes at the slot's address, funded by the owner, owned by
/// this program, authorized with the derived `bump` as the proof of
/// authority over the keyless address.
#[derive(Clone, Copy, Debug, PartialEq, Eq, Structural)]
pub struct CreateSlotAction {
    /// The bump found by the canonical derivation for this owner.
    pub bump: u8,
    /// The byte size to allocate: always the canonical slot size.
    pub space: usize,
}

/// The decision slot creation comes to, checked in order: the slot
/// account must sit at the canonical derived address, and must not hold
/// any data yet — creation is one-shot. On success the derived bump is
/// handed out for the creation proof.
pub open spec fn spec_initialize_outcome(
    program: Seq<u8>,
    user: AccountState,
    slot: AccountState,
) -> Result<u8, ProcessError> {
    match pda_of(user.key, program) {
        Option::None => Err(ProcessError::AddressUnavailable),
        Option::Some(p) => if p.0 != slot.key {
            Err(ProcessError::IncorrectProgramId)
        } else if slot.data.len() > 0 {
            Err(ProcessError::AccountAlreadyInitialized)
        } else {
            Ok(p.1)
        },
    }
}

/// Law: creation is one-shot. A slot that already carries its allocation
/// (its buffer has the canonical size, as every created slot's does, and
/// that size is positive) is refused a second creation; the handler
/// reports it as already initialized and touches no data.
pub proof fn lemma_one_shot_creation(program: Seq<u8>, user: AccountState, slot: AccountState)
    requires
        slot.data.len() == spec_canonical_size(),
        pda_of(user.key, program) matches Some(p) && p.0 == slot.key,
    ensures
        spec_initialize_outcome(program, user, slot) == Err::<u8, ProcessError>(
            ProcessError::AccountAlreadyInitialized,
        ),
{
    lemma_canonical_size_value();
}

/// Authenticates one slot-creation request and computes the allocation
/// the runtime must perform. Touches no account data itself: a slot that
/// already holds bytes is reported as already initialized and left
/// untouched, so creation succeeds at most once per address. The outcome
/// is exactly the one [`spec_initialize_outcome`] assigns, and a granted
/// action always carries the canonical slot size and the derived bump.
pub fn process_initialize_instruction(
    program_id: &Address,
    user: &AccountView,
    slot: &AccountView,
) -> (r: Result<CreateSlotAction, ProcessError>)
    requires
        program_id.wf(),
        user.wf(),
        slot.wf(),
    ensures
        (match r {
            Ok(a) => spec_initialize_outcome(program_id@, user@, slot@) == Ok::<
                u8,
                ProcessError,
            >(a.bump) && a.space == spec_canonical_size(),
            Err(e) => spec_initialize_outcome(program_id@, user@, slot@) == Err::<
                u8,
                ProcessError,
            >(e),
        }),
{
    match derive_favorites_address(&user.key, program_id) {
        Err(e) => Err(e),
        Ok(p) => {
            if !(p.0 == slot.key) {
                return Err(ProcessError::IncorrectProgramId);
            }
            if slot.data.len() > 0 {
                return Err(ProcessError::AccountAlreadyInitialized);
            }
            match Favorites::get_size() {
                Ok(space) => Ok(CreateSlotAction { bump: p.1, space }),
                Err(e) => {
                    proof {
                        assert(false);
                    }
                    Err(e)
                },
            }
        },
    }
}

} // verus!
