use vstd::prelude::*;

use crate::account::{AccountState, AccountView};
use crate::addr::{derive_favorites_address, pda_of, Address};
use crate::codec::{encode, fits_wire, spec_encode};
use crate::errors::{FavoritesError, ProcessError};
use crate::state::Favorites;

verus! {

/// The decision a record write comes to, checked in order: the slot must
/// be owned by this program, the owner must have signed, the slot must be
/// writable, the slot must sit at the canonical derived address, and the
/// encoded record must fit the slot's buffer. Only then is the write
/// performed.
pub open spec fn spec_set_outcome(
    program: Seq<u8>,
    user: AccountState,
    slot: AccountState,
    items: Seq<Option<Seq<u8>>>,
) -> Result<(), ProcessError> {
    if slot.owner != program {
        Err(ProcessError::IllegalOwner)
    } else if !user.is_signer {
        Err(ProcessError::Favorites(FavoritesError::SignerNotFound))
    } else if !slot.is_writable {
        Err(ProcessError::Immutable)
    } else {
        match pda_of(user.key, program) {
            Option::None => Err(ProcessError::AddressUnavailable),
            Option::Some(p) => if p.0 != slot.key {
                Err(ProcessError::Favorites(FavoritesError::IncorrectFavoritesId))
            } else if !fits_wire(items) || spec_encode(items).len() > slot.data.len() {
                Err(ProcessError::BorshIo)
            } else {
                Ok(())
            },
        }
    }
}

/// Authenticates and performs one record write. On success the encoded
/// record overwrites the front of the slot's buffer in place; the bytes
/// beyond it and the buffer's length are untouched. On any failure the
/// slot is byte-for-byte unchanged, and the failure is exactly the one
/// [`spec_set_outcome`] assigns. The record is not re-validated here: the
/// dispatcher validates a write's payload before calling this.
pub fn process_setfavorites_instruction(
    program_id: &Address,
    user: &AccountView,
    slot: &mut AccountView,
    favorites: Favorites,
) -> (r: Result<(), ProcessError>)
    requires
        program_id.wf(),
        user.wf(),
        old(slot).wf(),
    ensures
        r == spec_set_outcome(program_id@, user@, old(slot)@, favorites@),
        (match r {
            Ok(()) => final(slot)@ == (AccountState {
                data: spec_encode(favorites@) + old(slot)@.data.skip(
                    spec_encode(favorites@).len() as int,
                ),
                ..old(slot)@
            }),
            Err(_) => *final(slot) == *old(slot),
        }),
{
    if !(slot.owner == *program_id) {
        return Err(ProcessError::IllegalOwner);
    }
    if !user.is_signer {
        return Err(ProcessError::Favorites(FavoritesError::SignerNotFound));
    }
    if !slot.is_writable {
        return Err(ProcessError::Immutable);
    }
    match derive_favorites_address(&user.key, program_id) {
        Err(e) => Err(e),
        Ok(p) => {
            if !(p.0 == slot.key) {
                return Err(ProcessError::Favorites(FavoritesError::IncorrectFavoritesId));
            }
            match encode(&favorites) {
                Err(e) => Err(e),
                Ok(enc) => {
                    if enc.len() > slot.data.len() {
                        return Err(ProcessError::BorshIo);
                    }
                    let ghost enc0 = enc@;
                    let ghost data0 = slot.data@;
                    let enc_len = enc.len();
                    let old_len = slot.data.len();
                    let mut new_data = enc;
                    let mut k: usize = enc_len;
                    while k < old_len
                        invariant
                            enc_len <= k <= old_len,
                            old_len == slot.data@.len(),
                            slot.data@ == data0,
                            new_data@ == enc0 + data0.subrange(enc_len as int, k as int),
                        decreases old_len - k,
                    {
                        let b = slot.data[k];
                        new_data.push(b);
                        assert(new_data@ =~= enc0 + data0.subrange(enc_len as int, k as int + 1));
                        k += 1;
                    }
                    proof {
                        assert(new_data@ =~= enc0 + data0.skip(enc_len as int));
                    }
                    slot.data = new_data;
                    Ok(())
                },
            }
        },
    }
}

} // verus!
