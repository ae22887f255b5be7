use vstd::prelude::*;

verus! {

/// Validation and authentication failures specific to the favorites record.
///
/// The numeric code of each variant (see [`FavoritesError::code`]) is the
/// stable value reported at the boundary as a custom program error.
#[derive(Clone, Copy, Debug, PartialEq, Eq, Structural)]
pub enum FavoritesError {
    /// The record holds no entry at all.
    InvalidLength,
    /// The record holds more entries than `MAX_SLOTS`.
    ExceedsMaxLength,
    /// A present entry is longer than `MAX_ITEM_LEN` bytes.
    ExceedsIndMaxLength,
    /// The supplied slot account is not the canonical derived address.
    IncorrectFavoritesId,
    /// The owning principal did not sign the invocation.
    SignerNotFound,
}

impl FavoritesError {
    /// Stable numeric code of this variant, in declaration order.
    pub open spec fn spec_code(self) -> u32 {
        match self {
            FavoritesError::InvalidLength => 0,
            FavoritesError::ExceedsMaxLength => 1,
            FavoritesError::ExceedsIndMaxLength => 2,
            FavoritesError::IncorrectFavoritesId => 3,
            FavoritesError::SignerNotFound => 4,
        }
    }

    /// Numeric code under which this failure is reported at the boundary.
    pub fn code(&self) -> (r: u32)
        ensures
            r == self.spec_code(),
    {
        match self {
            FavoritesError::InvalidLength => 0,
            FavoritesError::ExceedsMaxLength => 1,
            FavoritesError::ExceedsIndMaxLength => 2,
            FavoritesError::IncorrectFavoritesId => 3,
            FavoritesError::SignerNotFound => 4,
        }
    }
}

/// Every failure an instruction can end with.
///
/// The first failing check aborts the invocation; no state is changed on
/// failure. Variants other than `Favorites` mirror the host runtime's own
/// error kinds and are translated back to them at the boundary.
#[derive(Clone, Copy, Debug, PartialEq, Eq, Structural)]
pub enum ProcessError {
    /// A record-specific validation or authentication failure.
    Favorites(FavoritesError),
    /// The slot account handed in is not the derived canonical address.
    IncorrectProgramId,
    /// Slot creation was requested but the slot already holds data.
    AccountAlreadyInitialized,
    /// The slot account is not owned by this program.
    IllegalOwner,
    /// The slot account is not writable in this invocation.
    Immutable,
    /// Empty instruction data or an unknown operation code.
    InvalidInstructionData,
    /// The record payload could not be decoded, or the encoded record
    /// did not fit the slot's buffer.
    BorshIo,
    /// The bump space was exhausted and no valid address exists.
    AddressUnavailable,
}

} // verus!
