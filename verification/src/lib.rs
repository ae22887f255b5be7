use vstd::prelude::*;

pub mod account;
pub mod addr;
pub mod codec;
pub mod errors;
pub mod initialize;
pub mod processor;
pub mod set;
pub mod state;

verus! {

/// Greatest number of entries a favorites record may hold.
pub const MAX_SLOTS: usize = 5;

/// Greatest byte length a single present entry may have.
pub const MAX_ITEM_LEN: usize = 10;

} // verus!
