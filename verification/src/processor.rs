use vstd::prelude::*;

use crate::account::{AccountState, AccountView};
use crate::addr::Address;
use crate::codec::{decode, spec_canonical_size, spec_decode_all, spec_encode};
use crate::errors::ProcessError;
use crate::initialize::{process_initialize_instruction, spec_initialize_outcome, CreateSlotAction};
use crate::set::{process_setfavorites_instruction, spec_set_outcome};
use crate::state::{spec_validate, Favorites};

verus! {

/// One parsed instruction: write a validated record, or create the slot.
#[derive(Debug)]
pub enum Instruction {
    SetFavorites { data: Vec<Option<Vec<u8>>> },
    Initialize,
}

/// The mathematical value of a parsed instruction.
pub enum InstructionView {
    SetFavorites(Seq<Option<Seq<u8>>>),
    Initialize,
}

impl View for Instruction {
    type V = InstructionView;

    open spec fn view(&self) -> InstructionView {
        match self {
            Instruction::SetFavorites { data } => InstructionView::SetFavorites(data.deep_view()),
            Instruction::Initialize => InstructionView::Initialize,
        }
    }
}

/// What parsing an opaque instruction buffer yields: byte 0 selects the
/// operation (0 write, 1 create); an empty buffer or any other value is
/// malformed input. A write's payload must decode exactly and pass
/// validation before any account is touched.
pub open spec fn spec_unpack(bytes: Seq<u8>) -> Result<InstructionView, ProcessError> {
    if bytes.len() == 0 {
        Err(ProcessError::InvalidInstructionData)
    } else if bytes[0] == 0 {
        match spec_decode_all(bytes.skip(1)) {
            Option::None => Err(ProcessError::BorshIo),
            Option::Some(items) => match spec_validate(items) {
                Err(e) => Err(ProcessError::Favorites(e)),
                Ok(()) => Ok(InstructionView::SetFavorites(items)),
            },
        }
    } else if bytes[0] == 1 {
        Ok(InstructionView::Initialize)
    } else {
        Err(ProcessError::InvalidInstructionData)
    }
}

impl Instruction {
    /// Parses an instruction buffer, returning exactly what
    /// [`spec_unpack`] assigns: the operation selected by byte 0, with a
    /// write's payload decoded and validated up front.
    pub fn unpack(instruction_data: &[u8]) -> (r: Result<Instruction, ProcessError>)
        ensures
            (match r {
                Ok(ins) => spec_unpack(instruction_data@) == Ok::<
                    InstructionView,
                    ProcessError,
                >(ins@),
                Err(e) => spec_unpack(instruction_data@) == Err::<
                    InstructionView,
                    ProcessError,
                >(e),
            }),
    {
        if instruction_data.len() == 0 {
            return Err(ProcessError::InvalidInstructionData);
        }
        let variant = instruction_data[0];
        if variant == 0 {
            let rest = vstd::slice::slice_subrange(instruction_data, 1, instruction_data.len());
            proof {
                assert(rest@ =~= instruction_data@.skip(1));
            }
            match decode(rest) {
                Err(e) => Err(e),
                Ok(favorites) => match favorites.validate() {
                    Err(e) => Err(e),
                    Ok(()) => Ok(Instruction::SetFavorites { data: favorites.data }),
                },
            }
        } else if variant == 1 {
            Ok(Instruction::Initialize)
        } else {
            Err(ProcessError::InvalidInstructionData)
        }
    }
}

/// Dispatches one invocation: parses the instruction buffer, then runs
/// the selected handler with the owner and slot accounts. A write
/// overwrites the slot's bytes in place and returns no action; a create
/// leaves the slot untouched and returns the allocation action for the
/// runtime to perform; every failure leaves the slot byte-for-byte
/// unchanged and is reported exactly.
pub fn process_instruction(
    program_id: &Address,
    user: &AccountView,
    slot: &mut AccountView,
    instruction_data: &[u8],
) -> (r: Result<Option<CreateSlotAction>, ProcessError>)
    requires
        program_id.wf(),
        user.wf(),
        old(slot).wf(),
    ensures
        (match spec_unpack(instruction_data@) {
            Err(e) => r == Err::<Option<CreateSlotAction>, ProcessError>(e) && *final(slot)
                == *old(slot),
            Ok(InstructionView::SetFavorites(items)) => (match spec_set_outcome(
                program_id@,
                user@,
                old(slot)@,
                items,
            ) {
                Ok(()) => r == Ok::<Option<CreateSlotAction>, ProcessError>(None) && final(slot)@
                    == (AccountState {
                    data: spec_encode(items) + old(slot)@.data.skip(spec_encode(items).len() as int),
                    ..old(slot)@
                }),
                Err(e) => r == Err::<Option<CreateSlotAction>, ProcessError>(e) && *final(slot)
                    == *old(slot),
            }),
            Ok(InstructionView::Initialize) => *final(slot) == *old(slot) && (match
            spec_initialize_outcome(program_id@, user@, old(slot)@) {
                Ok(bump) => (r matches Ok(a) && a matches Some(act) && act.bump == bump
                    && act.space == spec_canonical_size()),
                Err(e) => r == Err::<Option<CreateSlotAction>, ProcessError>(e),
            }),
        }),
{
    match Instruction::unpack(instruction_data) {
        Err(e) => Err(e),
        Ok(ins) => match ins {
            Instruction::SetFavorites { data } => {
                let favorites = Favorites { data };
                match process_setfavorites_instruction(program_id, user, slot, favorites) {
                    Ok(()) => Ok(None),
                    Err(e) => Err(e),
                }
            },
            Instruction::Initialize => {
                match process_initialize_instruction(program_id, user, slot) {
                    Ok(a) => Ok(Some(a)),
                    Err(e) => Err(e),
                }
            },
        },
    }
}

} // verus!
