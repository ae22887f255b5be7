use favorites_pda::account::AccountView;
use favorites_pda::addr::{derive_favorites_address, Address};
use favorites_pda::codec::decode_prefix;
use favorites_pda::errors::{FavoritesError, ProcessError};
use favorites_pda::processor::{process_instruction, Instruction};
use favorites_pda::set::process_setfavorites_instruction;
use favorites_pda::state::Favorites;

fn addr32(b: u8) -> Address {
    Address { bytes: vec![b; 32] }
}

fn write_payload(items: Vec<Option<&str>>) -> Vec<u8> {
    let strings: Vec<Option<String>> = items.into_iter().map(|o| o.map(|s| s.to_string())).collect();
    let mut payload = vec![0u8];
    payload.extend(borsh::to_vec(&strings).unwrap());
    payload
}

/// An owner, the program, and the owner's slot account at the canonical
/// derived address, already created (allocated and program-owned).
fn setup() -> (Address, AccountView, AccountView) {
    let program = addr32(3);
    let user = AccountView {
        key: addr32(7),
        owner: addr32(0),
        is_signer: true,
        is_writable: true,
        data: Vec::new(),
    };
    let (slot_key, _bump) = derive_favorites_address(&user.key, &program).unwrap();
    let slot = AccountView {
        key: slot_key,
        owner: program.clone(),
        is_signer: false,
        is_writable: true,
        data: vec![0u8; Favorites::get_size().unwrap()],
    };
    (program, user, slot)
}

#[test]
fn unpack_rejects_empty_buffer() {
    assert_eq!(
        Instruction::unpack(&[]).unwrap_err(),
        ProcessError::InvalidInstructionData
    );
}

#[test]
fn unpack_rejects_unknown_opcode() {
    assert_eq!(
        Instruction::unpack(&[2]).unwrap_err(),
        ProcessError::InvalidInstructionData
    );
}

#[test]
fn unpack_accepts_initialize() {
    assert!(matches!(
        Instruction::unpack(&[1]).unwrap(),
        Instruction::Initialize
    ));
}

#[test]
fn unpack_rejects_undecodable_write_payload() {
    assert_eq!(
        Instruction::unpack(&[0, 9, 9]).unwrap_err(),
        ProcessError::BorshIo
    );
}

#[test]
fn create_slot_grants_canonical_allocation() {
    let (program, user, _) = setup();
    let (slot_key, bump) = derive_favorites_address(&user.key, &program).unwrap();
    // the slot account as it looks before creation: no data yet
    let mut slot = AccountView {
        key: slot_key,
        owner: addr32(0),
        is_signer: false,
        is_writable: true,
        data: Vec::new(),
    };
    let action = process_instruction(&program, &user, &mut slot, &[1])
        .unwrap()
        .unwrap();
    assert_eq!(action.space, 79);
    assert_eq!(action.space, Favorites::get_size().unwrap());
    assert_eq!(action.bump, bump);
    // creation itself writes no record
    assert!(slot.data.is_empty());
    // the runtime performs the allocation the action asks for
    slot.data = vec![0u8; action.space];
    slot.owner = program.clone();
    assert_eq!(slot.data.len(), 79);
}

#[test]
fn create_slot_rejects_mismatched_address() {
    let (program, user, mut slot) = setup();
    slot.key = addr32(0xEE);
    slot.data = Vec::new();
    assert_eq!(
        process_instruction(&program, &user, &mut slot, &[1]).unwrap_err(),
        ProcessError::IncorrectProgramId
    );
}

#[test]
fn second_create_fails_and_keeps_data() {
    let (program, user, mut slot) = setup();
    // the slot already holds its allocation from the first creation
    slot.data[0] = 0xCD;
    let before = slot.data.clone();
    assert_eq!(
        process_instruction(&program, &user, &mut slot, &[1]).unwrap_err(),
        ProcessError::AccountAlreadyInitialized
    );
    assert_eq!(slot.data, before);
}

#[test]
fn write_then_decode_returns_record() {
    let (program, user, mut slot) = setup();
    let payload = write_payload(vec![Some("alpha"), None, Some("bravo"), None, None]);
    let result = process_instruction(&program, &user, &mut slot, &payload).unwrap();
    assert!(result.is_none());
    assert_eq!(slot.data.len(), 79);
    let (decoded, _used) = decode_prefix(&slot.data).unwrap();
    assert_eq!(
        decoded.data,
        vec![
            Some(b"alpha".to_vec()),
            None,
            Some(b"bravo".to_vec()),
            None,
            None
        ]
    );
}

#[test]
fn write_six_entries_fails_and_keeps_bytes() {
    let (program, user, mut slot) = setup();
    let before = slot.data.clone();
    let payload = write_payload(vec![Some("a"); 6]);
    assert_eq!(
        process_instruction(&program, &user, &mut slot, &payload).unwrap_err(),
        ProcessError::Favorites(FavoritesError::ExceedsMaxLength)
    );
    assert_eq!(slot.data, before);
}

#[test]
fn write_eleven_byte_entry_fails() {
    let (program, user, mut slot) = setup();
    let before = slot.data.clone();
    let payload = write_payload(vec![Some("fine"), Some("elevenchar!"), None]);
    assert_eq!(
        process_instruction(&program, &user, &mut slot, &payload).unwrap_err(),
        ProcessError::Favorites(FavoritesError::ExceedsIndMaxLength)
    );
    assert_eq!(slot.data, before);
}

#[test]
fn write_to_mismatched_address_fails() {
    let (program, user, mut slot) = setup();
    slot.key = addr32(0xEE);
    let before = slot.data.clone();
    let payload = write_payload(vec![Some("alpha")]);
    assert_eq!(
        process_instruction(&program, &user, &mut slot, &payload).unwrap_err(),
        ProcessError::Favorites(FavoritesError::IncorrectFavoritesId)
    );
    assert_eq!(slot.data, before);
}

#[test]
fn write_to_mismatched_address_fails_before_payload_is_encoded() {
    // the address check precedes any look at the record, so even an
    // invalid record reaches the same addressing error
    let (program, user, mut slot) = setup();
    slot.key = addr32(0xEE);
    let before = slot.data.clone();
    let oversized = Favorites { data: vec![Some(b"elevenchar!".to_vec()); 6] };
    assert_eq!(
        process_setfavorites_instruction(&program, &user, &mut slot, oversized).unwrap_err(),
        ProcessError::Favorites(FavoritesError::IncorrectFavoritesId)
    );
    assert_eq!(slot.data, before);
}

#[test]
fn write_without_signer_fails() {
    let (program, mut user, mut slot) = setup();
    user.is_signer = false;
    let before = slot.data.clone();
    let payload = write_payload(vec![Some("alpha")]);
    assert_eq!(
        process_instruction(&program, &user, &mut slot, &payload).unwrap_err(),
        ProcessError::Favorites(FavoritesError::SignerNotFound)
    );
    assert_eq!(slot.data, before);
}

#[test]
fn write_to_readonly_slot_fails() {
    let (program, user, mut slot) = setup();
    slot.is_writable = false;
    let before = slot.data.clone();
    let payload = write_payload(vec![Some("alpha")]);
    assert_eq!(
        process_instruction(&program, &user, &mut slot, &payload).unwrap_err(),
        ProcessError::Immutable
    );
    assert_eq!(slot.data, before);
}

#[test]
fn write_to_foreign_owned_slot_fails() {
    let (program, user, mut slot) = setup();
    slot.owner = addr32(0xCC);
    let before = slot.data.clone();
    let payload = write_payload(vec![Some("alpha")]);
    assert_eq!(
        process_instruction(&program, &user, &mut slot, &payload).unwrap_err(),
        ProcessError::IllegalOwner
    );
    assert_eq!(slot.data, before);
}

#[test]
fn rewrite_overwrites_in_place() {
    let (program, user, mut slot) = setup();
    let first = write_payload(vec![Some("tenletters"), Some("tenletters"), None, None, None]);
    process_instruction(&program, &user, &mut slot, &first).unwrap();
    let second = write_payload(vec![Some("hi")]);
    process_instruction(&program, &user, &mut slot, &second).unwrap();
    assert_eq!(slot.data.len(), 79);
    let (decoded, _used) = decode_prefix(&slot.data).unwrap();
    assert_eq!(decoded.data, vec![Some(b"hi".to_vec())]);
}
