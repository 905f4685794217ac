use solana_program::account_info::AccountInfo;
use solana_program::program_error::ProgramError;
use solana_program::pubkey::Pubkey;
use string_contract::entry::process_instruction;

#[test]
fn valid_instruction_succeeds() {
    let program_id = Pubkey::default();
    let accounts: Vec<AccountInfo> = Vec::new();
    let bytes = [
        0x05u8, 0x03, 0, 0, 0, b'A', b'l', b'i', 0x03, 0, 0, 0, b'K', b'i', b'm',
    ];
    assert_eq!(process_instruction(&program_id, &accounts, &bytes), Ok(()));
}

#[test]
fn overlong_declared_name_fails() {
    let program_id = Pubkey::default();
    let accounts: Vec<AccountInfo> = Vec::new();
    let bytes = [0x01u8, 0xFF, 0, 0, 0];
    assert_eq!(
        process_instruction(&program_id, &accounts, &bytes),
        Err(ProgramError::InvalidInstructionData)
    );
}

#[test]
fn empty_buffer_fails() {
    let program_id = Pubkey::default();
    let accounts: Vec<AccountInfo> = Vec::new();
    assert_eq!(
        process_instruction(&program_id, &accounts, &[]),
        Err(ProgramError::InvalidInstructionData)
    );
}

#[test]
fn invalid_utf8_fails() {
    let program_id = Pubkey::default();
    let accounts: Vec<AccountInfo> = Vec::new();
    let bytes = [0x01u8, 0x02, 0, 0, 0, 0xFF, 0xFE, 0, 0, 0, 0];
    assert_eq!(
        process_instruction(&program_id, &accounts, &bytes),
        Err(ProgramError::InvalidInstructionData)
    );
}
