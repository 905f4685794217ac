//! Host-invoked entrypoint: decode the untrusted instruction bytes and
//! either acknowledge the payload or reject the call.

use crate::codec::{decode, decode_spec, StringData};
use solana_program::account_info::AccountInfo;
use solana_program::program_error::ProgramError;
use solana_program::pubkey::Pubkey;
use vstd::prelude::*;

verus! {

/// The identity of the program being invoked, supplied by the host runtime
/// and carried through unread.
#[verifier::external_type_specification]
#[verifier::external_body]
pub struct ExPubkey(Pubkey);

/// An account handle supplied by the host runtime for the call, accepted and
/// carried through unread.
#[verifier::external_type_specification]
#[verifier::external_body]
pub struct ExAccountInfo<'a>(AccountInfo<'a>);

/// The host runtime's error enumeration; the entrypoint produces only its
/// `InvalidInstructionData` variant.
#[verifier::external_type_specification]
pub struct ExProgramError(ProgramError);

/// Relies on `solana_program::log::sol_log`: prints one message to the
/// program log and computes nothing.
#[verifier::external_body]
fn log(message: &str) {
    solana_program::log::sol_log(message);
}

/// Relies on std's `format!` over the derived `Debug` form of `StringData`:
/// the log line that records the decoded payload's contents.
#[verifier::external_body]
fn payload_text(d: &StringData) -> String {
    format!("String data sent to the contract is {:?}", d)
}

/// The single function the host runtime invokes to deliver a call: decode
/// `instruction_data`; on success, log the identity of the call and the
/// decoded payload, then succeed; on any decode failure, reject the call
/// with `InvalidInstructionData` and do nothing else. `program_id` and
/// `accounts` belong to the call contract but are not read.
pub fn process_instruction(
    program_id: &Pubkey,
    accounts: &[AccountInfo],
    instruction_data: &[u8],
) -> (r: Result<(), ProgramError>)
    ensures
        r is Ok <==> decode_spec(instruction_data@) is Some,
        r is Err ==> r == Err::<(), ProgramError>(ProgramError::InvalidInstructionData),
{
    match decode(instruction_data) {
        Ok(d) => {
            log("Hello World String program entrypoint");
            let text = payload_text(&d);
            log(text.as_str());
            Ok(())
        },
        Err(_) => Err(ProgramError::InvalidInstructionData),
    }
}

} // verus!
