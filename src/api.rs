//! What the request boundary makes of the ledger's outcomes and of the bot
//! check's answer.

use vstd::prelude::*;
use crate::model::LedgerError;

verus! {

/// The outcome of the bot check from the status of its answer and the
/// `success` field of its body (`None` where the body could not be read):
/// any status but 200, or an unreadable body, means the check could not be
/// reached; a `false` means the token was rejected.
pub open spec fn verification_outcome_of(status: u16, success: Option<bool>) -> Result<
    (),
    LedgerError,
> {
    if status != 200 || success is None {
        Err(LedgerError::VerificationUnreachable)
    } else if success == Some(false) {
        Err(LedgerError::VerificationRejected)
    } else {
        Ok(())
    }
}

/// Classifies the bot check's answer.
pub fn verification_outcome(status: u16, success: Option<bool>) -> (r: Result<(), LedgerError>)
    ensures
        r == verification_outcome_of(status, success),
{
    if status != 200 {
        return Err(LedgerError::VerificationUnreachable);
    }
    match success {
        None => Err(LedgerError::VerificationUnreachable),
        Some(false) => Err(LedgerError::VerificationRejected),
        Some(true) => Ok(()),
    }
}

/// The form fields of the bot check's request: the client's token as
/// `response`, and the secret.
pub fn verification_form(token: &str, secret: &str) -> (r: Vec<(String, String)>)
    ensures
        r@.len() == 2,
        r@[0].0@ == "response"@,
        r@[0].1@ == token@,
        r@[1].0@ == "secret"@,
        r@[1].1@ == secret@,
{
    vec![
        (String::from_str("response"), String::from_str(token)),
        (String::from_str("secret"), String::from_str(secret)),
    ]
}

/// The status code of an error: 422 for bad input, 403 for a rejected bot
/// check, 500 for anything the client cannot mend.
pub open spec fn status_of(e: LedgerError) -> u16 {
    match e {
        LedgerError::InvalidCountry => 422,
        LedgerError::OutOfRange => 422,
        LedgerError::VerificationRejected => 403,
        LedgerError::VerificationUnreachable => 500,
        LedgerError::StoreUnavailable => 500,
    }
}

/// The status code of an error.
pub fn error_status(e: LedgerError) -> (r: u16)
    ensures
        r == status_of(e),
{
    match e {
        LedgerError::InvalidCountry => 422,
        LedgerError::OutOfRange => 422,
        LedgerError::VerificationRejected => 403,
        LedgerError::VerificationUnreachable => 500,
        LedgerError::StoreUnavailable => 500,
    }
}

/// The message shown to the client: a reason for bad input and for a
/// rejected bot check, nothing for failures of the infrastructure.
pub fn error_message(e: LedgerError) -> (r: String)
    ensures
        e == LedgerError::InvalidCountry ==> r@ == "country is invalid"@,
        e == LedgerError::OutOfRange ==> r@ == "hours must be >= 0 and <= 10"@,
        e == LedgerError::VerificationRejected ==> r@ == "captcha failed"@,
        status_of(e) == 500 ==> r@ == Seq::<char>::empty(),
{
    match e {
        LedgerError::InvalidCountry => String::from_str("country is invalid"),
        LedgerError::OutOfRange => String::from_str("hours must be >= 0 and <= 10"),
        LedgerError::VerificationRejected => String::from_str("captcha failed"),
        _ => String::new(),
    }
}

} // verus!
