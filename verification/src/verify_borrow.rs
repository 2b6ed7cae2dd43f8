//! On-chain borrow verification.
//!
//! The verification endpoint asks a read-only contract method whether an
//! address currently holds an open borrow position. The chain call itself
//! is I/O made by the surrounding application; this module holds the
//! decisions around it. A call reporting the zero sentinel means no debt
//! and yields a descriptive error with no completion written; a nonzero
//! report asks for exactly one completion record for the fixed task; a
//! failed call or a failed write surfaces the underlying error text.

use vstd::prelude::*;
use crate::errors::{get_error, ErrorResponse, ERROR_STATUS};

verus! {

/// The identifier of the quest task completed by a verified borrow.
pub const ZKLEND_TASK_ID: u32 = 24;

/// A field element of the chain, held as its canonical byte string
/// (big-endian, as the provider hands it out).
pub struct Felt {
    pub bytes: Vec<u8>,
}

/// The zero sentinel: every byte of the element is zero.
pub open spec fn felt_zero(f: Felt) -> bool {
    forall|i: int| 0 <= i < f.bytes@.len() ==> f.bytes@[i] == 0
}

/// Whether a field element is the zero sentinel.
pub fn felt_is_zero(f: &Felt) -> (r: bool)
    ensures
        r == felt_zero(*f),
{
    let mut i: usize = 0;
    while i < f.bytes.len()
        invariant
            0 <= i <= f.bytes@.len(),
            forall|j: int| 0 <= j < i ==> f.bytes@[j] == 0,
        decreases f.bytes@.len() - i,
    {
        if f.bytes[i] != 0 {
            return false;
        }
        i = i + 1;
    }
    true
}

/// The completion record write that a verified borrow asks for.
pub struct CompletionAction {
    pub address: Felt,
    pub task_id: u32,
}

/// Decide what follows from the contract call's outcome.
///
/// A failed call surfaces its error text. A first result word equal to the
/// zero sentinel means the address holds no debt: the descriptive error,
/// and no completion is asked for. A nonzero first word asks for exactly
/// one completion record, for this address and the fixed task.
pub fn verify_borrow_decision(addr: Felt, call_result: Result<Vec<Felt>, String>) -> (r: Result<
    CompletionAction,
    ErrorResponse,
>)
    requires
        call_result matches Ok(words) ==> words@.len() > 0,
    ensures
        call_result matches Err(m) ==> (r matches Err(e) && e.status == ERROR_STATUS && e.message@
            == m@),
        (call_result matches Ok(words) && felt_zero(words@[0])) ==> (r matches Err(e) && e.status
            == ERROR_STATUS && e.message@ == "You didn't borrow any liquidity."@),
        (call_result matches Ok(words) && !felt_zero(words@[0])) ==> (r matches Ok(a) && a.address
            == addr && a.task_id == ZKLEND_TASK_ID),
{
    match call_result {
        Result::Ok(words) => {
            if felt_is_zero(&words[0]) {
                Err(get_error("You didn't borrow any liquidity.".to_owned()))
            } else {
                Ok(CompletionAction { address: addr, task_id: ZKLEND_TASK_ID })
            }
        },
        Result::Err(m) => Err(get_error(m)),
    }
}

/// The acknowledgment returned on a verified borrow.
pub struct VerifyResponse {
    pub res: bool,
}

/// Map the persistence outcome of the completion write to the caller's
/// response: the `true` acknowledgment on success, the underlying error
/// text otherwise.
pub fn completion_response(upsert: Result<(), String>) -> (r: Result<VerifyResponse, ErrorResponse>)
    ensures
        upsert is Ok ==> (r matches Ok(v) && v.res == true),
        upsert matches Err(m) ==> (r matches Err(e) && e.status == ERROR_STATUS && e.message@
            == m@),
{
    match upsert {
        Result::Ok(u) => Ok(VerifyResponse { res: true }),
        Result::Err(m) => Err(get_error(m)),
    }
}

} // verus!
