//! The decisions around fetching a trace from a node: the transaction hash
//! that is asked for, and what a JSON-RPC error reply means.
use vstd::prelude::*;
use vstd::string::*;

use crate::text::{contains_text, decimal, decimal_string, lower_of, lowercase, starts_with_text};

verus! {

/// An error object of a JSON-RPC reply.
#[derive(Debug, Clone)]
pub struct JsonRpcError {
    pub code: i64,
    pub message: String,
}

/// Why a trace could not be fetched.
#[derive(Debug)]
pub enum RpcError {
    /// The request itself failed.
    RequestFailed(String),
    /// The reply could not be used.
    InvalidResponse(String),
    /// The node does not know the transaction.
    TransactionNotFound(String),
    /// The node does not offer the tracer.
    TracerNotSupported,
}

/// The code a node answers with when the transaction is unknown (among other
/// failures).
pub const SERVER_ERROR_CODE: i64 = -32000;

/// The code a node answers with when the tracing method is missing.
pub const METHOD_NOT_FOUND_CODE: i64 = -32601;

/// `s` begins with `0x`.
pub open spec fn has_hex_prefix(s: Seq<char>) -> bool {
    s.len() >= 2 && s.take(2) == "0x"@
}

/// A transaction hash with its `0x` prefix, added where it is missing.
pub fn normalize_tx_hash(tx_hash: &str) -> (r: String)
    ensures
        r@ == if has_hex_prefix(tx_hash@) {
            tx_hash@
        } else {
            "0x"@ + tx_hash@
        },
{
    proof {
        reveal_strlit("0x");
    }
    if starts_with_text(tx_hash, "0x") {
        String::from_str(tx_hash)
    } else {
        let mut s = String::from_str("0x");
        s.append(tx_hash);
        s
    }
}

/// The decimal text of a signed integer.
pub open spec fn signed_decimal(i: int) -> Seq<char> {
    if i < 0 {
        seq!['-'] + decimal((-i) as nat)
    } else {
        decimal(i as nat)
    }
}

fn signed_decimal_string(i: i64) -> (r: String)
    ensures
        r@ == signed_decimal(i as int),
{
    proof {
        reveal_strlit("-");
    }
    if i < 0 {
        let magnitude: u64 = (0i128 - i as i128) as u64;
        let mut s = String::from_str("-");
        let digits = decimal_string(magnitude);
        s.append(digits.as_str());
        s
    } else {
        decimal_string(i as u64)
    }
}

/// `needle` occurs in `s`.
pub open spec fn occurs_in(s: Seq<char>, needle: Seq<char>) -> bool {
    exists|k: int|
        0 <= k && k + needle.len() <= s.len() && #[trigger] s.subrange(k, k + needle.len()) == needle
}

/// `r` is what a JSON-RPC error means, given its message in lower case: a
/// server error that mentions "not found" is an unknown transaction, another
/// server error an invalid reply with the message; a missing method means the
/// tracer is not offered; any other code is an invalid reply with the code
/// and the message.
pub open spec fn maps_rpc_error(error: JsonRpcError, lowered: Seq<char>, tx_hash: Seq<char>, r: RpcError) -> bool {
    match r {
        RpcError::TransactionNotFound(h) => error.code == SERVER_ERROR_CODE && occurs_in(
            lowered,
            "not found"@,
        ) && h@ == tx_hash,
        RpcError::InvalidResponse(m) => (error.code == SERVER_ERROR_CODE && !occurs_in(
            lowered,
            "not found"@,
        ) && m@ == error.message@) || (error.code != SERVER_ERROR_CODE && error.code
            != METHOD_NOT_FOUND_CODE && m@ == signed_decimal(error.code as int) + ": "@
            + error.message@),
        RpcError::TracerNotSupported => error.code == METHOD_NOT_FOUND_CODE,
        RpcError::RequestFailed(_) => false,
    }
}

/// Maps a JSON-RPC error, whose message reads `lowered` in lower case: a
/// server error that mentions "not found" is an unknown transaction, another
/// server error an invalid reply with the message; a missing method means the
/// tracer is not offered; any other code is an invalid reply with the code
/// and the message.
pub fn rpc_error_from_lowered(error: JsonRpcError, lowered: &str, tx_hash: &str) -> (r: RpcError)
    ensures
        maps_rpc_error(error, lowered@, tx_hash@, r),
{
    if error.code == SERVER_ERROR_CODE {
        if contains_text(lowered, "not found") {
            RpcError::TransactionNotFound(String::from_str(tx_hash))
        } else {
            RpcError::InvalidResponse(error.message)
        }
    } else if error.code == METHOD_NOT_FOUND_CODE {
        RpcError::TracerNotSupported
    } else {
        let mut m = signed_decimal_string(error.code);
        m.append(": ");
        m.append(error.message.as_str());
        RpcError::InvalidResponse(m)
    }
}

/// Maps a JSON-RPC error to the library's error, reading its message in any
/// letter case.
pub fn map_rpc_error(error: JsonRpcError, tx_hash: &str) -> (r: RpcError)
    ensures
        maps_rpc_error(error, lower_of(error.message@), tx_hash@, r),
{
    let lowered = lowercase(error.message.as_str());
    rpc_error_from_lowered(error, lowered.as_str(), tx_hash)
}

/// What a decoded JSON-RPC reply means: its error, mapped as `map_rpc_error`
/// does; else an invalid reply when it carries no result; else success.
pub fn check_rpc_reply(error: Option<JsonRpcError>, has_result: bool, tx_hash: &str) -> (r: Result<
    (),
    RpcError,
>)
    ensures
        match error {
            Some(e) => match r {
                Err(m) => maps_rpc_error(e, lower_of(e.message@), tx_hash@, m),
                Ok(_) => false,
            },
            None => match r {
                Ok(_) => has_result,
                Err(RpcError::InvalidResponse(m)) => !has_result && m@ == "Missing result field"@,
                Err(_) => false,
            },
        },
{
    match error {
        Some(e) => Err(map_rpc_error(e, tx_hash)),
        None => if has_result {
            Ok(())
        } else {
            Err(RpcError::InvalidResponse(String::from_str("Missing result field")))
        },
    }
}

} // verus!
