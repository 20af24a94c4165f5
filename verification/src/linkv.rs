//! The typed protocol of the external linearizable key-value service
//! `lin-kv`, and the interpretation of its replies.
use vstd::prelude::*;

use crate::error::Error;

verus! {

/// A request to the linearizable store.
pub enum LinKvRequest<K, V> {
    Read { key: K },
    Write { key: K, value: V },
    Cas { key: K, params: CasParams<V> },
}

/// The operands of a compare-and-swap.
pub struct CasParams<V> {
    pub from: V,
    pub to: V,
    pub create_if_not_exists: bool,
}

/// A reply from the linearizable store.
pub enum LinKvResponse<V> {
    ReadOk { value: V },
    WriteOk,
    CasOk,
    Error { code: LinKvErrorCode, text: String },
}

/// The error codes the store reports that this client consumes.
#[derive(Clone, Copy, PartialEq, Eq, Structural, Debug)]
pub enum LinKvErrorCode {
    KeyDoesNotExist,
    PreconditionFailed,
}

impl LinKvErrorCode {
    /// The numeric code on the wire.
    pub fn code(&self) -> (r: u32)
        ensures
            *self == LinKvErrorCode::KeyDoesNotExist ==> r == 20,
            *self == LinKvErrorCode::PreconditionFailed ==> r == 22,
    {
        match self {
            LinKvErrorCode::KeyDoesNotExist => 20,
            LinKvErrorCode::PreconditionFailed => 22,
        }
    }

    /// The code a wire number denotes, if this client consumes it.
    pub fn from_code(c: u32) -> (r: Option<LinKvErrorCode>)
        ensures
            c == 20 ==> r == Some(LinKvErrorCode::KeyDoesNotExist),
            c == 22 ==> r == Some(LinKvErrorCode::PreconditionFailed),
            c != 20 && c != 22 ==> r is None,
    {
        if c == 20 {
            Some(LinKvErrorCode::KeyDoesNotExist)
        } else if c == 22 {
            Some(LinKvErrorCode::PreconditionFailed)
        } else {
            None
        }
    }
}

/// Interprets the reply to a `read`: the value, *absent* for a missing key,
/// and a protocol error for anything else.
pub fn interpret_read<V>(resp: LinKvResponse<V>) -> (r: Result<Option<V>, Error>)
    ensures
        (match resp {
            LinKvResponse::ReadOk { value } => r == Ok::<Option<V>, Error>(Some(value)),
            LinKvResponse::Error { code, text } => {
                &&& code == LinKvErrorCode::KeyDoesNotExist ==> r == Ok::<Option<V>, Error>(None)
                &&& code != LinKvErrorCode::KeyDoesNotExist ==> r == Err::<Option<V>, Error>(
                    Error::UnexpectedResponse,
                )
            },
            _ => r == Err::<Option<V>, Error>(Error::UnexpectedResponse),
        }),
{
    match resp {
        LinKvResponse::ReadOk { value } => Ok(Some(value)),
        LinKvResponse::Error { code, text: _ } => {
            match code {
                LinKvErrorCode::KeyDoesNotExist => Ok(None),
                LinKvErrorCode::PreconditionFailed => Err(Error::UnexpectedResponse),
            }
        },
        _ => Err(Error::UnexpectedResponse),
    }
}

/// Interprets the reply to a `write`: success on `write_ok`, and a protocol
/// error for anything else.
pub fn interpret_write<V>(resp: LinKvResponse<V>) -> (r: Result<(), Error>)
    ensures
        (match resp {
            LinKvResponse::WriteOk => r == Ok::<(), Error>(()),
            _ => r == Err::<(), Error>(Error::UnexpectedResponse),
        }),
{
    match resp {
        LinKvResponse::WriteOk => Ok(()),
        _ => Err(Error::UnexpectedResponse),
    }
}

/// Interprets the reply to a `cas`: true on `cas_ok`, false on a failed
/// precondition, and a protocol error for anything else.
pub fn interpret_cas<V>(resp: LinKvResponse<V>) -> (r: Result<bool, Error>)
    ensures
        (match resp {
            LinKvResponse::CasOk => r == Ok::<bool, Error>(true),
            LinKvResponse::Error { code, text } => {
                &&& code == LinKvErrorCode::PreconditionFailed ==> r == Ok::<bool, Error>(false)
                &&& code != LinKvErrorCode::PreconditionFailed ==> r == Err::<bool, Error>(
                    Error::UnexpectedResponse,
                )
            },
            _ => r == Err::<bool, Error>(Error::UnexpectedResponse),
        }),
{
    match resp {
        LinKvResponse::CasOk => Ok(true),
        LinKvResponse::Error { code, text: _ } => {
            match code {
                LinKvErrorCode::PreconditionFailed => Ok(false),
                LinKvErrorCode::KeyDoesNotExist => Err(Error::UnexpectedResponse),
            }
        },
        _ => Err(Error::UnexpectedResponse),
    }
}

} // verus!
