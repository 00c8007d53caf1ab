//! Errors of a session, and how one read on the control channel becomes a
//! message or an error.
use vstd::prelude::*;
use crate::message::{decode_frame, FramingError, Message, MessageCreationError, MessageView};

verus! {

/// `std::io::Error`, carried unopened inside [`GenericError::IO`].
#[verifier::external_type_specification]
#[verifier::external_body]
pub struct ExIoError(std::io::Error);

/// What ends or disturbs a session: a transport failure, a message that
/// does not decode or does not fit the protocol, or the peer closing the
/// control channel.
pub enum GenericError {
    IO(std::io::Error),
    Logic(MessageCreationError),
    Closed,
}

/// `r` is what a read gives when the bytes it delivered decode to `d`: the
/// same message, or a logic error with the text of the decoding fault.
pub open spec fn read_as(r: Result<Message, GenericError>, d: Result<MessageView, FramingError>) -> bool {
    match (r, d) {
        (Ok(m), Ok(v)) => m@ == v,
        (Err(GenericError::Logic(e)), Err(k)) => e@ == k.text(),
        _ => false,
    }
}

impl GenericError {
    /// Wraps the error of an I/O result.
    pub fn transform_io<T>(result: Result<T, std::io::Error>) -> (r: Result<T, GenericError>)
        ensures
            match result {
                Ok(v) => r == Ok::<T, GenericError>(v),
                Err(e) => r == Err::<T, GenericError>(GenericError::IO(e)),
            },
    {
        match result {
            Ok(v) => Ok(v),
            Err(e) => Err(GenericError::IO(e)),
        }
    }

    /// Wraps the error of a decoding result.
    pub fn transform_logic<T>(result: Result<T, MessageCreationError>) -> (r: Result<
        T,
        GenericError,
    >)
        ensures
            match result {
                Ok(v) => r == Ok::<T, GenericError>(v),
                Err(e) => r == Err::<T, GenericError>(GenericError::Logic(e)),
            },
    {
        match result {
            Ok(v) => Ok(v),
            Err(e) => Err(GenericError::Logic(e)),
        }
    }
}

/// The outcome of one read of the control channel into `buffer`: the read's
/// own error, `Closed` when it delivered no byte, else what the delivered
/// bytes decode to.
pub fn message_from_read(read: Result<usize, std::io::Error>, buffer: &[u8]) -> (r: Result<
    Message,
    GenericError,
>)
    requires
        read matches Ok(n) ==> n <= buffer@.len(),
    ensures
        match read {
            Err(e) => r == Err::<Message, GenericError>(GenericError::IO(e)),
            Ok(n) => if n == 0 {
                r == Err::<Message, GenericError>(GenericError::Closed)
            } else {
                read_as(r, decode_frame(buffer@.take(n as int)))
            },
        },
{
    match read {
        Err(e) => Err(GenericError::IO(e)),
        Ok(n) => {
            if n == 0 {
                Err(GenericError::Closed)
            } else {
                GenericError::transform_logic(Message::new(buffer, n))
            }
        },
    }
}

} // verus!
