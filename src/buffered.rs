//! The buffered reply reader: the whole reply is one object, and the text is
//! the content of its first choice's message.

use vstd::prelude::*;
use crate::model::ResponseEnvelope;

verus! {

/// Why a buffered reply gave no text.
#[derive(Clone, Copy, Debug, PartialEq, Eq, Structural)]
pub enum ReplyError {
    /// The body was not a reply object.
    Decode,
    /// The reply held no choice.
    EmptyChoices,
    /// The first choice held no message.
    MissingMessage,
}

/// What a buffered reply object gives: the content of the first choice's
/// message, or the reason there is none.
pub open spec fn reply_of(env: ResponseEnvelope) -> Result<Seq<char>, ReplyError> {
    if env.choices@.len() == 0 {
        Err(ReplyError::EmptyChoices)
    } else {
        match env.choices@[0].message {
            Some(m) => Ok(m.content@),
            None => Err(ReplyError::MissingMessage),
        }
    }
}

/// The text of an outcome that carries a string.
pub open spec fn result_text<E>(r: Result<String, E>) -> Result<Seq<char>, E> {
    match r {
        Ok(s) => Ok(s@),
        Err(e) => Err(e),
    }
}

/// The content of the first choice's message, verbatim.
pub fn message_content(env: &ResponseEnvelope) -> (r: Result<String, ReplyError>)
    ensures
        result_text(r) == reply_of(*env),
{
    if env.choices.len() == 0 {
        return Err(ReplyError::EmptyChoices);
    }
    match &env.choices[0].message {
        Some(m) => Ok(m.content.clone()),
        None => Err(ReplyError::MissingMessage),
    }
}

/// Reads a buffered reply: `None` stands for a body that could not be decoded
/// as a reply object.
pub fn read_buffered(decoded: Option<ResponseEnvelope>) -> (r: Result<String, ReplyError>)
    ensures
        decoded is None ==> r == Err::<String, ReplyError>(ReplyError::Decode),
        decoded is Some ==> result_text(r) == reply_of(decoded->Some_0),
{
    match decoded {
        Some(env) => message_content(&env),
        None => Err(ReplyError::Decode),
    }
}

} // verus!
