//! The message model: roles, turns, and the reply envelope that the service
//! sends back, in both its buffered and its streamed shape.

use vstd::prelude::*;

verus! {

/// The text of an optional string.
pub open spec fn opt_text(o: Option<String>) -> Option<Seq<char>> {
    match o {
        Some(s) => Some(s@),
        None => None,
    }
}

/// Who speaks in a turn.
#[derive(Clone, Copy, Debug, PartialEq, Eq, Structural)]
pub enum Role {
    Assistant,
    User,
    System,
}

/// The lowercase token that stands for a role on the wire.
pub open spec fn role_token(r: Role) -> Seq<char> {
    match r {
        Role::Assistant => "assistant"@,
        Role::User => "user"@,
        Role::System => "system"@,
    }
}

/// The role whose token is `s`, if any.
pub open spec fn role_of_token(s: Seq<char>) -> Option<Role> {
    if s == role_token(Role::Assistant) {
        Some(Role::Assistant)
    } else if s == role_token(Role::User) {
        Some(Role::User)
    } else if s == role_token(Role::System) {
        Some(Role::System)
    } else {
        None
    }
}

/// Decoding a role's token gives the role back.
pub proof fn lemma_role_token_round_trip(r: Role)
    ensures
        role_of_token(role_token(r)) == Some(r),
{
    reveal_strlit("assistant");
    reveal_strlit("user");
    reveal_strlit("system");
    assert("assistant"@.len() == 9);
    assert("user"@.len() == 4);
    assert("system"@.len() == 6);
}

impl Role {
    /// The role's wire token.
    pub fn token(&self) -> (r: &'static str)
        ensures
            r@ == role_token(*self),
    {
        match self {
            Role::Assistant => "assistant",
            Role::User => "user",
            Role::System => "system",
        }
    }

    /// Reads a wire token; an unknown token is refused.
    pub fn from_token(s: &str) -> (r: Option<Role>)
        ensures
            r == role_of_token(s@),
    {
        let owned = String::from_str(s);
        if owned == String::from_str("assistant") {
            Some(Role::Assistant)
        } else if owned == String::from_str("user") {
            Some(Role::User)
        } else if owned == String::from_str("system") {
            Some(Role::System)
        } else {
            None
        }
    }
}

/// One message of a request: a role and its text.
#[derive(Clone, Debug, PartialEq, Eq)]
pub struct Turn {
    pub role: Role,
    pub content: String,
}

impl View for Turn {
    type V = (Role, Seq<char>);

    open spec fn view(&self) -> (Role, Seq<char>) {
        (self.role, self.content@)
    }
}

/// The view of an optional turn.
pub open spec fn opt_turn(o: Option<Turn>) -> Option<(Role, Seq<char>)> {
    match o {
        Some(t) => Some(t@),
        None => None,
    }
}

/// A complete assistant message, as a buffered reply carries it.
#[derive(Clone, Debug)]
pub struct FullMessage {
    pub role: Role,
    pub content: String,
    pub refusal: Option<String>,
}

/// A fragment of a message, as one streamed event carries it; any field may
/// be absent.
#[derive(Clone, Debug)]
pub struct PartialMessage {
    pub role: Option<Role>,
    pub content: Option<String>,
    pub refusal: Option<String>,
}

/// One candidate reply: a full message when buffered, a delta when streamed.
#[derive(Clone, Debug)]
pub struct Choice {
    pub index: u64,
    pub message: Option<FullMessage>,
    pub delta: Option<PartialMessage>,
    pub finish_reason: Option<String>,
}

/// One decoded reply object of the service.
#[derive(Clone, Debug)]
pub struct ResponseEnvelope {
    pub id: String,
    pub object: String,
    pub created: u64,
    pub model: String,
    pub choices: Vec<Choice>,
    pub system_fingerprint: Option<String>,
}

} // verus!
