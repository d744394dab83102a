//! The request: the ordered turns, the model, the streaming flag, and the
//! JSON text that carries them to the service.

use vstd::prelude::*;
use crate::json::{json_literal, json_string_value, quote_json, unquote_json};
use crate::model::{opt_turn, role_token, Role, Turn};

verus! {

/// The model that every request asks for.
pub const MODEL_ID: &'static str = "gpt-4o-mini";

/// Where chat completions are requested.
pub const CHAT_COMPLETIONS_URL: &'static str = "https://api.openai.com/v1/chat/completions";

/// Opens a turn object, up to its role token.
pub open spec fn turn_open() -> Seq<char> {
    "{\"role\":\""@
}

/// Stands between a turn's role token and its content literal.
pub open spec fn turn_mid() -> Seq<char> {
    "\",\"content\":"@
}

/// The JSON object of one turn: `{"role":"<token>","content":<literal>}`.
pub open spec fn turn_text(t: (Role, Seq<char>)) -> Seq<char> {
    turn_open() + role_token(t.0) + turn_mid() + json_literal(t.1) + "}"@
}

/// Whether `s` begins with `p`.
pub open spec fn begins_with(s: Seq<char>, p: Seq<char>) -> bool {
    p.len() <= s.len() && s.subrange(0, p.len() as int) == p
}

/// The role whose token, followed by the text between role and content,
/// opens `body`.
pub open spec fn role_at_head(body: Seq<char>) -> Option<Role> {
    if begins_with(body, role_token(Role::Assistant) + turn_mid()) {
        Some(Role::Assistant)
    } else if begins_with(body, role_token(Role::User) + turn_mid()) {
        Some(Role::User)
    } else if begins_with(body, role_token(Role::System) + turn_mid()) {
        Some(Role::System)
    } else {
        None
    }
}

/// The turn read back from the layout that `turn_text` writes, if `s` has it.
pub open spec fn turn_from_text(s: Seq<char>) -> Option<(Role, Seq<char>)> {
    if begins_with(s, turn_open()) && s.len() > turn_open().len() && s.last() == '}' {
        let body = s.subrange(turn_open().len() as int, s.len() - 1);
        match role_at_head(body) {
            Some(r) => {
                let k = (role_token(r) + turn_mid()).len();
                match json_string_value(body.subrange(k as int, body.len() as int)) {
                    Some(c) => Some((r, c)),
                    None => None,
                }
            },
            None => None,
        }
    } else {
        None
    }
}

/// Whether `lit` stands in `s` from position `at` on.
fn has_at(s: &str, at: usize, lit: &str) -> (r: bool)
    requires
        at <= s@.len(),
    ensures
        r == (at + lit@.len() <= s@.len() && s@.subrange(at as int, at + lit@.len()) == lit@),
{
    let n = s.unicode_len();
    let k = lit.unicode_len();
    if k > n - at {
        return false;
    }
    let piece = s.substring_char(at, at + k);
    String::from_str(piece) == String::from_str(lit)
}

/// Writes one turn as a JSON object.
pub fn encode_turn(t: &Turn) -> (r: String)
    ensures
        r@ == turn_text(t@),
{
    let mut out = String::from_str("{\"role\":\"");
    out.append(t.role.token());
    out.append("\",\"content\":");
    let lit = quote_json(t.content.as_str());
    out.append(lit.as_str());
    out.append("}");
    out
}

/// A body that opens with a role's token and the text after it is read as
/// that role.
pub proof fn lemma_role_at_head(r: Role, rest: Seq<char>)
    ensures
        role_at_head(role_token(r) + turn_mid() + rest) == Some(r),
{
    reveal_strlit("assistant");
    reveal_strlit("user");
    reveal_strlit("system");
    reveal_strlit("\",\"content\":");
    let body = role_token(r) + turn_mid() + rest;
    let head = role_token(r) + turn_mid();
    assert(body.subrange(0, head.len() as int) == head);
    assert(body[0] == role_token(r)[0]);
    match r {
        Role::Assistant => {},
        Role::User => {
            let a = role_token(Role::Assistant) + turn_mid();
            assert(body[0] != a[0]);
            if begins_with(body, a) {
                assert(body.subrange(0, a.len() as int)[0] == a[0]);
            }
        },
        Role::System => {
            let a = role_token(Role::Assistant) + turn_mid();
            let u = role_token(Role::User) + turn_mid();
            assert(body[0] != a[0]);
            assert(body[0] != u[0]);
            if begins_with(body, a) {
                assert(body.subrange(0, a.len() as int)[0] == a[0]);
            }
            if begins_with(body, u) {
                assert(body.subrange(0, u.len() as int)[0] == u[0]);
            }
        },
    }
}

/// The text of a turn has the layout that `turn_from_text` reads.
pub proof fn lemma_turn_text_shape(t: (Role, Seq<char>))
    ensures
        begins_with(turn_text(t), turn_open()),
        turn_text(t).len() > turn_open().len(),
        turn_text(t).last() == '}',
        turn_text(t).subrange(turn_open().len() as int, turn_text(t).len() - 1) == role_token(t.0)
            + turn_mid() + json_literal(t.1),
        role_at_head(role_token(t.0) + turn_mid() + json_literal(t.1)) == Some(t.0),
        (role_token(t.0) + turn_mid() + json_literal(t.1)).subrange(
            (role_token(t.0) + turn_mid()).len() as int,
            (role_token(t.0) + turn_mid() + json_literal(t.1)).len() as int,
        ) == json_literal(t.1),
{
    reveal_strlit("}");
    let s = turn_text(t);
    let body = role_token(t.0) + turn_mid() + json_literal(t.1);
    assert(s == turn_open() + body + "}"@);
    assert(s.subrange(0, turn_open().len() as int) == turn_open());
    assert(s.subrange(turn_open().len() as int, s.len() - 1) == body);
    assert(s.last() == "}"@[0]);
    lemma_role_at_head(t.0, json_literal(t.1));
    assert(body.subrange((role_token(t.0) + turn_mid()).len() as int, body.len() as int)
        == json_literal(t.1));
}

/// Which role, followed by the text between role and content, opens `body`.
fn head_role(body: &str) -> (r: Option<Role>)
    ensures
        r == role_at_head(body@),
{
    let mid = "\",\"content\":";
    let roles: [Role; 3] = [Role::Assistant, Role::User, Role::System];
    let mut i: usize = 0;
    while i < 3
        invariant
            i <= 3,
            roles@ == seq![Role::Assistant, Role::User, Role::System],
            mid@ == turn_mid(),
            forall|j: int| 0 <= j < i ==> !begins_with(body@, role_token(roles@[j]) + turn_mid()),
        decreases 3 - i,
    {
        let role = roles[i];
        let token = role.token();
        let k = token.unicode_len();
        let at_start = has_at(body, 0, token);
        let found = at_start && has_at(body, k, mid);
        let ghost head = role_token(role) + turn_mid();
        if found {
            proof {
                let ml = turn_mid().len();
                assert(body@.subrange(0, head.len() as int) =~= head) by {
                    assert forall|j: int| 0 <= j < head.len() implies body@.subrange(
                        0,
                        head.len() as int,
                    )[j] == head[j] by {
                        if j < k {
                            assert(body@.subrange(0, k as int)[j] == token@[j]);
                        } else {
                            assert(body@.subrange(k as int, k + ml)[j - k] == turn_mid()[j - k]);
                        }
                    }
                }
            }
            return Some(role);
        } else {
            proof {
                if begins_with(body@, head) {
                    let hl = head.len() as int;
                    assert forall|j: int| 0 <= j < hl implies body@[j] == head[j] by {
                        assert(body@.subrange(0, hl)[j] == head[j]);
                    }
                    assert(body@.subrange(0, k as int) =~= token@);
                    assert forall|j: int| 0 <= j < hl - k implies body@.subrange(k as int, hl)[j]
                        == turn_mid()[j] by {
                        assert(body@[k + j] == head[k + j]);
                    }
                    assert(body@.subrange(k as int, hl) =~= turn_mid());
                }
            }
        }
        i = i + 1;
    }
    None
}

/// Reads a turn back from the layout that `encode_turn` writes. The text of
/// any turn reads back as that very turn.
pub fn decode_turn(text: &str) -> (r: Option<Turn>)
    ensures
        opt_turn(r) == turn_from_text(text@),
        forall|t: (Role, Seq<char>)| #[trigger] turn_text(t) == text@ ==> opt_turn(r) == Some(t),
{
    let open = "{\"role\":\"";
    let n = text.unicode_len();
    let o = open.unicode_len();
    if !(has_at(text, 0, open) && n > o && text.get_char(n - 1) == '}') {
        proof {
            assert forall|t: (Role, Seq<char>)| #[trigger] turn_text(t) == text@ implies false by {
                lemma_turn_text_shape(t);
            }
        }
        return None;
    }
    let body = text.substring_char(o, n - 1);
    let bl = body.unicode_len();
    match head_role(body) {
        None => {
            proof {
                assert forall|t: (Role, Seq<char>)| #[trigger] turn_text(t) == text@ implies false by {
                    lemma_turn_text_shape(t);
                }
            }
            None
        },
        Some(role) => {
            let k = role.token().unicode_len() + "\",\"content\":".unicode_len();
            let lit = body.substring_char(k, bl);
            let content = unquote_json(lit);
            proof {
                assert forall|t: (Role, Seq<char>)| #[trigger] turn_text(t) == text@ implies t.0
                    == role && lit@ == json_literal(t.1) by {
                    lemma_turn_text_shape(t);
                }
            }
            match content {
                Some(c) => Some(Turn { role, content: c }),
                None => None,
            }
        },
    }
}

/// A chat request: the model, the turns in conversation order, and whether
/// the reply is to be streamed.
#[derive(Clone, Debug)]
pub struct ChatRequest {
    pub model: String,
    pub messages: Vec<Turn>,
    pub stream: bool,
}

/// The views of a run of turns.
pub open spec fn turn_views(v: Seq<Turn>) -> Seq<(Role, Seq<char>)> {
    v.map_values(|t: Turn| t@)
}

/// The turns of a request: the system instruction first where one is given,
/// then the prompt.
pub open spec fn request_turns(prompt: Seq<char>, system_prompt: Option<Seq<char>>) -> Seq<
    (Role, Seq<char>),
> {
    match system_prompt {
        Some(s) => seq![(Role::System, s), (Role::User, prompt)],
        None => seq![(Role::User, prompt)],
    }
}

/// At most one system turn, and only first; exactly one user turn, last.
pub open spec fn turns_well_ordered(ts: Seq<(Role, Seq<char>)>) -> bool {
    &&& ts.len() >= 1
    &&& ts.last().0 == Role::User
    &&& forall|i: int| 0 <= i < ts.len() - 1 ==> ts[i].0 == Role::System && i == 0
}

/// The turn objects of `ts`, separated by commas.
pub open spec fn joined_turns(ts: Seq<(Role, Seq<char>)>) -> Seq<char>
    decreases ts.len(),
{
    if ts.len() == 0 {
        Seq::empty()
    } else if ts.len() == 1 {
        turn_text(ts[0])
    } else {
        joined_turns(ts.drop_last()) + ","@ + turn_text(ts.last())
    }
}

/// The JSON body of a request:
/// `{"model":<literal>,"messages":[<turns>],"stream":<true|false>}`.
pub open spec fn request_text(model: Seq<char>, ts: Seq<(Role, Seq<char>)>, stream: bool) -> Seq<
    char,
> {
    "{\"model\":"@ + json_literal(model) + ",\"messages\":["@ + joined_turns(ts)
        + "],\"stream\":"@ + (if stream {
        "true"@
    } else {
        "false"@
    }) + "}"@
}

impl ChatRequest {
    /// Builds the request for a prompt, with an optional system instruction
    /// (an empty one is still sent), asking for the fixed model.
    pub fn new(prompt: &str, system_prompt: Option<&str>, streaming: bool) -> (r: ChatRequest)
        ensures
            r.model@ == MODEL_ID@,
            turn_views(r.messages@) == request_turns(
                prompt@,
                match system_prompt {
                    Some(s) => Some(s@),
                    None => None,
                },
            ),
            turns_well_ordered(turn_views(r.messages@)),
            r.stream == streaming,
    {
        let mut messages: Vec<Turn> = Vec::new();
        match system_prompt {
            Some(s) => {
                messages.push(Turn { role: Role::System, content: String::from_str(s) });
            },
            None => {},
        }
        messages.push(Turn { role: Role::User, content: String::from_str(prompt) });
        let r = ChatRequest { model: String::from_str(MODEL_ID), messages, stream: streaming };
        assert(turn_views(r.messages@) =~= request_turns(
            prompt@,
            match system_prompt {
                Some(s) => Some(s@),
                None => None,
            },
        ));
        r
    }

    /// The JSON body that carries the request.
    pub fn body(&self) -> (r: String)
        ensures
            r@ == request_text(self.model@, turn_views(self.messages@), self.stream),
    {
        let mut out = String::from_str("{\"model\":");
        let model = quote_json(self.model.as_str());
        out.append(model.as_str());
        out.append(",\"messages\":[");
        let ghost head = out@;
        let mut i: usize = 0;
        while i < self.messages.len()
            invariant
                i <= self.messages@.len(),
                out@ == head + joined_turns(turn_views(self.messages@.subrange(0, i as int))),
            decreases self.messages.len() - i,
        {
            let ghost done = turn_views(self.messages@.subrange(0, i as int));
            let ghost next = turn_views(self.messages@.subrange(0, i + 1));
            assert(next.drop_last() =~= done);
            assert(next.last() == self.messages@[i as int]@);
            if i > 0 {
                out.append(",");
            }
            let t = encode_turn(&self.messages[i]);
            out.append(t.as_str());
            proof {
                if i == 0 {
                    assert(done.len() == 0);
                    assert(next.len() == 1);
                }
            }
            i = i + 1;
        }
        assert(self.messages@.subrange(0, self.messages@.len() as int) == self.messages@);
        out.append("],\"stream\":");
        if self.stream {
            out.append("true");
        } else {
            out.append("false");
        }
        out.append("}");
        out
    }
}

/// The value of the authorization header that carries an API key.
pub fn bearer_token(api_key: &str) -> (r: String)
    ensures
        r@ == "Bearer "@ + api_key@,
{
    let mut out = String::from_str("Bearer ");
    out.append(api_key);
    out
}

} // verus!
