//! The login page: the token goes to the server once, which answers with a cookie.
use crate::json::{self, Json, JsonV};
use crate::text;
use crate::ui::types::{self, Call, Method};
use vstd::prelude::*;

verus! {

/// What the login page does with the answer to a token.
#[derive(Debug, PartialEq)]
pub enum Entry {
    Admitted,
    Refused(String),
}

pub open spec fn entry_text(e: Entry) -> Option<Seq<char>> {
    match e {
        Entry::Admitted => None,
        Entry::Refused(m) => Some(m@),
    }
}

/// The call that submits a token; none while one is under way, or for a blank one.
pub fn submit_token(typed: &str, busy: bool) -> (r: Option<Call>)
    ensures
        types::opt_call(r) == if text::trim(typed@).len() == 0 || busy {
            None
        } else {
            Some(
                types::call_with(
                    Method::Post,
                    "/api/auth/login"@,
                    JsonV::Obj(seq![("token"@, JsonV::Str(text::trim(typed@)))]),
                ),
            )
        },
{
    let value = text::trimmed(typed);
    if value.as_str().is_empty() || busy {
        return None;
    }
    Some(
        Call::with(
            Method::Post,
            text::owned("/api/auth/login"),
            json::obj1("token", json::string(value.as_str())),
        ),
    )
}

/// The outcome of a submitted token: the answer's status and value, or why
/// there was none.
pub fn login_outcome(answer: Result<(u16, Json), String>) -> (r: Entry)
    ensures
        entry_text(r) == match answer {
            Ok((status, v)) => if status == 200 {
                None
            } else if status == 429 {
                Some("Too many attempts; try again later"@)
            } else {
                match json::str_of(json::field(v@, "error"@)) {
                    Some(m) => Some(m),
                    None => Some("Invalid token"@),
                }
            },
            Err(e) => Some(e@),
        },
{
    match answer {
        Ok((status, v)) => if status == 200 {
            Entry::Admitted
        } else if status == 429 {
            Entry::Refused(text::owned("Too many attempts; try again later"))
        } else {
            match json::str_in(v.get("error")) {
                Some(m) => Entry::Refused(text::owned(m)),
                None => Entry::Refused(text::owned("Invalid token")),
            }
        },
        Err(e) => Entry::Refused(e),
    }
}

/// Whether the answer to a probe says that the visitor is signed in.
pub fn signed_in(answer: Option<u16>) -> (r: bool)
    ensures
        r == (answer == Some(200u16)),
{
    match answer {
        Some(status) => status == 200,
        None => false,
    }
}

} // verus!
