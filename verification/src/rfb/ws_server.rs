//! Who may connect over a WebSocket.

use crate::text;
use crate::text::{contains_text, joined};
use vstd::prelude::*;

verus! {

/// Status of the answer to a client that did not show the token.
pub const UNAUTHORIZED_STATUS: u16 = 401;

/// Body of the answer to a client that did not show the token.
pub const UNAUTHORIZED_BODY: &'static str = "Unauthorized: Token Required";

/// Where clients connect over a WebSocket.
#[derive(Debug)]
pub struct WsRfbServer {
    pub bind_addr: String,
    pub desktop_name: String,
    pub auth_token: Option<String>,
}

/// How the request to open a WebSocket is answered.
#[derive(Debug, Clone, Copy, PartialEq, Eq, Structural)]
pub enum WsAnswer {
    /// Accept; `binary` where the binary subprotocol is to be named.
    Accept { binary: bool },
    /// Refuse: the token is missing.
    Unauthorized,
}

/// The text of a header, or nothing where it is missing.
pub open spec fn header_text(h: Option<&str>) -> Seq<char> {
    match h {
        Some(s) => s@,
        None => Seq::empty(),
    }
}

/// Whether a request shows the token: in its address, after "token=", or
/// anywhere in its Authorization header.
pub open spec fn shows_token(token: Seq<char>, uri: Seq<char>, authorization: Seq<char>) -> bool {
    text::occurs(uri, "token="@ + token) || text::occurs(authorization, token)
}

impl WsRfbServer {
    pub fn new(bind_addr: String, desktop_name: String, auth_token: Option<String>) -> (r: Self)
        ensures
            r == (WsRfbServer { bind_addr, desktop_name, auth_token }),
    {
        WsRfbServer { bind_addr, desktop_name, auth_token }
    }

    /// Whether a request may come in: always where no token is required,
    /// otherwise if it shows the token.
    pub open spec fn admits(&self, uri: Seq<char>, authorization: Seq<char>) -> bool {
        match self.auth_token {
            Some(token) => shows_token(token@, uri, authorization),
            None => true,
        }
    }

    /// Answers the request to open a WebSocket.
    pub fn answer(
        &self,
        uri: &str,
        authorization: Option<&str>,
        protocols: Option<&str>,
    ) -> (r: WsAnswer)
        ensures
            r == if self.admits(uri@, header_text(authorization)) {
                WsAnswer::Accept {
                    binary: protocols is Some && text::occurs(
                        header_text(protocols),
                        "binary"@,
                    ),
                }
            } else {
                WsAnswer::Unauthorized
            },
    {
        match &self.auth_token {
            Some(token) => {
                let wanted = joined("token=", token.as_str());
                let in_header = match authorization {
                    Some(h) => contains_text(h, token.as_str()),
                    None => {
                        let none = String::new();
                        contains_text(none.as_str(), token.as_str())
                    },
                };
                if !contains_text(uri, wanted.as_str()) && !in_header {
                    return WsAnswer::Unauthorized;
                }
            },
            None => {},
        }
        let binary = match protocols {
            Some(p) => contains_text(p, "binary"),
            None => false,
        };
        WsAnswer::Accept { binary }
    }
}

/// A client that shows no token where one is required is refused, whatever
/// else it sends.
pub proof fn law_no_token_no_entry(
    s: WsRfbServer,
    uri: Seq<char>,
    authorization: Seq<char>,
)
    requires
        s.auth_token is Some,
        !text::occurs(uri, s.auth_token->0@),
        !text::occurs(authorization, s.auth_token->0@),
    ensures
        !s.admits(uri, authorization),
{
    let token = s.auth_token->0@;
    let wanted = "token="@ + token;
    if text::occurs(uri, wanted) {
        let at = choose|at: int| text::occurs_at(uri, wanted, at);
        let n = "token="@.len() as int;
        assert(uri.subrange(at + n, at + n + token.len()) =~= token) by {
            assert forall|i: int| 0 <= i < token.len() implies uri[at + n + i] == token[i] by {
                assert(uri.subrange(at, at + wanted.len())[n + i] == wanted[n + i]);
            }
        }
        assert(text::occurs_at(uri, token, at + n));
    }
}

/// A client that shows the token comes in: in its address behind "token=", or in
/// its Authorization header, with anything around it. Where no token is required
/// everybody does.
pub proof fn law_token_lets_in(
    s: WsRfbServer,
    before: Seq<char>,
    after: Seq<char>,
    uri: Seq<char>,
    authorization: Seq<char>,
)
    ensures
        s.auth_token matches Some(token) ==> {
            &&& s.admits(before + ("token="@ + token@) + after, authorization)
            &&& s.admits(uri, before + token@ + after)
        },
        s.auth_token is None ==> s.admits(uri, authorization),
{
    if s.auth_token is Some {
        let token = s.auth_token->0@;
        let wanted = "token="@ + token;
        let n = before.len() as int;
        let a = before + wanted + after;
        assert(a.subrange(n, n + wanted.len()) =~= wanted);
        assert(text::occurs_at(a, wanted, n));
        let b = before + token + after;
        assert(b.subrange(n, n + token.len()) =~= token);
        assert(text::occurs_at(b, token, n));
    }
}

/// The word "token=" has to stand before the token in an address: without it the
/// token does not let anybody in.
pub proof fn law_token_needs_its_name(s: WsRfbServer, uri: Seq<char>, authorization: Seq<char>)
    requires
        s.auth_token is Some,
        s.admits(uri, authorization),
    ensures
        text::occurs(authorization, s.auth_token->0@) || text::occurs(uri, "token="@),
{
    let token = s.auth_token->0@;
    let wanted = "token="@ + token;
    if text::occurs(uri, wanted) {
        let at = choose|at: int| text::occurs_at(uri, wanted, at);
        let n = "token="@.len() as int;
        assert(uri.subrange(at, at + n) =~= "token="@) by {
            assert forall|i: int| 0 <= i < n implies uri[at + i] == "token="@[i] by {
                assert(uri.subrange(at, at + wanted.len())[i] == wanted[i]);
            }
        }
        assert(text::occurs_at(uri, "token="@, at));
    }
}

} // verus!
