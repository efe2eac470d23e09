use vstd::prelude::*;

use crate::token::{is_unexpired, UserToken};
use vstd::string::StringSliceAdditionalSpecFns;
use vstd::utf8::{encode_utf8, is_char_boundary};

verus! {

/// A character with the Unicode `White_Space` property.
pub open spec fn is_white_space(c: char) -> bool {
    let u = c as u32;
    (0x09 <= u <= 0x0d) || u == 0x20 || u == 0x85 || u == 0xa0 || u == 0x1680 || (0x2000 <= u
        <= 0x200a) || u == 0x2028 || u == 0x2029 || u == 0x202f || u == 0x205f || u == 0x3000
}

/// `s` without its leading white space.
pub open spec fn trim_start(s: Seq<char>) -> Seq<char>
    decreases s.len(),
{
    if s.len() > 0 && is_white_space(s[0]) {
        trim_start(s.drop_first())
    } else {
        s
    }
}

/// `s` without its trailing white space.
pub open spec fn trim_end(s: Seq<char>) -> Seq<char>
    decreases s.len(),
{
    if s.len() > 0 && is_white_space(s.last()) {
        trim_end(s.drop_last())
    } else {
        s
    }
}

/// `s` without leading and trailing white space.
pub open spec fn trim_of(s: Seq<char>) -> Seq<char> {
    trim_end(trim_start(s))
}

/// Relies on `str::trim`: the string with leading and trailing characters
/// of the Unicode `White_Space` property removed.
#[verifier::external_body]
fn trim(s: &str) -> (r: String)
    ensures
        r@ == trim_of(s@),
{
    s.trim().to_string()
}

/// The header starts with the word `bearer` or `Bearer`.
pub open spec fn has_bearer_prefix(b: Seq<u8>) -> bool {
    &&& b.len() >= 6
    &&& (b[0] == 98 || b[0] == 66)
    &&& b[1] == 101
    &&& b[2] == 97
    &&& b[3] == 114
    &&& b[4] == 101
    &&& b[5] == 114
}

/// The token of an `Authorization` header of the form `Bearer <token>` (or
/// `bearer <token>`), with surrounding whitespace trimmed; `None` for any
/// other header.
pub fn bearer_token(header: &str) -> (r: Option<String>)
    ensures
        r is Some <==> has_bearer_prefix(header.spec_bytes()) && is_char_boundary(
            header.spec_bytes(),
            6,
        ),
        r matches Some(t) ==> (exists|rest: Seq<char>|
            encode_utf8(rest) == header.spec_bytes().subrange(6, header.spec_bytes().len() as int)
                && t@ == trim_of(rest)),
{
    let b = header.as_bytes();
    if b.len() < 6 {
        return None;
    }
    if !((b[0] == 98 || b[0] == 66) && b[1] == 101 && b[2] == 97 && b[3] == 114 && b[4] == 101
        && b[5] == 114) {
        return None;
    }
    if !header.is_char_boundary(6) {
        return None;
    }
    let (_, rest) = header.split_at(6);
    assert(encode_utf8(rest@) == header.spec_bytes().subrange(6, header.spec_bytes().len() as int));
    Some(trim(rest))
}

/// Guards a group of routes: a request passes when it is a CORS preflight
/// (`OPTIONS`) or carries a bearer token whose signature matched and which
/// has not expired.
#[derive(Debug, Clone, Copy, PartialEq, Eq, Structural)]
pub struct Authentication;

/// The routes behind an `Authentication` guard.
pub struct AuthenticationMiddleware<S> {
    pub service: S,
}

impl Authentication {
    /// Puts `service` behind this guard.
    pub fn new_transform<S>(&self, service: S) -> (r: AuthenticationMiddleware<S>)
        ensures
            r.service == service,
    {
        AuthenticationMiddleware { service }
    }

    /// Whether a request passes: `claims` are those of its bearer token when
    /// the token was present and its signature matched.
    pub fn allows(&self, is_options: bool, claims: &Option<UserToken>, now: i64) -> (r: bool)
        ensures
            r == (is_options || (claims matches Some(c) && is_unexpired(c.exp, now))),
    {
        if is_options {
            return true;
        }
        match claims {
            Some(c) => now <= c.exp,
            None => false,
        }
    }
}

} // verus!
