//! The refresh-token cookie: the opaque session secret travels in a scoped,
//! http-only cookie, percent-encoded, with a lifetime equal to the token's
//! remaining time to live.
//!
//! Building and parsing the cookie header itself is transport plumbing; what
//! is verified here is the value logic: encoding the secret, decoding it
//! back, and computing the remaining lifetime.  Percent-encoding is done by
//! the urlencoding crate behind trusted wrappers; what it computes is named
//! by `url_encoded`.

use vstd::prelude::*;

use crate::token::TokenDto;

verus! {

/// Names what `urlencoding::encode` computes: the percent-encoding of a
/// string, a function of the string alone.
pub uninterp spec fn url_encoded(s: Seq<char>) -> Seq<char>;

/// Relies on `urlencoding::encode`: percent-encodes every byte except ASCII
/// alphanumerics and `-`, `_`, `.`, `~`.
#[verifier::external_body]
fn url_encode(s: &str) -> (r: String)
    ensures
        r@ == url_encoded(s@),
{
    urlencoding::encode(s).into_owned()
}

/// Relies on `urlencoding::decode`: decoding undoes percent-encoding, so any
/// value that `urlencoding::encode` produced comes back exactly; an escape
/// that is not valid UTF-8 is refused.
#[verifier::external_body]
fn url_decode(s: &str) -> (r: Option<String>)
    ensures
        r matches Some(d) ==> (forall|orig: Seq<char>| s@ == url_encoded(orig) ==> d@ == orig),
        r is None ==> (forall|orig: Seq<char>| s@ != url_encoded(orig)),
{
    match urlencoding::decode(s) {
        Ok(c) => Some(c.into_owned()),
        Err(_) => None,
    }
}

/// What goes into a fresh refresh-token cookie: the percent-encoded secret
/// and the cookie's remaining lifetime in milliseconds.  A token that is
/// already expired at `now_ms` yields no cookie at all.
pub fn refresh_cookie_parts(token: &TokenDto, now_ms: u64) -> (r: Option<(String, u64)>)
    ensures
        r is Some <==> now_ms <= token@.expire_at,
        r matches Some(p) ==> p.0@ == url_encoded(token@.key) && p.1 == token@.expire_at - now_ms,
{
    if now_ms <= token.expire_at() {
        let value = url_encode(token.key());
        Some((value, token.expire_at() - now_ms))
    } else {
        None
    }
}

/// The session secret carried by a refresh-token cookie value: any value made
/// by `refresh_cookie_parts` comes back as exactly the secret that went in.
pub fn cookie_refresh_key(value: &str) -> (r: Option<String>)
    ensures
        r matches Some(d) ==> (forall|orig: Seq<char>| value@ == url_encoded(orig) ==> d@ == orig),
        r is None ==> (forall|orig: Seq<char>| value@ != url_encoded(orig)),
{
    url_decode(value)
}

} // verus!
