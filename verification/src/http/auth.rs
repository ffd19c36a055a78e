//! The service token. A boundary between services, not between users: whoever can call the service
//! can name any brain.

#[allow(unused_imports)]
use crate::text::{begins, trimmed};
use crate::text::{strip_prefix, trim};
use vstd::prelude::*;
use vstd::string::*;
#[allow(unused_imports)]
use vstd::utf8::{encode_utf8, encode_utf8_decode_utf8};

verus! {

/// Compares without leaking through timing how far two equally long values agree.
pub fn constant_time_eq(a: &[u8], b: &[u8]) -> (r: bool)
    ensures
        r == (a@ == b@),
{
    if a.len() != b.len() {
        return false;
    }
    let mut acc: u8 = 0;
    let mut i: usize = 0;
    while i < a.len()
        invariant
            i <= a@.len(),
            a@.len() == b@.len(),
            acc == 0 <==> forall|k: int| 0 <= k < i ==> a@[k] == b@[k],
        decreases a@.len() - i,
    {
        let x: u8 = a[i];
        let y: u8 = b[i];
        assert((acc | (x ^ y)) == 0 <==> acc == 0 && x == y) by (bit_vector);
        acc = acc | (x ^ y);
        i = i + 1;
    }
    assert(acc == 0 ==> a@ =~= b@);
    acc == 0
}

pub const NOT_CONFIGURED: &'static str = "service token not configured";

pub const INVALID_TOKEN: &'static str = "invalid service token";

pub const MISSING_TOKEN: &'static str = "missing Bearer service token";

/// What stands before the token in the header.
pub const BEARER: &'static str = "Bearer ";

/// The token that a header presents.
pub open spec fn presented(header: Option<Seq<char>>) -> Option<Seq<char>> {
    match header {
        Some(h) => if begins(h, BEARER@) {
            Some(trimmed(h.skip(BEARER@.len() as int)))
        } else {
            None
        },
        None => None,
    }
}

/// Why a request is turned away, if it is.
pub open spec fn refused(expected: Option<Seq<char>>, header: Option<Seq<char>>) -> Option<
    Seq<char>,
> {
    match expected {
        None => Some(NOT_CONFIGURED@),
        Some(token) => match presented(header) {
            Some(p) => if p == token {
                None
            } else {
                Some(INVALID_TOKEN@)
            },
            None => Some(MISSING_TOKEN@),
        },
    }
}

/// Texts of the same bytes are the same.
proof fn lemma_same_bytes(a: Seq<char>, b: Seq<char>)
    requires
        encode_utf8(a) == encode_utf8(b),
    ensures
        a == b,
{
    encode_utf8_decode_utf8(a);
    encode_utf8_decode_utf8(b);
}

/// Whether a request may pass, given the token that is expected and the authorization header. The
/// service fails closed where it has no token.
pub fn require_service_token(expected: Option<&str>, header: Option<&str>) -> (r: Result<
    (),
    &'static str,
>)
    ensures
        ({
            let want = match expected {
                Some(e) => Some(e@),
                None => None,
            };
            let got = match header {
                Some(h) => Some(h@),
                None => None,
            };
            match r {
                Ok(_) => refused(want, got) is None,
                Err(why) => refused(want, got) == Some(why@),
            }
        }),
{
    let token = match expected {
        Some(t) => t,
        None => return Err(NOT_CONFIGURED),
    };
    let rest: Option<String> = match header {
        Some(h) => strip_prefix(h, BEARER),
        None => None,
    };
    match rest {
        Some(t) => {
            let given = trim(t.as_str());
            let same = constant_time_eq(given.as_str().as_bytes(), token.as_bytes());
            proof {
                if same {
                    lemma_same_bytes(given@, token@);
                }
            }
            if same {
                Ok(())
            } else {
                Err(INVALID_TOKEN)
            }
        },
        None => Err(MISSING_TOKEN),
    }
}

/// A request passes only with the very token that is expected.
pub proof fn law_only_the_token_passes(expected: Option<Seq<char>>, header: Option<Seq<char>>)
    requires
        refused(expected, header) is None,
    ensures
        expected is Some,
        presented(header) == expected,
{
}

} // verus!
