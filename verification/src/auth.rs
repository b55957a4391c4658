//! Bearer tokens: what the guard in front of the protected routes decides.
//!
//! Checking a token's signature and expiry is the work of the JWT library,
//! outside this crate. Here stand the two decisions around that call: which
//! text of the request is the token, and what is answered once the call has
//! accepted or refused it.

use vstd::prelude::*;

verus! {

/// The claims of an access token.
#[derive(Debug)]
pub struct Claims {
    /// Expiry, in seconds since the epoch.
    pub exp: usize,
    /// Time of issue, in seconds since the epoch.
    pub iat: usize,
    /// The subject: whom the token was issued to.
    pub sub: String,
}

/// The mathematical value of [`Claims`].
pub struct ClaimsView {
    pub exp: usize,
    pub iat: usize,
    pub sub: Seq<char>,
}

impl View for Claims {
    type V = ClaimsView;

    open spec fn view(&self) -> ClaimsView {
        ClaimsView { exp: self.exp, iat: self.iat, sub: self.sub@ }
    }
}

/// What an `Authorization` header starts with where it carries a bearer
/// token.
pub const BEARER: &'static str = "Bearer ";

/// The status that a refused token is answered with.
pub const UNAUTHORIZED: u16 = 401;

/// The body that a refused token is answered with.
pub const INVALID_TOKEN: &'static str = "Invalid token";

/// The token that an `Authorization` header carries: what follows
/// `"Bearer "`. A request without the header, and a header that does not
/// start so, carry the empty token.
pub open spec fn bearer_of(header: Option<Seq<char>>) -> Seq<char> {
    match header {
        Some(h) => if h.len() >= BEARER@.len() && h.subrange(0, BEARER@.len() as int) == BEARER@ {
            h.subrange(BEARER@.len() as int, h.len() as int)
        } else {
            Seq::empty()
        },
        None => Seq::empty(),
    }
}

/// The token that the `Authorization` header of a request carries.
pub fn bearer_token<'a>(authorization: Option<&'a str>) -> (token: &'a str)
    ensures
        token@ == bearer_of(
            match authorization {
                Some(h) => Some(h@),
                None => None,
            },
        ),
{
    proof {
        reveal_strlit("Bearer ");
        reveal_strlit("");
    }
    let header = match authorization {
        Some(h) => h,
        None => {
            return "";
        },
    };
    let n = header.unicode_len();
    if n < 7 {
        return "";
    }
    let mut same = true;
    let mut i: usize = 0;
    while i < 7
        invariant
            i <= 7,
            7 <= n,
            n == header@.len(),
            BEARER@.len() == 7,
            same <==> forall|j: int| 0 <= j < i ==> header@[j] == BEARER@[j],
        decreases 7 - i,
    {
        if header.get_char(i) != BEARER.get_char(i) {
            same = false;
        }
        i = i + 1;
    }
    if !same {
        proof {
            let j = choose|j: int| 0 <= j < 7 && header@[j] != BEARER@[j];
            assert(header@.subrange(0, 7)[j] == header@[j]);
        }
        return "";
    }
    assert(header@.subrange(0, 7) =~= BEARER@);
    header.substring_char(7, n)
}

/// What the guard does with a request once the JWT library has decoded its
/// token, or refused to: accepted claims let the request through; a
/// refused token is answered `401 Invalid token` and the request goes no
/// further.
pub fn jwt_middleware(decoded: Option<Claims>) -> (r: Result<Claims, (u16, String)>)
    ensures
        match r {
            Ok(claims) => decoded == Some(claims),
            Err(refusal) => decoded is None && refusal.0 == UNAUTHORIZED && refusal.1@
                == INVALID_TOKEN@,
        },
{
    match decoded {
        Some(claims) => Ok(claims),
        None => Err((UNAUTHORIZED, String::from_str(INVALID_TOKEN))),
    }
}

} // verus!
