//! The basic-authentication gate: decoding a credential header and checking
//! it against the configured username and password.
//!
//! A header that fails to decode yields "no credentials supplied" rather
//! than an error, since unauthenticated access is valid whenever no
//! credentials are configured. The check itself is a pure predicate; the
//! dispatcher is responsible for acting on its answer.

use vstd::prelude::*;

verus! {

use vstd::utf8::{valid_utf8, decode_utf8};

/// A username/password pair decoded from a basic-auth header.
pub struct Credentials {
    pub username: String,
    pub password: String,
}

/// The credentials carried by a request: `None` when the Authorization
/// header was missing or malformed.
pub struct BasicAuth {
    pub credentials: Option<Credentials>,
}

/// What `base64::decode` returns on a given input string: `None` where the
/// input is not valid base64, otherwise the decoded bytes.
pub uninterp spec fn base64_decode_of(s: Seq<char>) -> Option<Seq<u8>>;

/// Relies on base64::decode (standard alphabet with padding): decoding is a
/// pure function of the input string, and failures are reported as an error
/// value, which this wrapper turns into `None`.
#[verifier::external_body]
fn base64_decode(s: &str) -> (r: Option<Vec<u8>>)
    ensures
        r is Some <==> base64_decode_of(s@) is Some,
        r is Some ==> r->0@ == base64_decode_of(s@)->0,
{
    base64::decode(s).ok()
}

/// Relies on String::from_utf8: it returns `Ok` exactly on valid UTF-8, and
/// then the string those bytes encode.
#[verifier::external_body]
fn string_from_utf8(v: Vec<u8>) -> (r: Option<String>)
    ensures
        r is Some <==> valid_utf8(v@),
        r is Some ==> r->0@ == decode_utf8(v@),
{
    String::from_utf8(v).ok()
}

/// The position of the first colon byte, if any.
pub open spec fn colon_pos(b: Seq<u8>) -> Option<int>
    decreases b.len(),
{
    if b.len() == 0 {
        None
    } else if b[0] == 58 {
        Some(0int)
    } else {
        match colon_pos(b.drop_first()) {
            None => None,
            Some(i) => Some(i + 1),
        }
    }
}

proof fn lemma_colon_pos_scan(b: Seq<u8>, i: int)
    requires
        0 <= i <= b.len(),
        forall|k: int| 0 <= k < i ==> b[k] != 58,
    ensures
        i < b.len() && b[i] == 58 ==> colon_pos(b) == Some(i),
        i == b.len() ==> colon_pos(b) is None,
    decreases i,
{
    if i == 0 {
        if b.len() == 0 {
        } else if b[0] == 58 {
        } else {
        }
    } else {
        assert(b[0] != 58);
        let t = b.drop_first();
        assert(forall|k: int| 0 <= k < i - 1 ==> t[k] != 58);
        lemma_colon_pos_scan(t, i - 1);
        if i < b.len() && b[i] == 58 {
            assert(t[i - 1] == 58);
        }
    }
}

/// What decoding an Authorization header value yields: the base64-decoded
/// bytes split at the first colon, each side read as UTF-8. Any decode
/// failure or a missing colon yields `None`.
pub open spec fn spec_decode(h: Seq<char>) -> Option<(Seq<char>, Seq<char>)> {
    match base64_decode_of(h) {
        None => None,
        Some(b) => match colon_pos(b) {
            None => None,
            Some(i) => {
                let u = b.subrange(0, i);
                let p = b.subrange(i + 1, b.len() as int);
                if valid_utf8(u) && valid_utf8(p) {
                    Some((decode_utf8(u), decode_utf8(p)))
                } else {
                    None
                }
            },
        },
    }
}

/// Decodes a basic-auth header value into credentials, or `None` where the
/// value is not base64, holds no colon, or either side is not UTF-8.
pub fn decode(header: &str) -> (r: Option<Credentials>)
    ensures
        r is Some <==> spec_decode(header@) is Some,
        r is Some ==> r->0.username@ == spec_decode(header@).unwrap().0,
        r is Some ==> r->0.password@ == spec_decode(header@).unwrap().1,
{
    let bytes = match base64_decode(header) {
        None => {
            return None;
        },
        Some(b) => b,
    };
    let n = bytes.len();
    let mut i: usize = 0;
    while i < n
        invariant
            n == bytes@.len(),
            i <= n,
            forall|k: int| 0 <= k < i ==> bytes@[k] != 58,
        ensures
            i <= n,
            forall|k: int| 0 <= k < i ==> bytes@[k] != 58,
            i < n ==> bytes@[i as int] == 58,
        decreases n - i,
    {
        if bytes[i] == 58 {
            break ;
        }
        i = i + 1;
    }
    proof {
        lemma_colon_pos_scan(bytes@, i as int);
    }
    if i == n {
        return None;
    }
    let mut user_bytes: Vec<u8> = Vec::new();
    let mut j: usize = 0;
    while j < i
        invariant
            j <= i < n == bytes@.len(),
            user_bytes@ =~= bytes@.subrange(0, j as int),
        decreases i - j,
    {
        user_bytes.push(bytes[j]);
        j = j + 1;
    }
    let mut pass_bytes: Vec<u8> = Vec::new();
    let mut k: usize = i + 1;
    while k < n
        invariant
            i < n == bytes@.len(),
            i + 1 <= k <= n,
            pass_bytes@ =~= bytes@.subrange(i + 1, k as int),
        decreases n - k,
    {
        pass_bytes.push(bytes[k]);
        k = k + 1;
    }
    let username = match string_from_utf8(user_bytes) {
        None => {
            return None;
        },
        Some(s) => s,
    };
    let password = match string_from_utf8(pass_bytes) {
        None => {
            return None;
        },
        Some(s) => s,
    };
    Some(Credentials { username, password })
}

/// The credentials a request carries, as character sequences.
pub open spec fn supplied_view(auth: BasicAuth) -> Option<(Seq<char>, Seq<char>)> {
    match auth.credentials {
        Some(c) => Some((c.username@, c.password@)),
        None => None,
    }
}

/// Whether a request is authorized: with no configured username or password
/// every request is, otherwise only a request whose supplied credentials
/// match both configured values exactly.
pub open spec fn spec_check_auth(
    user: Option<Seq<char>>,
    password: Option<Seq<char>>,
    supplied: Option<(Seq<char>, Seq<char>)>,
) -> bool {
    match (user, password) {
        (Some(u), Some(p)) => supplied is Some && supplied.unwrap().0 == u && supplied.unwrap().1 == p,
        _ => true,
    }
}

/// Evaluates the basic-auth gate for one request.
pub fn check_auth(user: Option<&str>, password: Option<&str>, header: &BasicAuth) -> (r: bool)
    ensures
        r == spec_check_auth(
            (match user {
                Some(u) => Some(u@),
                None => None,
            }),
            (match password {
                Some(p) => Some(p@),
                None => None,
            }),
            supplied_view(*header),
        ),
{
    match (user, password, &header.credentials) {
        (Some(u), Some(p), Some(c)) => {
            let cfg_user = String::from_str(u);
            let cfg_pass = String::from_str(p);
            cfg_user == c.username && cfg_pass == c.password
        },
        (Some(_), Some(_), None) => false,
        _ => true,
    }
}

} // verus!

