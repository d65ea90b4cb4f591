//! The verifiable slice of the login flow: decoding the identity
//! provider's id token into claims, the CSRF state check, and the
//! redirect-target decisions.
//!
//! The token exchange itself is HTTP against the provider and stays
//! outside the library; this module receives the id token as a plain
//! string and hands back plain claims.

use vstd::prelude::*;

use crate::error::AppError;
use crate::models::IdTokenClaims;
use crate::text::first_at;

verus! {

/// `base64::DecodeError`, declared so it can appear in a signature.
#[verifier::external_type_specification]
#[verifier::external_body]
pub struct ExDecodeError(base64::DecodeError);

/// What base64url-without-padding decoding yields on these characters,
/// if anything. The result depends on the characters alone.
pub uninterp spec fn base64url_decoded(s: Seq<char>) -> Option<Seq<u8>>;

/// Relies on base64's `URL_SAFE_NO_PAD` engine `decode`: a pure
/// function of the input, returning its byte decoding or a
/// `DecodeError` for input that is not valid padding-free base64url.
#[verifier::external_body]
fn b64url_decode(s: &str) -> (r: Result<Vec<u8>, base64::DecodeError>)
    ensures
        r is Ok <==> base64url_decoded(s@) is Some,
        r is Ok ==> r->Ok_0@ == base64url_decoded(s@)->0,
{
    base64::Engine::decode(&base64::engine::general_purpose::URL_SAFE_NO_PAD, s)
}

/// The claim fields a JSON object carries, if these bytes parse as
/// one: `(oid, email, name, tid)`, the object id being mandatory.
/// The result depends on the bytes alone.
pub uninterp spec fn id_claims_in(b: Seq<u8>) -> Option<
    (Seq<char>, Option<Seq<char>>, Option<Seq<char>>, Option<Seq<char>>),
>;

/// The view of decoded claims, for comparing against [`id_claims_in`].
pub open spec fn claims_view(c: IdTokenClaims) -> (
    Seq<char>,
    Option<Seq<char>>,
    Option<Seq<char>>,
    Option<Seq<char>>,
) {
    (c.oid@, opt_str_view(c.email), opt_str_view(c.name), opt_str_view(c.tid))
}

/// The view of an optional string.
pub open spec fn opt_str_view(o: Option<String>) -> Option<Seq<char>> {
    match o {
        Some(s) => Some(s@),
        None => None,
    }
}

/// Relies on `serde_json::from_slice` and `serde_json::Value`'s
/// accessors: whether the bytes are a JSON object with a string
/// `oid` member, and which string members `oid`, `email`, `name` and
/// `tid` it carries, are functions of the byte content alone.
#[verifier::external_body]
fn parse_id_claims(bytes: &[u8]) -> (r: Option<IdTokenClaims>)
    ensures
        r is Some <==> id_claims_in(bytes@) is Some,
        r is Some ==> claims_view(r->0) == id_claims_in(bytes@)->0,
{
    let v: serde_json::Value = serde_json::from_slice(bytes).ok()?;
    let oid = v.get("oid")?.as_str()?.to_owned();
    let email = v.get("email").and_then(|x| x.as_str()).map(|s| s.to_owned());
    let name = v.get("name").and_then(|x| x.as_str()).map(|s| s.to_owned());
    let tid = v.get("tid").and_then(|x| x.as_str()).map(|s| s.to_owned());
    Some(IdTokenClaims { oid, email, name, tid })
}

/// The id token's payload segment: the characters between the first
/// dot and the next dot (or the end). A token without any dot has
/// none.
pub open spec fn jwt_payload_segment(s: Seq<char>) -> Option<Seq<char>> {
    let d1 = first_at(s, '.') as int;
    if d1 >= s.len() {
        None
    } else {
        let rest = s.subrange(d1 + 1, s.len() as int);
        let d2 = first_at(rest, '.') as int;
        if d2 >= rest.len() {
            Some(rest)
        } else {
            Some(rest.subrange(0, d2))
        }
    }
}

/// What decoding an id token yields: its payload segment, base64url
/// decoded, parsed as a JSON claims object — or nothing, when any of
/// those steps fails.
pub open spec fn spec_decoded_claims(s: Seq<char>) -> Option<
    (Seq<char>, Option<Seq<char>>, Option<Seq<char>>, Option<Seq<char>>),
> {
    match jwt_payload_segment(s) {
        None => None,
        Some(seg) => match base64url_decoded(seg) {
            None => None,
            Some(bytes) => id_claims_in(bytes),
        },
    }
}

/// Decode the claims out of an identity provider id token.
///
/// Exactly the tokens whose payload segment exists, base64url-decodes
/// and parses as a claims object succeed; everything else is an OAuth
/// error.
pub fn decode_id_token_claims(id_token: &str) -> (r: Result<IdTokenClaims, AppError>)
    ensures
        r is Ok <==> spec_decoded_claims(id_token@) is Some,
        r is Ok ==> claims_view(r->Ok_0) == spec_decoded_claims(id_token@)->0,
        r is Err ==> r->Err_0 is OAuth,
{
    let len = id_token.unicode_len();
    let mut d1: usize = 0;
    while d1 < len && id_token.get_char(d1) != '.'
        invariant
            len == id_token@.len(),
            d1 <= len,
            forall|j: int| 0 <= j < d1 ==> id_token@[j] != '.',
        decreases len - d1,
    {
        d1 += 1;
    }
    proof {
        crate::text::lemma_first_at(id_token@, '.', d1 as int);
    }
    if d1 >= len {
        return Err(AppError::OAuth("malformed id_token".to_owned()));
    }
    let rest = id_token.substring_char(d1 + 1, len);
    let rest_len = rest.unicode_len();
    let mut d2: usize = 0;
    while d2 < rest_len && rest.get_char(d2) != '.'
        invariant
            rest_len == rest@.len(),
            d2 <= rest_len,
            forall|j: int| 0 <= j < d2 ==> rest@[j] != '.',
        decreases rest_len - d2,
    {
        d2 += 1;
    }
    proof {
        crate::text::lemma_first_at(rest@, '.', d2 as int);
    }
    let segment = if d2 >= rest_len {
        rest
    } else {
        rest.substring_char(0, d2)
    };
    proof {
        if d2 >= rest_len {
            assert(segment@ == jwt_payload_segment(id_token@)->0);
        }
    }
    let bytes = match b64url_decode(segment) {
        Ok(bytes) => bytes,
        Err(_) => {
            return Err(AppError::OAuth("id_token payload is not base64url".to_owned()));
        },
    };
    match parse_id_claims(bytes.as_slice()) {
        Some(claims) => Ok(claims),
        None => Err(AppError::OAuth("id_token payload is not a claims object".to_owned())),
    }
}

/// Does the state echoed by the provider match the one stored in the
/// session? A missing stored state never matches.
pub fn csrf_state_matches(stored: Option<&String>, received: &str) -> (r: bool)
    ensures
        r == match stored {
            Some(s) => s@ == received@,
            None => false,
        },
{
    let rec = received.to_owned();
    match stored {
        Some(s) => s.eq(&rec),
        None => false,
    }
}

/// Where to send the browser after login: back to the frontend,
/// honouring a stored `next` path only when it is site-relative
/// (starts with `/`).
pub fn callback_destination(frontend_url: &str, next: Option<&String>) -> (r: String)
    ensures
        r@ == match next {
            Some(p) => if p@.len() > 0 && p@[0] == '/' {
                frontend_url@ + p@
            } else {
                frontend_url@
            },
            None => frontend_url@,
        },
{
    match next {
        Some(p) => {
            let ps = p.as_str();
            if ps.unicode_len() > 0 && ps.get_char(0) == '/' {
                let mut s = frontend_url.to_owned();
                s.append(ps);
                s
            } else {
                frontend_url.to_owned()
            }
        },
        None => frontend_url.to_owned(),
    }
}

/// The identity provider's authorization endpoint for a tenant.
pub fn authorize_endpoint(tenant: &str) -> (r: String)
    ensures
        r@ == "https://login.microsoftonline.com/"@ + tenant@ + "/oauth2/v2.0/authorize"@,
{
    let mut s: String = "https://login.microsoftonline.com/".to_owned();
    s.append(tenant);
    s.append("/oauth2/v2.0/authorize");
    s
}

/// The identity provider's token endpoint for a tenant.
pub fn token_endpoint(tenant: &str) -> (r: String)
    ensures
        r@ == "https://login.microsoftonline.com/"@ + tenant@ + "/oauth2/v2.0/token"@,
{
    let mut s: String = "https://login.microsoftonline.com/".to_owned();
    s.append(tenant);
    s.append("/oauth2/v2.0/token");
    s
}

} // verus!
