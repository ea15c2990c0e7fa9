//! Bearer-token and API-key gates: header extraction and the decisions
//! around token verification. The signature check itself is jsonwebtoken's;
//! everything from the header bytes to the attached claims is checked here.

use vstd::prelude::*;

verus! {

use vstd::string::StrSliceExecFns;
use vstd::string::StringExecFns;
use crate::text::str_eq;
use crate::text::str_has_prefix;
use crate::text::contains_view;

/// The claims a verified bearer token carries.
#[derive(Debug)]
pub struct Claims {
    pub sub: String,
    pub user_id: i32,
    pub exp: i64,
}

/// Why a request was refused authentication.
#[derive(Clone, Copy, Debug, PartialEq, Eq, Structural)]
pub enum AuthError {
    MissingHeader,
    InvalidFormat,
    InvalidToken,
    MissingToken,
}

/// Relies on jsonwebtoken's `decode` with HS256: it accepts exactly the
/// tokens correctly signed with the secret whose claims pass validation,
/// expiry against the current clock included — so the outcome depends on
/// the clock and nothing can be promised of it. On acceptance the claim
/// fields `sub`, `user_id` and `exp` are handed back as they are, each
/// absent when the claim is missing or of another type; what counts as
/// valid claims is decided by `claims_of_decode`.
#[verifier::external_body]
fn jwt_decode_hs256(secret: &str, token: &str) -> (r: Result<
    (Option<String>, Option<i64>, Option<i64>),
    (),
>)
{
    let validation = jsonwebtoken::Validation::new(jsonwebtoken::Algorithm::HS256);
    let key = jsonwebtoken::DecodingKey::from_secret(secret.as_bytes());
    match jsonwebtoken::decode::<serde_json::Value>(token, &key, &validation) {
        Ok(data) => {
            let sub = data.claims.get("sub").and_then(|v| v.as_str()).map(|s| s.to_string());
            let user_id = data.claims.get("user_id").and_then(|v| v.as_i64());
            let exp = data.claims.get("exp").and_then(|v| v.as_i64());
            Ok((sub, user_id, exp))
        },
        Err(_) => Err(()),
    }
}

/// What the verified side makes of a decode outcome: claims are accepted
/// exactly when the signature check passed, all three claims are
/// present, and the user id fits the claim type; anything else is an
/// invalid token, as a decode into the typed claims would refuse it.
pub fn claims_of_decode(d: Result<(Option<String>, Option<i64>, Option<i64>), ()>) -> (r: Result<
    Claims,
    AuthError,
>)
    ensures
        r is Ok <==> (d matches Ok(t) && t.0 is Some && (t.1 matches Some(u) && i32::MIN <= u
            <= i32::MAX) && t.2 is Some),
        r matches Ok(c) ==> (d matches Ok(t) && c.sub == t.0->0 && c.user_id as i64 == t.1->0
            && c.exp == t.2->0),
        r matches Err(e) ==> e == AuthError::InvalidToken,
{
    match d {
        Ok((Some(sub), Some(user_id), Some(exp))) => {
            if user_id < i32::MIN as i64 || user_id > i32::MAX as i64 {
                Err(AuthError::InvalidToken)
            } else {
                Ok(Claims { sub, user_id: user_id as i32, exp })
            }
        },
        _ => Err(AuthError::InvalidToken),
    }
}

/// Verifies bearer tokens against the shared HS256 secret.
#[derive(Debug)]
pub struct JwtValidator {
    pub secret: String,
}

impl JwtValidator {
    pub fn new(secret: String) -> (r: JwtValidator)
        ensures
            r.secret@ == secret@,
    {
        JwtValidator { secret }
    }

    /// Check a bearer token. Acceptance is jsonwebtoken's outside
    /// verdict; `claims_of_decode` decides, for every decode outcome,
    /// exactly which claims pass — a token missing any claim is refused,
    /// never defaulted.
    pub fn verify_token(&self, token: &str) -> (r: Result<Claims, AuthError>)
        ensures
            r matches Err(e) ==> e == AuthError::InvalidToken,
            r matches Ok(c) ==> i32::MIN <= c.user_id <= i32::MAX,
    {
        claims_of_decode(jwt_decode_hs256(self.secret.as_str(), token))
    }
}

/// The bearer-token gate in front of the authenticated routes.
#[derive(Debug)]
pub struct AuthMiddleware {
    pub validator: JwtValidator,
}

impl AuthMiddleware {
    pub fn new(jwt_secret: String) -> (r: AuthMiddleware)
        ensures
            r.validator.secret@ == jwt_secret@,
    {
        AuthMiddleware { validator: JwtValidator::new(jwt_secret) }
    }

    /// The decision for one request: a missing header, a header without
    /// the `Bearer ` form, and a token that fails validation are
    /// refused, in that order; otherwise the claims are attached.
    pub fn authorize(&self, auth_header: Option<&str>) -> (r: Result<Claims, AuthError>)
        ensures
            auth_header is None <==> (r matches Err(e) && e == AuthError::MissingHeader),
            auth_header matches Some(h) && !(h@.len() >= 7 && h@.subrange(0, 7) == "Bearer "@)
                <==> (r matches Err(e) && e == AuthError::InvalidFormat),
            r matches Ok(c) ==> i32::MIN <= c.user_id <= i32::MAX,
    {
        proof {
            reveal_strlit("Bearer ");
        }
        match auth_header {
            None => Err(AuthError::MissingHeader),
            Some(h) => {
                if !str_has_prefix(h, "Bearer ") {
                    Err(AuthError::InvalidFormat)
                } else {
                    let lh = h.unicode_len();
                    let token = h.substring_char(7, lh);
                    self.validator.verify_token(token)
                }
            },
        }
    }
}

/// The API-key gate for backend services: `/health` passes freely, every
/// other path needs a key from the allow-list.
#[derive(Debug)]
pub struct ApiKeyAuth {
    pub api_keys: Vec<String>,
}

impl ApiKeyAuth {
    pub fn new(api_keys: Vec<String>) -> (r: ApiKeyAuth)
        ensures
            r.api_keys@ == api_keys@,
    {
        ApiKeyAuth { api_keys }
    }

    /// Whether the request may proceed.
    pub fn check(&self, path: &str, api_key: Option<&str>) -> (r: bool)
        ensures
            r == (path@ == "/health"@ || (api_key matches Some(k) && contains_view(
                self.api_keys@,
                k@,
            ))),
    {
        if str_eq(path, "/health") {
            return true;
        }
        match api_key {
            Some(k) => {
                let n = self.api_keys.len();
                let mut i: usize = 0;
                while i < n
                    invariant
                        n == self.api_keys@.len(),
                        0 <= i <= n,
                        api_key == Some(k),
                        forall|j: int| 0 <= j < i ==> (#[trigger] self.api_keys@[j])@ != k@,
                    decreases n - i,
                {
                    if str_eq(self.api_keys[i].as_str(), k) {
                        proof {
                            assert((self.api_keys@[i as int])@ == k@);
                        }
                        return true;
                    }
                    i = i + 1;
                }
                false
            },
            None => false,
        }
    }
}


/// Credentials for the socket upgrade: claims the header check already
/// attached take precedence; otherwise the `token=` query parameter is
/// verified against the shared secret; a request carrying neither is
/// refused with a missing-token error.
pub fn upgrade_claims(
    validator: &JwtValidator,
    attached: Option<Claims>,
    query: &str,
) -> (r: Result<Claims, AuthError>)
    ensures
        attached matches Some(c) ==> (r matches Ok(c2) && c2 == c),
        attached is None ==> (r matches Err(e) ==> e == AuthError::MissingToken || e
            == AuthError::InvalidToken),
        attached is None ==> (r matches Ok(c) ==> i32::MIN <= c.user_id <= i32::MAX),
{
    match attached {
        Some(c) => Ok(c),
        None => {
            let segments = crate::text::split_on(query, '&');
            match crate::text::find_query_token(&segments) {
                Some(token) => validator.verify_token(token.as_str()),
                None => Err(AuthError::MissingToken),
            }
        },
    }
}

/// Who an HTTP rate limit is charged to: the authenticated user when
/// there is one, else the caller's source address.
#[derive(Debug)]
pub enum RatePrincipal {
    User(i64),
    Ip(String),
}

/// Pick the rate-limit principal for a request: the authenticated user
/// id when present; otherwise the source address, preferring the
/// `X-Real-IP` header, then the first hop of `X-Forwarded-For`, then
/// the socket peer; an anonymous caller with no address at all is
/// charged to user zero.
pub fn rate_principal(
    user_id: Option<i64>,
    x_real_ip: Option<&str>,
    x_forwarded_for: Option<&str>,
    peer: Option<&str>,
) -> (r: RatePrincipal)
    ensures
        user_id matches Some(u) ==> (r matches RatePrincipal::User(v) && v == u),
        user_id is None ==> (x_real_ip matches Some(ip) ==> (r matches RatePrincipal::Ip(s) && s@
            == ip@)),
        user_id is None && x_real_ip is None ==> (x_forwarded_for matches Some(f) ==> (r matches
            RatePrincipal::Ip(s) && !s@.contains(',') && s@.len() <= f@.len() && s@ == f@.subrange(
            0,
            s@.len() as int,
        ) && (s@.len() < f@.len() ==> f@[s@.len() as int] == ','))),
        user_id is None && x_real_ip is None && x_forwarded_for is None ==> (peer matches Some(p)
            ==> (r matches RatePrincipal::Ip(s) && s@ == p@)),
        (user_id is None && x_real_ip is None && x_forwarded_for is None && peer is None) ==> (r
            matches RatePrincipal::User(v) && v == 0),
{
    match user_id {
        Some(u) => RatePrincipal::User(u),
        None => {
            match x_real_ip {
                Some(ip) => RatePrincipal::Ip(ip.to_owned()),
                None => {
                    match x_forwarded_for {
                        Some(f) => {
                            let hops = crate::text::split_on(f, ',');
                            proof {
                                crate::text::lemma_join_first_prefix(
                                    hops@.map_values(|x: String| x@),
                                    ',',
                                );
                                assert(hops@.map_values(|x: String| x@)[0] == hops@[0]@);
                            }
                            let first = hops[0].clone();
                            RatePrincipal::Ip(first)
                        },
                        None => {
                            match peer {
                                Some(p) => RatePrincipal::Ip(p.to_owned()),
                                None => RatePrincipal::User(0),
                            }
                        },
                    }
                },
            }
        },
    }
}

} // verus!
