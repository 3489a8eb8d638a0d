//! Authentication: reading credentials out of a request body, preparing
//! a registration, judging a login against the stored hash, minting the
//! session token, and shaping the reply.  The store itself stays with
//! the caller; the password hash and the signed token come from outside
//! crates through the trusted items below.

use vstd::prelude::*;
use vstd::string::StrSliceExecFns;
use crate::budget::{Budget, BudgetView};
use crate::flatjson::{flat_get, flat_lookup, flat_views, parse_flat, sp_parse_flat, FlatV, FlatVal};
use crate::http_utils::{
    add_header, bad_request, bad_request_msg, header_views, ok_json, spec_error_body, Response,
};
use crate::json::{ser_budget, serialize_budget};
use crate::text::is_plain;
use crate::user_threads::lemma_parse_flat_plain;

verus! {

/// What a register or login body carries.
#[derive(Debug, PartialEq, Eq)]
pub struct UserCredentials {
    pub username: String,
    pub password: String,
}

/// One stored row of the credential table.
pub struct UserAuthRow {
    pub uuid: String,
    pub username: String,
    pub password: String,
}

/// The public identity a token speaks for.
#[derive(Debug, PartialEq, Eq)]
pub struct UserInfo {
    pub id: String,
    pub username: String,
}

/// The claims carried inside a session token.
pub struct UserToken {
    pub id: String,
    pub username: String,
    pub exp: u64,
}

impl UserToken {
    pub fn new(user_info: UserInfo, exp: u64) -> (r: UserToken)
        ensures
            r.id == user_info.id,
            r.username == user_info.username,
            r.exp == exp,
    {
        UserToken { id: user_info.id, username: user_info.username, exp }
    }
}

/// Why an authentication request was refused.
#[derive(Clone, Copy, PartialEq, Eq, Structural, Debug)]
pub enum AuthError {
    BadRequest,
    BadCredentials,
    AlreadyExists,
}

/// What the bcrypt check of a password against a stored hash answers:
/// a function of the two texts alone; an unreadable hash answers
/// nothing.
pub uninterp spec fn bcrypt_verify_of(pw: Seq<char>, hash: Seq<char>) -> Option<bool>;

/// Relies on `bcrypt::hash`: salts and hashes the password at the given
/// cost; a hash it hands back verifies that same password.
#[verifier::external_body]
fn hash_password(password: &String, cost: u32) -> (r: Option<String>)
    ensures
        r matches Some(h) ==> bcrypt_verify_of(password@, h@) == Some(true),
{
    match bcrypt::hash(password.as_str(), cost) {
        Ok(h) => Some(h),
        Err(_) => None,
    }
}

/// Relies on `bcrypt::verify`: checks the password against the stored
/// hash; the answer depends on the two texts alone.
#[verifier::external_body]
fn verify_password(password: &String, hash: &String) -> (r: Option<bool>)
    ensures
        r == bcrypt_verify_of(password@, hash@),
{
    match bcrypt::verify(password.as_str(), hash.as_str()) {
        Ok(b) => Some(b),
        Err(_) => None,
    }
}

/// Relies on `uuid::Uuid::new_v4`: a fresh random identifier, rendered
/// in its 36-character hyphenated form.
#[verifier::external_body]
fn fresh_user_id() -> (r: String)
    ensures
        r@.len() == 36,
{
    uuid::Uuid::new_v4().to_string()
}

/// The signed session token for these claims and this secret: what
/// `jsonwebtoken::encode` returns, a function of its inputs alone.
pub uninterp spec fn jwt_token_of(
    id: Seq<char>,
    username: Seq<char>,
    exp: int,
    secret: Seq<char>,
) -> Seq<char>;

/// What decoding a token against a secret recovers: the claims, when
/// the signature checks out and the claims are readable; a function of
/// the token and the secret alone (the expiry is not judged here).
pub uninterp spec fn jwt_claims_of(token: Seq<char>, secret: Seq<char>) -> Option<
    (Seq<char>, Seq<char>, int),
>;

/// Relies on `jsonwebtoken::encode` under the default HS256 header:
/// the token is computed from the claims and the secret alone, and
/// decoding it against the same secret recovers the claims.
#[verifier::external_body]
fn jwt_encode(id: &String, username: &String, exp: u64, secret: &String) -> (r: String)
    ensures
        r@ == jwt_token_of(id@, username@, exp as int, secret@),
        jwt_claims_of(r@, secret@) == Some((id@, username@, exp as int)),
{
    let mut claims = serde_json::Map::new();
    claims.insert("exp".to_string(), serde_json::Value::from(exp));
    claims.insert("id".to_string(), serde_json::Value::String(id.clone()));
    claims.insert("username".to_string(), serde_json::Value::String(username.clone()));
    jsonwebtoken::encode(
        &jsonwebtoken::Header::default(),
        &serde_json::Value::Object(claims),
        &jsonwebtoken::EncodingKey::from_secret(secret.as_bytes()),
    ).unwrap_or(String::new())
}

/// Relies on `jsonwebtoken::decode` under HS256 with the expiry check
/// turned off: signature verification and claim extraction depend on
/// the token and the secret alone; the caller judges the expiry.
#[verifier::external_body]
fn jwt_decode_claims(token: &String, secret: &String) -> (r: Option<(String, String, u64)>)
    ensures
        match r {
            Some(c) => jwt_claims_of(token@, secret@) == Some((c.0@, c.1@, c.2 as int)),
            None => jwt_claims_of(token@, secret@) is None,
        },
{
    let mut validation = jsonwebtoken::Validation::new(jsonwebtoken::Algorithm::HS256);
    validation.validate_exp = false;
    let key = jsonwebtoken::DecodingKey::from_secret(secret.as_bytes());
    let data = jsonwebtoken::decode::<serde_json::Value>(token.as_str(), &key, &validation).ok()?;
    let id = data.claims.get("id")?.as_str()?.to_string();
    let user = data.claims.get("username")?.as_str()?.to_string();
    let exp = data.claims.get("exp")?.as_u64()?;
    Some((id, user, exp))
}

/// Relies on `chrono::Utc::now`: the clock in whole seconds since the
/// epoch; nothing is claimed of what it reads.
#[verifier::external_body]
fn current_unix_time() -> (r: i64) {
    chrono::Utc::now().timestamp()
}

/// What a credential body parses to: both fields must be present as
/// strings, and neither may be empty.
pub open spec fn spec_credentials(s: Seq<char>) -> Result<(Seq<char>, Seq<char>), AuthError> {
    match sp_parse_flat(s) {
        None => Err(AuthError::BadRequest),
        Some(ps) => match (flat_get(ps, "username"@), flat_get(ps, "password"@)) {
            (Some(FlatV::S(u)), Some(FlatV::S(p))) => {
                if u.len() == 0 || p.len() == 0 {
                    Err(AuthError::BadCredentials)
                } else {
                    Ok((u, p))
                }
            },
            _ => Err(AuthError::BadRequest),
        },
    }
}

/// Reads the credentials out of a request body: an unreadable body or
/// missing field is a bad request, an empty field bad credentials.
pub fn parse_credentials(data: &str) -> (r: Result<UserCredentials, AuthError>)
    ensures
        match r {
            Ok(c) => spec_credentials(data@) == Ok::<_, AuthError>((c.username@, c.password@))
                && is_plain(c.username@) && is_plain(c.password@),
            Err(e) => spec_credentials(data@) == Err::<(Seq<char>, Seq<char>), _>(e),
        },
{
    let Some(ps) = parse_flat(data) else {
        return Err(AuthError::BadRequest);
    };
    proof {
        lemma_parse_flat_plain(data@);
    }
    let ukey = String::from_str("username");
    let pkey = String::from_str("password");
    let username: String = match flat_lookup(&ps, &ukey) {
        Some(FlatVal::S(u)) => u.clone(),
        _ => {
            return Err(AuthError::BadRequest);
        },
    };
    let password: String = match flat_lookup(&ps, &pkey) {
        Some(FlatVal::S(p)) => p.clone(),
        _ => {
            return Err(AuthError::BadRequest);
        },
    };
    proof {
        crate::user_threads::lemma_flat_get_plain(flat_views(ps@), "username"@);
        crate::user_threads::lemma_flat_get_plain(flat_views(ps@), "password"@);
    }
    if username.as_str().unicode_len() == 0 || password.as_str().unicode_len() == 0 {
        return Err(AuthError::BadCredentials);
    }
    Ok(UserCredentials { username, password })
}

/// Everything a registration writes to the store: the credentials row
/// and the user's initial budget record.
pub struct RegistrationPlan {
    pub username: String,
    pub password_hash: String,
    pub user_id: String,
    pub initial_budget: String,
}

/// The cost parameter the password hash is computed with.
pub const HASH_COST: u32 = 7;

/// Prepares a registration from a request body: valid credentials give
/// a fresh user id, a hash that verifies the password, and the JSON of
/// an empty budget under the new username.
pub fn prepare_registration(data: &str) -> (r: Result<RegistrationPlan, AuthError>)
    ensures
        match spec_credentials(data@) {
            Err(e) => r matches Err(e2) && e2 == e,
            Ok(cred) => match r {
                Ok(plan) => {
                    &&& plan.username@ == cred.0
                    &&& bcrypt_verify_of(cred.1, plan.password_hash@) == Some(true)
                    &&& plan.user_id@.len() == 36
                    &&& plan.initial_budget@ == ser_budget(
                        BudgetView {
                            username: cred.0,
                            current_balance: 0,
                            expected_income: 0,
                            entries: Seq::<(Seq<char>, int, int)>::empty(),
                            savings: 0,
                        },
                    )
                },
                Err(e) => e == AuthError::BadRequest,
            },
        },
{
    let creds = match parse_credentials(data) {
        Ok(c) => c,
        Err(e) => {
            return Err(e);
        },
    };
    let hash = match hash_password(&creds.password, HASH_COST) {
        Some(h) => h,
        None => {
            return Err(AuthError::BadRequest);
        },
    };
    let id = fresh_user_id();
    let fresh = Budget::new(creds.username.clone());
    let initial = serialize_budget(&fresh);
    proof {
        assert(fresh@ == (BudgetView {
            username: creds.username@,
            current_balance: 0,
            expected_income: 0,
            entries: Seq::<(Seq<char>, int, int)>::empty(),
            savings: 0,
        }));
    }
    Ok(
        RegistrationPlan {
            username: creds.username,
            password_hash: hash,
            user_id: id,
            initial_budget: initial,
        },
    )
}

/// How one write against the store went, as the caller reports it.
pub enum StoreOutcome {
    Success,
    ConstraintViolation,
    OtherFailure,
}

/// Judges the two registration writes: a duplicate username is its own
/// error, any other failed write refuses the request.
pub fn registration_outcome(auth_insert: &StoreOutcome, data_insert: &StoreOutcome) -> (r: Result<
    (),
    AuthError,
>)
    ensures
        match auth_insert {
            StoreOutcome::ConstraintViolation => r == Err::<(), _>(AuthError::AlreadyExists),
            StoreOutcome::OtherFailure => r == Err::<(), _>(AuthError::BadRequest),
            StoreOutcome::Success => match data_insert {
                StoreOutcome::Success => r == Ok::<_, AuthError>(()),
                _ => r == Err::<(), _>(AuthError::BadRequest),
            },
        },
{
    match auth_insert {
        StoreOutcome::ConstraintViolation => Err(AuthError::AlreadyExists),
        StoreOutcome::OtherFailure => Err(AuthError::BadRequest),
        StoreOutcome::Success => match data_insert {
            StoreOutcome::Success => Ok(()),
            StoreOutcome::ConstraintViolation => Err(AuthError::BadRequest),
            StoreOutcome::OtherFailure => Err(AuthError::BadRequest),
        },
    }
}

/// Judges a login: the stored row must exist and the password must
/// verify against its hash; an unreadable hash refuses the request.
pub fn login_decision(creds: &UserCredentials, row: Option<&UserAuthRow>) -> (r: Result<
    UserInfo,
    AuthError,
>)
    ensures
        match row {
            None => r == Err::<UserInfo, _>(AuthError::BadCredentials),
            Some(ar) => match bcrypt_verify_of(creds.password@, ar.password@) {
                None => r == Err::<UserInfo, _>(AuthError::BadRequest),
                Some(false) => r == Err::<UserInfo, _>(AuthError::BadCredentials),
                Some(true) => r matches Ok(info) && info.id@ == ar.uuid@ && info.username@
                    == ar.username@,
            },
        },
{
    let ar = match row {
        Some(ar) => ar,
        None => {
            return Err(AuthError::BadCredentials);
        },
    };
    match verify_password(&creds.password, &ar.password) {
        None => Err(AuthError::BadRequest),
        Some(false) => Err(AuthError::BadCredentials),
        Some(true) => Ok(UserInfo { id: ar.uuid.clone(), username: ar.username.clone() }),
    }
}

/// The expiry stamped into a token minted at this time: an hour ahead,
/// floored at the epoch.
pub open spec fn spec_token_exp(now: int) -> int {
    if now + 3600 < 0 {
        0
    } else {
        now + 3600
    }
}

/// Mints the signed session token for a user: the token of these
/// claims, expiring an hour after the given time.
pub fn create_token(user_info: &UserInfo, secret: &String, now: i64) -> (r: (String, u64))
    ensures
        r.1 as int == spec_token_exp(now as int),
        r.0@ == jwt_token_of(user_info.id@, user_info.username@, r.1 as int, secret@),
{
    let exp: u64 = if now < 0 {
        if now + 3600 < 0 {
            0u64
        } else {
            (now + 3600) as u64
        }
    } else {
        (now as u64) + 3600
    };
    let token = jwt_encode(&user_info.id, &user_info.username, exp, secret);
    (token, exp)
}

/// Mints a token against the clock: the expiry lies an hour after
/// whatever the clock read.
pub fn mint_token(user_info: &UserInfo, secret: &String) -> (r: (String, u64))
    ensures
        r.0@ == jwt_token_of(user_info.id@, user_info.username@, r.1 as int, secret@),
{
    let now = current_unix_time();
    create_token(user_info, secret, now)
}

/// The user id spoken for by a token: the token must verify against
/// the secret and its expiry must lie after the given time.
pub fn get_uuid_from_token(token: &String, secret: &String, now: i64) -> (r: Result<
    String,
    String,
>)
    ensures
        match jwt_claims_of(token@, secret@) {
            Some(c) => {
                if now < c.2 {
                    r matches Ok(id) && id@ == c.0
                } else {
                    r matches Err(e) && e@ == "INVALID TOKEN"@
                }
            },
            None => r matches Err(e) && e@ == "INVALID TOKEN"@,
        },
{
    match jwt_decode_claims(token, secret) {
        Some((id, _username, exp)) => {
            let live = if exp > i64::MAX as u64 {
                true
            } else {
                now < exp as i64
            };
            if live {
                Ok(id)
            } else {
                Err(String::from_str("INVALID TOKEN"))
            }
        },
        None => Err(String::from_str("INVALID TOKEN")),
    }
}

/// The reply an authentication attempt sends: a created session hands
/// the token back and points the client home; failures name what went
/// wrong.
pub fn auth_response(result: &Result<(String, String), AuthError>) -> (r: Response)
    ensures
        match result {
            Ok(p) => {
                &&& r.status == 201
                &&& r.body@ == vstd::utf8::encode_utf8("{\"token\":\""@ + p.1@ + "\"}"@)
                &&& header_views(r.headers@).len() == 3
                &&& header_views(r.headers@)[0].0 == "Content-Type"@
                &&& header_views(r.headers@)[0].1 == "application/json"@
                &&& header_views(r.headers@)[1].0 == "Content-Length"@
                &&& header_views(r.headers@)[2] == ("Location"@, "/home"@)
            },
            Err(AuthError::AlreadyExists) => r.status == 400 && r.body@ == spec_error_body(
                "Account already exists!"@,
            ),
            Err(AuthError::BadRequest) => r.status == 400 && r.body@ == Seq::<u8>::empty(),
            Err(AuthError::BadCredentials) => r.status == 400 && r.body@ == Seq::<u8>::empty(),
        },
{
    match result {
        Ok(p) => {
            let mut body = String::from_str("{\"token\":\"");
            body.append(p.1.as_str());
            body.append("\"}");
            let mut res = ok_json(201, body);
            add_header(&mut res, "Location", "/home");
            res
        },
        Err(AuthError::AlreadyExists) => bad_request_msg(
            String::from_str("Account already exists!"),
        ),
        Err(AuthError::BadRequest) => bad_request(),
        Err(AuthError::BadCredentials) => bad_request(),
    }
}

} // verus!
