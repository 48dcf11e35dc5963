//! Decisions of the script-execution server: access to functions, login
//! tokens, and how an execution's output stream is answered over HTTP,
//! server-sent events, websockets and gRPC.
use vstd::prelude::*;
use crate::text::{push_str, string_of, text_result};

verus! {

/// An API error: answered with status 500 and the root cause's message.
pub enum ApiError {
    Boxed(String),
}

impl ApiError {
    /// The HTTP status of the answer.
    pub fn status(&self) -> (s: u16)
        ensures
            s == 500,
    {
        500
    }

    /// The message of the answer.
    pub fn message(&self) -> (m: &String)
        ensures
            match self {
                ApiError::Boxed(cause) => m == cause,
            },
    {
        match self {
            ApiError::Boxed(cause) => cause,
        }
    }
}

/// Who may see a function.
#[derive(Clone, Copy, Debug, PartialEq, Eq, Structural)]
pub enum FunctionVisibility {
    Public,
    Internal,
    Private,
}

/// What a user may do with a function; each permission includes the ones
/// before it.
#[derive(Clone, Copy, Debug, PartialEq, Eq, Structural)]
pub enum FunctionPermission {
    Viewer,
    Editor,
    Owner,
}

/// The rank of a permission.
pub open spec fn permission_rank(p: FunctionPermission) -> int {
    match p {
        FunctionPermission::Viewer => 0,
        FunctionPermission::Editor => 1,
        FunctionPermission::Owner => 2,
    }
}

impl FunctionVisibility {
    /// The visibility's name.
    pub fn as_str(self) -> (s: &'static str)
        ensures
            s@ == (match self {
                FunctionVisibility::Public => "public"@,
                FunctionVisibility::Internal => "internal"@,
                FunctionVisibility::Private => "private"@,
            }),
    {
        match self {
            FunctionVisibility::Public => "public",
            FunctionVisibility::Internal => "internal",
            FunctionVisibility::Private => "private",
        }
    }
}

impl FunctionPermission {
    /// The permission's name.
    pub fn as_str(self) -> (s: &'static str)
        ensures
            s@ == (match self {
                FunctionPermission::Viewer => "viewer"@,
                FunctionPermission::Editor => "editor"@,
                FunctionPermission::Owner => "owner"@,
            }),
    {
        match self {
            FunctionPermission::Viewer => "viewer",
            FunctionPermission::Editor => "editor",
            FunctionPermission::Owner => "owner",
        }
    }

    /// Whether this permission includes `required`.
    pub fn includes(self, required: FunctionPermission) -> (b: bool)
        ensures
            b == (permission_rank(self) >= permission_rank(required)),
    {
        let a: u8 = match self {
            FunctionPermission::Viewer => 0,
            FunctionPermission::Editor => 1,
            FunctionPermission::Owner => 2,
        };
        let b: u8 = match required {
            FunctionPermission::Viewer => 0,
            FunctionPermission::Editor => 1,
            FunctionPermission::Owner => 2,
        };
        a >= b
    }
}

/// How a request for a function is decided.
#[derive(Clone, Copy, Debug, PartialEq, Eq, Structural)]
pub enum Access {
    Granted,
    Denied,
    /// Decided by the signed-in user's own permission on the function.
    ByMembership,
}

/// Decide access to a function: anyone may view a public function, any
/// signed-in user an internal one; anything else needs the user's own
/// permission; without a user it is denied.
pub fn access(required: FunctionPermission, visibility: FunctionVisibility, signed_in: bool) -> (a: Access)
    ensures
        a == (if required == FunctionPermission::Viewer && (visibility == FunctionVisibility::Public || (
        visibility == FunctionVisibility::Internal && signed_in)) {
            Access::Granted
        } else if signed_in {
            Access::ByMembership
        } else {
            Access::Denied
        }),
{
    match (required, visibility, signed_in) {
        (FunctionPermission::Viewer, FunctionVisibility::Public, _) => Access::Granted,
        (FunctionPermission::Viewer, FunctionVisibility::Internal, true) => Access::Granted,
        (_, _, true) => Access::ByMembership,
        _ => Access::Denied,
    }
}

/// Whether the user's own permission on a function (none if the user is no
/// member) allows `required`.
pub fn membership_allows(granted: Option<FunctionPermission>, required: FunctionPermission) -> (b: bool)
    ensures
        b == (match granted {
            Some(p) => permission_rank(p) >= permission_rank(required),
            None => false,
        }),
{
    match granted {
        Some(p) => p.includes(required),
        None => false,
    }
}

/// A user's own claims in a login token; it has none besides the subject.
#[derive(Clone, Copy, Debug, PartialEq, Eq, Structural)]
pub struct UserToken {}

/// The result of checking a request's login cookies.
pub enum VerifyStatus {
    /// A valid access token for this user.
    Verified(String, UserToken),
    /// No valid access token, but a valid refresh token for this user.
    Refresh(String),
    Invalid,
}

/// Decide from the subjects of the valid access and refresh tokens (`None`
/// where the cookie is absent or its token does not verify).
pub fn verify_status(access_subject: Option<String>, refresh_subject: Option<String>) -> (s: VerifyStatus)
    ensures
        match access_subject {
            Some(id) => s == VerifyStatus::Verified(id, UserToken {}),
            None => match refresh_subject {
                Some(id) => s == VerifyStatus::Refresh(id),
                None => s == VerifyStatus::Invalid,
            },
        },
{
    match access_subject {
        Some(id) => VerifyStatus::Verified(id, UserToken {}),
        None => match refresh_subject {
            Some(id) => VerifyStatus::Refresh(id),
            None => VerifyStatus::Invalid,
        },
    }
}

/// The standard claims of a login token.
pub struct UserBaseToken {
    pub sub: String,
    pub exp: i64,
    pub iat: i64,
    pub iss: String,
    pub nbf: i64,
}

/// Lifetime of an access token, in seconds.
pub const ACCESS_TOKEN_SECONDS: i64 = 900;

/// Lifetime of a refresh token, in seconds.
pub const REFRESH_TOKEN_SECONDS: i64 = 604800;

/// The earliest Unix time a token date can have.
pub const MIN_TIMESTAMP: i64 = -377705116800;

/// The latest Unix time a token date can have.
pub const MAX_TIMESTAMP: i64 = 253402300799;

/// The claims of a token for user `id` issued at Unix time `now`, valid for
/// `lifetime` seconds and accepted from one minute before `now`.
pub fn token_claims(id: String, now: i64, lifetime: i64) -> (c: UserBaseToken)
    requires
        0 <= lifetime,
        MIN_TIMESTAMP + 60 <= now,
        now + lifetime <= MAX_TIMESTAMP,
    ensures
        c.sub == id,
        c.exp == now + lifetime,
        c.iat == now,
        c.iss@ == "pkt"@,
        c.nbf == now - 60,
{
    UserBaseToken { sub: id, exp: now + lifetime, iat: now, iss: String::from_str("pkt"), nbf: now - 60 }
}

/// How a token is set as a cookie.
pub struct CookieSpec {
    pub name: String,
    pub value: String,
    pub path: String,
    /// Unix time at which the cookie expires.
    pub expires: i64,
    pub http_only: bool,
    pub secure: bool,
}

/// The cookie carrying an access token (or, with `refresh`, a refresh token).
pub fn token_cookie(value: String, expires: i64, secure: bool, refresh: bool) -> (c: CookieSpec)
    ensures
        c.name@ == (if refresh { "pkt-refresh-token"@ } else { "pkt-token"@ }),
        c.value == value,
        c.path@ == "/"@,
        c.expires == expires,
        c.http_only,
        c.secure == secure,
{
    let name = if refresh {
        String::from_str("pkt-refresh-token")
    } else {
        String::from_str("pkt-token")
    };
    CookieSpec { name, value, path: String::from_str("/"), expires, http_only: true, secure }
}

/// The token, or the error text, that `jsonwebtoken::encode` gives for the
/// default header (HS256) and the claims object with the members `sub`, `exp`,
/// `iat`, `iss` and `nbf`, in this order, signed with the HMAC secret `key`.
pub uninterp spec fn jwt_encoded(sub: Seq<char>, exp: i64, iat: i64, iss: Seq<char>, nbf: i64, key: Seq<u8>) -> Result<
    Seq<char>,
    Seq<char>,
>;

/// Sign `claims` with `jsonwebtoken::encode`, the default header and the HMAC
/// secret `key`; the claims are handed over as a `serde_json::Map` holding
/// their members in order. The token depends on the claims and the key alone.
#[verifier::external_body]
fn encode_claims(claims: &UserBaseToken, key: &[u8]) -> (r: Result<String, String>)
    ensures
        text_result(r) == jwt_encoded(claims.sub@, claims.exp, claims.iat, claims.iss@, claims.nbf, key@),
{
    let mut map = serde_json::Map::new();
    map.insert("sub".to_string(), serde_json::Value::from(claims.sub.as_str()));
    map.insert("exp".to_string(), serde_json::Value::from(claims.exp));
    map.insert("iat".to_string(), serde_json::Value::from(claims.iat));
    map.insert("iss".to_string(), serde_json::Value::from(claims.iss.as_str()));
    map.insert("nbf".to_string(), serde_json::Value::from(claims.nbf));
    let key = jsonwebtoken::EncodingKey::from_secret(key);
    jsonwebtoken::encode(&jsonwebtoken::Header::default(), &map, &key).map_err(|e| e.to_string())
}

/// The standard claims read from a token, each if present with its type.
pub struct TokenFields {
    pub sub: Option<String>,
    pub exp: Option<i64>,
    pub iat: Option<i64>,
    pub iss: Option<String>,
    pub nbf: Option<i64>,
}

/// The standard claims of a token, each if present with its type.
pub type ClaimsView = (Option<Seq<char>>, Option<i64>, Option<i64>, Option<Seq<char>>, Option<i64>);

/// The view of read claims.
pub open spec fn fields_view(f: TokenFields) -> ClaimsView {
    (
        match f.sub {
            Some(s) => Some(s@),
            None => None,
        },
        f.exp,
        f.iat,
        match f.iss {
            Some(s) => Some(s@),
            None => None,
        },
        f.nbf,
    )
}

/// The claims that `jsonwebtoken::decode` reads from `token` under the HMAC
/// secret `key` with the default validation except the expiry check (the
/// signature, the algorithm and the presence of `exp` are checked), or `None`
/// where it refuses the token.
pub uninterp spec fn jwt_claims(token: Seq<char>, key: Seq<u8>) -> Option<ClaimsView>;

/// Check `token` with `jsonwebtoken::decode`, the HMAC secret `key` and the
/// default validation with the expiry check left out (it reads the clock;
/// the caller checks the expiry), and read its claims as a `serde_json::Map`.
/// The result depends on the token and the key alone.
#[verifier::external_body]
fn decode_claims(token: &str, key: &[u8]) -> (r: Option<TokenFields>)
    ensures
        match r {
            Some(f) => jwt_claims(token@, key@) == Some(fields_view(f)),
            None => jwt_claims(token@, key@) is None,
        },
{
    let key = jsonwebtoken::DecodingKey::from_secret(key);
    let mut validation = jsonwebtoken::Validation::default();
    validation.validate_exp = false;
    let data = jsonwebtoken::decode::<serde_json::Map<String, serde_json::Value>>(token, &key, &validation).ok()?;
    let c = data.claims;
    Some(TokenFields {
        sub: c.get("sub").and_then(serde_json::Value::as_str).map(String::from),
        exp: c.get("exp").and_then(serde_json::Value::as_i64),
        iat: c.get("iat").and_then(serde_json::Value::as_i64),
        iss: c.get("iss").and_then(serde_json::Value::as_str).map(String::from),
        nbf: c.get("nbf").and_then(serde_json::Value::as_i64),
    })
}

/// Seconds of leeway a token keeps after its expiry.
pub const TOKEN_LEEWAY_SECONDS: u64 = 60;

/// Whether claims expiring at `exp` are still valid at Unix time `now`, with
/// the leeway.
pub open spec fn not_expired(exp: i64, now: u64) -> bool {
    exp >= 0 && exp >= now - TOKEN_LEEWAY_SECONDS
}

/// The subject of `token` under `key` at Unix time `now`: the token must
/// decode, hold every standard claim with its type and not be expired.
pub open spec fn token_subject(token: Seq<char>, key: Seq<u8>, now: u64) -> Option<Seq<char>> {
    match jwt_claims(token, key) {
        Some((Some(sub), Some(exp), Some(_), Some(_), Some(_))) => if not_expired(exp, now) {
            Some(sub)
        } else {
            None
        },
        _ => None,
    }
}

/// The subject of a cookie's token, if the cookie is there and its token accepted.
pub open spec fn cookie_subject(token: Option<&str>, key: Seq<u8>, now: u64) -> Option<Seq<char>> {
    match token {
        Some(t) => token_subject(t@, key, now),
        None => None,
    }
}

/// The subject of read claims at Unix time `now`: every standard claim must
/// be there with its type, and the claims must not be expired.
pub fn accepted_subject(fields: Option<TokenFields>, now: u64) -> (s: Option<String>)
    requires
        now >= TOKEN_LEEWAY_SECONDS,
    ensures
        match fields {
            Some(f) => match (f.sub, f.exp, f.iat, f.iss, f.nbf) {
                (Some(sub), Some(exp), Some(_), Some(_), Some(_)) => if not_expired(exp, now) {
                    s == Some(sub)
                } else {
                    s is None
                },
                _ => s is None,
            },
            None => s is None,
        },
{
    match fields {
        Some(f) => match (f.sub, f.exp, f.iat, f.iss, f.nbf) {
            (Some(sub), Some(exp), Some(_), Some(_), Some(_)) => {
                if exp >= 0 && exp as u64 >= now - TOKEN_LEEWAY_SECONDS {
                    Some(sub)
                } else {
                    None
                }
            },
            _ => None,
        },
        None => None,
    }
}

/// Signs and checks login cookies with one HMAC secret.
pub struct UserTokenSigner {
    secure: bool,
    key: Vec<u8>,
}

impl UserTokenSigner {
    /// Whether the cookies are only sent over HTTPS.
    pub closed spec fn secure(&self) -> bool {
        self.secure
    }

    /// The HMAC secret.
    pub closed spec fn key(&self) -> Seq<u8> {
        self.key@
    }

    /// A signer with the secret `key`.
    pub fn new(key: &[u8], secure: bool) -> (s: Self)
        ensures
            s.secure() == secure,
            s.key() == key@,
    {
        UserTokenSigner { secure, key: vstd::slice::slice_to_vec(key) }
    }

    fn cookie(&self, id: String, now: i64, lifetime: i64, refresh: bool) -> (r: Result<CookieSpec, String>)
        requires
            0 <= lifetime,
            MIN_TIMESTAMP + 60 <= now,
            now + lifetime <= MAX_TIMESTAMP,
        ensures
            signed_cookie(r, id@, now, lifetime, self.key(), self.secure(), refresh),
    {
        let claims = token_claims(id, now, lifetime);
        match encode_claims(&claims, self.key.as_slice()) {
            Ok(token) => Ok(token_cookie(token, claims.exp, self.secure, refresh)),
            Err(e) => Err(e),
        }
    }

    /// The access-token cookie for user `id`, signed at Unix time `now` and
    /// valid for fifteen minutes.
    pub fn sign(&self, id: String, token: UserToken, now: i64) -> (r: Result<CookieSpec, String>)
        requires
            MIN_TIMESTAMP + 60 <= now,
            now + ACCESS_TOKEN_SECONDS <= MAX_TIMESTAMP,
        ensures
            signed_cookie(r, id@, now, ACCESS_TOKEN_SECONDS, self.key(), self.secure(), false),
    {
        self.cookie(id, now, ACCESS_TOKEN_SECONDS, false)
    }

    /// The refresh-token cookie for user `id`, signed at Unix time `now` and
    /// valid for a week.
    pub fn sign_refresh(&self, id: String, now: i64) -> (r: Result<CookieSpec, String>)
        requires
            MIN_TIMESTAMP + 60 <= now,
            now + REFRESH_TOKEN_SECONDS <= MAX_TIMESTAMP,
        ensures
            signed_cookie(r, id@, now, REFRESH_TOKEN_SECONDS, self.key(), self.secure(), true),
    {
        self.cookie(id, now, REFRESH_TOKEN_SECONDS, true)
    }

    /// The subject of a cookie's token at Unix time `now`, if the cookie is
    /// there and its token accepted.
    fn cookie_subject(&self, token: Option<&str>, now: u64) -> (s: Option<String>)
        requires
            now >= TOKEN_LEEWAY_SECONDS,
        ensures
            match s {
                Some(id) => cookie_subject(token, self.key(), now) == Some(id@),
                None => cookie_subject(token, self.key(), now) is None,
            },
    {
        match token {
            Some(t) => accepted_subject(decode_claims(t, self.key.as_slice()), now),
            None => None,
        }
    }

    /// Check the values of the `pkt-token` and `pkt-refresh-token` cookies at
    /// Unix time `now`: the access token is checked first, the refresh token
    /// only where the access token is not accepted.
    pub fn verify(&self, access: Option<&str>, refresh: Option<&str>, now: u64) -> (s: VerifyStatus)
        requires
            now >= TOKEN_LEEWAY_SECONDS,
        ensures
            match cookie_subject(access, self.key(), now) {
                Some(id) => s matches VerifyStatus::Verified(x, _) && x@ == id,
                None => match cookie_subject(refresh, self.key(), now) {
                    Some(id) => s matches VerifyStatus::Refresh(x) && x@ == id,
                    None => s is Invalid,
                },
            },
    {
        let accepted = self.cookie_subject(access, now);
        let refreshed = match accepted {
            Some(_) => None,
            None => self.cookie_subject(refresh, now),
        };
        verify_status(accepted, refreshed)
    }
}

/// `r` is the cookie for user `id` signed at `now` for `lifetime` seconds
/// with the secret `key`: the token's value, or the signing error.
pub open spec fn signed_cookie(
    r: Result<CookieSpec, String>,
    id: Seq<char>,
    now: i64,
    lifetime: i64,
    key: Seq<u8>,
    secure: bool,
    refresh: bool,
) -> bool {
    match jwt_encoded(id, (now + lifetime) as i64, now, "pkt"@, (now - 60) as i64, key) {
        Ok(token) => r matches Ok(c) && {
            &&& c.name@ == (if refresh { "pkt-refresh-token"@ } else { "pkt-token"@ })
            &&& c.value@ == token
            &&& c.path@ == "/"@
            &&& c.expires == now + lifetime
            &&& c.http_only
            &&& c.secure == secure
        },
        Err(e) => r matches Err(m) && m@ == e,
    }
}

/// Query of the login callback.
pub struct LoginQuery {
    pub code: String,
    pub state: Option<String>,
}

impl LoginQuery {
    /// Where to go once logged in: the state passed through the login, or the root.
    pub fn redirect_target(&self) -> (t: String)
        ensures
            match self.state {
                Some(s) => t == s,
                None => t@ == "/"@,
            },
    {
        match &self.state {
            Some(s) => s.clone(),
            None => String::from_str("/"),
        }
    }
}

/// One item of an execution's output.
pub enum ExecItem {
    /// A partial result, as JSON.
    Data(String),
    /// The end, with the final result if there is one.
    End(Option<String>),
    Error(String),
}

/// How an execution without tracing is answered, by its first item.
pub enum FirstResponse {
    /// 200 with this JSON body.
    Json(String),
    /// 204.
    NoContent,
    /// A stream of server-sent events, starting with this partial result.
    Stream(String),
    /// 500 with this message.
    Failed(String),
}

/// Answer an execution by its first item (`None` if it produced nothing).
pub fn first_response(first: Option<ExecItem>) -> (r: FirstResponse)
    ensures
        match first {
            Some(ExecItem::End(Some(d))) => r == FirstResponse::Json(d),
            Some(ExecItem::End(None)) => r == FirstResponse::NoContent,
            Some(ExecItem::Data(d)) => r == FirstResponse::Stream(d),
            Some(ExecItem::Error(e)) => r == FirstResponse::Failed(e),
            None => r == FirstResponse::NoContent,
        },
{
    match first {
        Some(ExecItem::End(Some(d))) => FirstResponse::Json(d),
        Some(ExecItem::End(None)) => FirstResponse::NoContent,
        Some(ExecItem::Data(d)) => FirstResponse::Stream(d),
        Some(ExecItem::Error(e)) => FirstResponse::Failed(e),
        None => FirstResponse::NoContent,
    }
}

/// The data of the server-sent event for an output item: results as they
/// are, the end without a result as `[DONE]`; an error ends the stream.
pub fn exec_to_event(item: ExecItem) -> (r: Result<String, String>)
    ensures
        match item {
            ExecItem::Data(d) => r == Ok::<String, String>(d),
            ExecItem::End(Some(d)) => r == Ok::<String, String>(d),
            ExecItem::End(None) => r matches Ok(s) && s@ == "[DONE]"@,
            ExecItem::Error(e) => r == Err::<String, String>(e),
        },
{
    match item {
        ExecItem::Data(d) => Ok(d),
        ExecItem::End(Some(d)) => Ok(d),
        ExecItem::End(None) => Ok(String::from_str("[DONE]")),
        ExecItem::Error(e) => Err(e),
    }
}

/// Seconds an execution may take, 5 unless given.
pub fn exec_timeout_secs(timeout: Option<u64>) -> (s: u64)
    ensures
        s == (match timeout {
            Some(t) => t,
            None => 5,
        }),
{
    match timeout {
        Some(t) => t,
        None => 5,
    }
}

/// The JSON value that `s` holds as `serde_json::value::RawValue::from_string`
/// keeps it (without the whitespace around it), or `None` if `s` is not one
/// JSON value.
pub uninterp spec fn raw_json(s: Seq<char>) -> Option<Seq<char>>;

/// Read `s` as one JSON value with `serde_json::value::RawValue::from_string`
/// and give its text. The result depends on the text alone.
#[verifier::external_body]
pub(crate) fn raw_json_text(s: &str) -> (r: Option<String>)
    ensures
        match r {
            Some(t) => raw_json(s@) == Some(t@),
            None => raw_json(s@) is None,
        },
{
    serde_json::value::RawValue::from_string(s.to_string()).ok().map(|v| v.get().to_string())
}

/// A message a websocket client sent.
pub enum WsInput {
    Text(String),
    /// A message that is not text, a receive error, or the end of the connection.
    Other,
}

/// What to do with a websocket client's message.
pub enum InputStep {
    /// Pass this JSON value, without the whitespace around it, to the execution.
    Forward(String),
    /// The client sent `[DONE]`: the input ends.
    Done,
    /// The input is invalid.
    Fail(String),
}

/// Decide on a websocket client's message: `[DONE]` ends the input, any other
/// text must be JSON.
pub fn input_step(msg: WsInput) -> (r: InputStep)
    ensures
        match msg {
            WsInput::Text(t) => if t@ == "[DONE]"@ {
                r is Done
            } else {
                match raw_json(t@) {
                    Some(v) => r matches InputStep::Forward(f) && f@ == v,
                    None => r matches InputStep::Fail(m) && m@ == "invalid message"@,
                }
            },
            WsInput::Other => r matches InputStep::Fail(m) && m@ == "invalid message"@,
        },
{
    match msg {
        WsInput::Text(t) => {
            if crate::text::str_eq(t.as_str(), "[DONE]") {
                InputStep::Done
            } else {
                match raw_json_text(t.as_str()) {
                    Some(v) => InputStep::Forward(v),
                    None => InputStep::Fail(String::from_str("invalid message")),
                }
            }
        },
        WsInput::Other => InputStep::Fail(String::from_str("invalid message")),
    }
}

/// What to do with an output item on a websocket.
pub enum WsStep {
    /// Send this text and go on.
    Send(String),
    /// Send this text, if any, and finish.
    Finish(Option<String>),
    /// Finish with this error.
    Fail(String),
}

/// A result framed for a traced websocket: `{"data":<result>}`.
pub open spec fn data_frame(d: Seq<char>) -> Seq<char> {
    "{\"data\":"@ + d + "}"@
}

/// The text sent for a result: as it is, or, when traces are sent too, its
/// JSON value framed (`None` if it is not JSON).
pub open spec fn ws_text(d: Seq<char>, traced: bool) -> Option<Seq<char>> {
    if traced {
        match raw_json(d) {
            Some(v) => Some(data_frame(v)),
            None => None,
        }
    } else {
        Some(d)
    }
}

/// Frame a result; it must be JSON to be embedded.
fn frame(d: String, traced: bool) -> (r: Option<String>)
    ensures
        match ws_text(d@, traced) {
            Some(t) => r matches Some(x) && x@ == t,
            None => r is None,
        },
{
    if !traced {
        return Some(d);
    }
    let v = match raw_json_text(d.as_str()) {
        Some(v) => v,
        None => return None,
    };
    let mut out: Vec<char> = Vec::new();
    push_str(&mut out, "{\"data\":");
    push_str(&mut out, v.as_str());
    push_str(&mut out, "}");
    Some(string_of(&out))
}

/// Decide on an output item on a websocket; `None` where a traced result is
/// not JSON and cannot be framed.
pub fn ws_step(item: ExecItem, traced: bool) -> (r: Option<WsStep>)
    ensures
        match item {
            ExecItem::Data(d) => match ws_text(d@, traced) {
                Some(x) => r matches Some(WsStep::Send(t)) && t@ == x,
                None => r is None,
            },
            ExecItem::End(Some(d)) => match ws_text(d@, traced) {
                Some(x) => r matches Some(WsStep::Finish(Some(t))) && t@ == x,
                None => r is None,
            },
            ExecItem::End(None) => r matches Some(WsStep::Finish(None)),
            ExecItem::Error(e) => r == Some(WsStep::Fail(e)),
        },
{
    match item {
        ExecItem::Data(d) => match frame(d, traced) {
            Some(t) => Some(WsStep::Send(t)),
            None => None,
        },
        ExecItem::End(Some(d)) => match frame(d, traced) {
            Some(t) => Some(WsStep::Finish(Some(t))),
            None => None,
        },
        ExecItem::End(None) => Some(WsStep::Finish(None)),
        ExecItem::Error(e) => Some(WsStep::Fail(e)),
    }
}

/// Normal closure.
pub const CLOSE_NORMAL: u16 = 1000;

/// The request cannot be handled.
pub const CLOSE_UNSUPPORTED: u16 = 1003;

/// Abnormal closure.
pub const CLOSE_ABNORMAL: u16 = 1006;

/// The close frame of a websocket execution: `None` if the first message was
/// not a valid request, else how the execution ended.
pub fn close_frame(outcome: Option<Result<(), String>>) -> (r: (u16, String))
    ensures
        match outcome {
            None => r.0 == CLOSE_UNSUPPORTED && r.1@ == "invalid request"@,
            Some(Err(e)) => r.0 == CLOSE_ABNORMAL && r.1 == e,
            Some(Ok(())) => r.0 == CLOSE_NORMAL && r.1@ == Seq::<char>::empty(),
        },
{
    match outcome {
        None => (CLOSE_UNSUPPORTED, String::from_str("invalid request")),
        Some(Err(e)) => (CLOSE_ABNORMAL, e),
        Some(Ok(())) => (CLOSE_NORMAL, String::new()),
    }
}

/// A stream of server-sent events answering a request.
pub struct StreamResponse<S>(pub S);

/// What a stream of events passes on after one poll.
pub enum UntilError<T> {
    Pending,
    Event(T),
    /// An `error` event carrying this message; the stream ends after it.
    ErrorEvent(String),
    End,
}

/// A stream of events that ends at its first error, which it turns into an
/// `error` event.
pub struct StreamUntilError {
    open: bool,
}

impl StreamUntilError {
    /// Whether the wrapped stream is still polled.
    pub closed spec fn is_open(&self) -> bool {
        self.open
    }

    /// A stream that has not failed.
    pub fn new() -> (s: Self)
        ensures
            s.is_open(),
    {
        StreamUntilError { open: true }
    }

    /// Whether to poll the wrapped stream; once it failed, the stream has ended.
    pub fn polls(&self) -> (b: bool)
        ensures
            b == self.is_open(),
    {
        self.open
    }

    /// Handle one poll of the wrapped stream.
    pub fn on_poll<T>(&mut self, polled: crate::instrument::Polled<T, String>) -> (r: UntilError<T>)
        requires
            old(self).is_open(),
        ensures
            match polled {
                crate::instrument::Polled::Pending => r is Pending && final(self).is_open(),
                crate::instrument::Polled::Item(e) => r == UntilError::Event(e) && final(self).is_open(),
                crate::instrument::Polled::Failed(m) => r == UntilError::<T>::ErrorEvent(m) && !final(self).is_open(),
                crate::instrument::Polled::End => r is End && final(self).is_open(),
            },
    {
        match polled {
            crate::instrument::Polled::Pending => UntilError::Pending,
            crate::instrument::Polled::Item(e) => UntilError::Event(e),
            crate::instrument::Polled::Failed(m) => {
                self.open = false;
                UntilError::ErrorEvent(m)
            },
            crate::instrument::Polled::End => UntilError::End,
        }
    }
}

/// The response stream of a server-streaming execution.
pub struct ExecuteServerStreamStream;

/// The response stream of a bidirectional execution.
pub struct ExecuteStreamStream;

/// A gRPC status code the server answers with.
#[derive(Clone, Copy, Debug, PartialEq, Eq, Structural)]
pub enum StatusCode {
    InvalidArgument,
    Internal,
}

/// A gRPC error status.
pub struct Status {
    pub code: StatusCode,
    pub message: String,
}

/// The view of a status: its code and message.
pub open spec fn status_view(s: Status) -> (StatusCode, Seq<char>) {
    (s.code, s.message@)
}

/// The view of an output item.
pub enum ItemView {
    Data(Seq<char>),
    End(Option<Seq<char>>),
    Error(Seq<char>),
}

/// The view of an output item.
pub open spec fn item_view(i: ExecItem) -> ItemView {
    match i {
        ExecItem::Data(d) => ItemView::Data(d@),
        ExecItem::End(Some(d)) => ItemView::End(Some(d@)),
        ExecItem::End(None) => ItemView::End(None),
        ExecItem::Error(e) => ItemView::Error(e@),
    }
}

/// The views of output items.
pub open spec fn items_view(s: Seq<ExecItem>) -> Seq<ItemView> {
    s.map_values(|i: ExecItem| item_view(i))
}

/// The result of joining partial results from `i` on, after `acc`: each is
/// preceded by `[` (the first) or `,`; the end without a result stops.
pub open spec fn join_from(items: Seq<ItemView>, i: int, acc: Seq<char>) -> Result<Seq<char>, (StatusCode, Seq<char>)>
    decreases items.len() - i,
{
    if i < 0 || i >= items.len() {
        Ok(acc)
    } else {
        match items[i] {
            ItemView::Data(d) => join_from(items, i + 1, acc + (if i > 0 { ","@ } else { "["@ }) + d),
            ItemView::End(None) => Ok(acc),
            ItemView::End(Some(_)) => Err((StatusCode::Internal, "unexpected end with data"@)),
            ItemView::Error(e) => Err((StatusCode::Internal, e)),
        }
    }
}

/// The JSON result of an execution answered at once: a lone end item gives
/// its result (or `[]`); otherwise the partial results up to the first end
/// are joined with `,` between `[` and `]`. With no items at all there is no
/// opening bracket, and the text is `]` alone.
pub open spec fn joined_result(items: Seq<ItemView>) -> Result<Seq<char>, (StatusCode, Seq<char>)> {
    if items.len() == 1 {
        match items[0] {
            ItemView::End(Some(v)) => Ok(v),
            ItemView::End(None) => Ok("[]"@),
            ItemView::Data(_) => Err((StatusCode::Internal, "unexpected data"@)),
            ItemView::Error(e) => Err((StatusCode::Internal, e)),
        }
    } else {
        match join_from(items, 0, Seq::empty()) {
            Ok(s) => Ok(s + "]"@),
            Err(e) => Err(e),
        }
    }
}

/// The JSON text of an execution's whole output.
pub fn non_stream_result(items: Vec<ExecItem>) -> (r: Result<String, Status>)
    ensures
        match r {
            Ok(s) => joined_result(items_view(items@)) == Ok::<Seq<char>, (StatusCode, Seq<char>)>(s@),
            Err(st) => joined_result(items_view(items@)) == Err::<Seq<char>, (StatusCode, Seq<char>)>(status_view(st)),
        },
{
    let ghost v = items_view(items@);
    if items.len() == 1 {
        let mut items = items;
        let item = items.pop().unwrap();
        proof {
            assert(item_view(item) == v[0]);
        }
        return match item {
            ExecItem::End(Some(value)) => Ok(value),
            ExecItem::End(None) => Ok(String::from_str("[]")),
            ExecItem::Data(_) => Err(Status { code: StatusCode::Internal, message: String::from_str("unexpected data") }),
            ExecItem::Error(e) => Err(Status { code: StatusCode::Internal, message: e }),
        };
    }
    let mut out: Vec<char> = Vec::new();
    let mut i: usize = 0;
    let n = items.len();
    while i < n
        invariant
            n == items@.len(),
            n != 1,
            v == items_view(items@),
            i <= n,
            join_from(v, 0, Seq::empty()) == join_from(v, i as int, out@),
        ensures
            join_from(v, 0, Seq::empty()) == Ok::<Seq<char>, (StatusCode, Seq<char>)>(out@),
        decreases n - i,
    {
        proof {
            assert(item_view(items@[i as int]) == v[i as int]);
        }
        match &items[i] {
            ExecItem::Data(d) => {
                let ghost before = out@;
                if i > 0 {
                    out.push(',');
                } else {
                    out.push('[');
                }
                push_str(&mut out, d.as_str());
                proof {
                    reveal_strlit(",");
                    reveal_strlit("[");
                    let sep = if i > 0 { ","@ } else { "["@ };
                    assert(out@ =~= before + sep + d@);
                }
            },
            ExecItem::End(None) => {
                break;
            },
            ExecItem::End(Some(_)) => {
                return Err(Status {
                    code: StatusCode::Internal,
                    message: String::from_str("unexpected end with data"),
                });
            },
            ExecItem::Error(e) => {
                return Err(Status { code: StatusCode::Internal, message: e.clone() });
            },
        }
        i = i + 1;
    }
    let ghost joined = out@;
    out.push(']');
    proof {
        reveal_strlit("]");
        assert(out@ =~= joined + "]"@);
    }
    Ok(string_of(&out))
}

/// How a result is to be returned.
#[derive(Clone, Copy, Debug, PartialEq, Eq, Structural)]
pub enum ContentType {
    Unspecified,
    Json,
    ProtobufValue,
}

/// The first acceptable content type the client asked for (unknown codes and
/// `Unspecified` are skipped), else a protobuf value.
pub open spec fn chosen_content_type(types: Seq<Option<ContentType>>) -> ContentType
    decreases types.len(),
{
    if types.len() == 0 {
        ContentType::ProtobufValue
    } else {
        match types[0] {
            Some(ContentType::Json) => ContentType::Json,
            Some(ContentType::ProtobufValue) => ContentType::ProtobufValue,
            _ => chosen_content_type(types.skip(1)),
        }
    }
}

/// The first preference naming JSON or a protobuf value decides; a protobuf
/// value is answered when none does.
pub proof fn lemma_first_known_preference(types: Seq<Option<ContentType>>)
    ensures
        forall|k: int| 0 <= k < types.len() && (#[trigger] types[k] == Some(ContentType::Json) || types[k] == Some(ContentType::ProtobufValue))
            && (forall|j: int| 0 <= j < k ==> !(#[trigger] types[j] == Some(ContentType::Json) || types[j] == Some(ContentType::ProtobufValue)))
            ==> Some(chosen_content_type(types)) == types[k],
        (forall|j: int| 0 <= j < types.len() ==> !(#[trigger] types[j] == Some(ContentType::Json) || types[j] == Some(ContentType::ProtobufValue)))
            ==> chosen_content_type(types) == ContentType::ProtobufValue,
    decreases types.len(),
{
    if types.len() > 0 {
        let rest = types.skip(1);
        lemma_first_known_preference(rest);
        assert forall|j: int| 0 <= j < rest.len() implies rest[j] == types[j + 1] by {}
        assert forall|k: int| 0 <= k < types.len() && (#[trigger] types[k] == Some(ContentType::Json) || types[k] == Some(ContentType::ProtobufValue))
            && (forall|j: int| 0 <= j < k ==> !(#[trigger] types[j] == Some(ContentType::Json) || types[j] == Some(ContentType::ProtobufValue)))
            implies Some(chosen_content_type(types)) == types[k] by {
            if k > 0 {
                assert(!(types[0] == Some(ContentType::Json) || types[0] == Some(ContentType::ProtobufValue)));
                assert((rest[k - 1] == Some(ContentType::Json) || rest[k - 1] == Some(ContentType::ProtobufValue)));
                assert forall|j: int| 0 <= j < k - 1 implies !(#[trigger] rest[j] == Some(ContentType::Json) || rest[j] == Some(ContentType::ProtobufValue)) by {
                    assert(!(types[j + 1] == Some(ContentType::Json) || types[j + 1] == Some(ContentType::ProtobufValue)));
                }
            }
        }
        if forall|j: int| 0 <= j < types.len() ==> !(#[trigger] types[j] == Some(ContentType::Json) || types[j] == Some(ContentType::ProtobufValue)) {
            assert(!(types[0] == Some(ContentType::Json) || types[0] == Some(ContentType::ProtobufValue)));
            assert forall|j: int| 0 <= j < rest.len() implies !(#[trigger] rest[j] == Some(ContentType::Json) || rest[j] == Some(ContentType::ProtobufValue)) by {
                assert(!(types[j + 1] == Some(ContentType::Json) || types[j + 1] == Some(ContentType::ProtobufValue)));
            }
        }
    }
}

/// Choose how to return a result; `types` are the client's preferences in
/// order, `None` for a code this server does not know.
pub fn result_content_type(types: &Vec<Option<ContentType>>) -> (c: ContentType)
    ensures
        c == chosen_content_type(types@),
        c != ContentType::Unspecified,
        forall|k: int| 0 <= k < types@.len() && (#[trigger] types@[k] == Some(ContentType::Json) || types@[k] == Some(ContentType::ProtobufValue))
            && (forall|j: int| 0 <= j < k ==> !(#[trigger] types@[j] == Some(ContentType::Json) || types@[j] == Some(ContentType::ProtobufValue))) ==> Some(c) == types@[k],
        (forall|j: int| 0 <= j < types@.len() ==> !(#[trigger] types@[j] == Some(ContentType::Json) || types@[j] == Some(ContentType::ProtobufValue))) ==> c
            == ContentType::ProtobufValue,
{
    proof {
        lemma_first_known_preference(types@);
    }
    let mut i: usize = 0;
    proof {
        assert(types@.skip(0) =~= types@);
    }
    while i < types.len()
        invariant
            i <= types@.len(),
            chosen_content_type(types@) == chosen_content_type(types@.skip(i as int)),
        decreases types@.len() - i,
    {
        proof {
            assert(types@.skip(i as int)[0] == types@[i as int]);
            assert(types@.skip(i as int).skip(1) =~= types@.skip(i + 1));
        }
        match types[i] {
            Some(ContentType::Json) => {
                proof {
                    lemma_first_known_preference(types@);
                }
                return ContentType::Json;
            },
            Some(ContentType::ProtobufValue) => {
                proof {
                    lemma_first_known_preference(types@);
                }
                return ContentType::ProtobufValue;
            },
            _ => {},
        }
        i = i + 1;
    }
    proof {
        assert(types@.skip(i as int) =~= Seq::<Option<ContentType>>::empty());
        lemma_chosen_is_specified(types@);
    }
    ContentType::ProtobufValue
}

/// The chosen content type is never `Unspecified`.
proof fn lemma_chosen_is_specified(types: Seq<Option<ContentType>>)
    ensures
        chosen_content_type(types) != ContentType::Unspecified,
    decreases types.len(),
{
    if types.len() > 0 {
        lemma_chosen_is_specified(types.skip(1));
    }
}

/// Code given inline, with the function to call.
pub struct InlineSource {
    pub code: String,
    pub method: String,
}

/// The code and function of an execution request; the source must be given.
pub fn parse_source(source: &Option<Option<InlineSource>>) -> (r: Result<(&String, &String), Status>)
    ensures
        match *source {
            Some(Some(s)) => r matches Ok((c, m)) && *c == s.code && *m == s.method,
            _ => r matches Err(st) && st.code == StatusCode::InvalidArgument && st.message@
                == "source type is not specified"@,
        },
{
    match source {
        Some(Some(s)) => Ok((&s.code, &s.method)),
        _ => Err(Status {
            code: StatusCode::InvalidArgument,
            message: String::from_str("source type is not specified"),
        }),
    }
}

/// The result carried by one message of a server-streaming execution: a
/// result, none at the end, or the error status.
pub fn stream_item_result(item: ExecItem) -> (r: Result<Option<String>, Status>)
    ensures
        match item {
            ExecItem::Data(d) => r == Ok::<Option<String>, Status>(Some(d)),
            ExecItem::End(Some(d)) => r == Ok::<Option<String>, Status>(Some(d)),
            ExecItem::End(None) => r == Ok::<Option<String>, Status>(None),
            ExecItem::Error(e) => r matches Err(st) && st.code == StatusCode::Internal && st.message == e,
        },
{
    match item {
        ExecItem::Data(d) => Ok(Some(d)),
        ExecItem::End(Some(d)) => Ok(Some(d)),
        ExecItem::End(None) => Ok(None),
        ExecItem::Error(e) => Err(Status { code: StatusCode::Internal, message: e }),
    }
}

/// What a recorded trace event is about.
pub enum TraceEventKind {
    Log { content: String },
    Event { parent_id: Option<i16>, kind: String, data: Option<String> },
    SpanBegin { parent_id: Option<i16>, kind: String, data: Option<String> },
    SpanEnd { parent_id: i16, data: Option<String> },
}

/// A trace event recorded during an execution; `micros` counts from the
/// execution's start.
pub struct TraceEvent {
    pub id: i16,
    pub group: String,
    pub micros: u64,
    pub kind: TraceEventKind,
}

/// A point in time as seconds and nanoseconds since the Unix epoch.
#[derive(Clone, Copy, Debug, PartialEq, Eq, Structural)]
pub struct TraceTimestamp {
    pub seconds: i64,
    pub nanos: i32,
}

/// What a trace is about, as sent to clients; `data` holds `attr` when the
/// event carried data.
pub enum TraceType {
    Log { content: String },
    Event { parent_id: i32, kind: String, data: Vec<(String, String)> },
    SpanBegin { parent_id: i32, kind: String, data: Vec<(String, String)> },
    SpanEnd { parent_id: i32, data: Vec<(String, String)> },
}

/// A trace as sent to clients.
pub struct Trace {
    pub id: i32,
    pub group: String,
    pub timestamp: TraceTimestamp,
    pub trace_type: TraceType,
}

/// Nanoseconds in a second.
pub const NANOS_PER_SECOND: u64 = 1_000_000_000;

/// Whole seconds of the instant `micros` after `start_secs` s + `start_nanos` ns.
pub open spec fn offset_seconds(start_secs: u64, start_nanos: u32, micros: u64) -> int {
    start_secs + micros / 1_000_000 + (start_nanos + (micros % 1_000_000) * 1000) / 1_000_000_000
}

/// Nanoseconds past the whole second of that instant.
pub open spec fn offset_nanos(start_secs: u64, start_nanos: u32, micros: u64) -> int {
    (start_nanos + (micros % 1_000_000) * 1000) % 1_000_000_000
}

/// The timestamp of an event `micros` after the start.
pub fn trace_timestamp(start_secs: u64, start_nanos: u32, micros: u64) -> (t: TraceTimestamp)
    requires
        start_nanos < NANOS_PER_SECOND,
        offset_seconds(start_secs, start_nanos, micros) <= u64::MAX,
    ensures
        t.seconds == offset_seconds(start_secs, start_nanos, micros) as u64 as i64,
        t.nanos == offset_nanos(start_secs, start_nanos, micros),
{
    let sub_nanos: u64 = start_nanos as u64 + (micros % 1_000_000) * 1000;
    let seconds: u64 = start_secs + micros / 1_000_000 + sub_nanos / NANOS_PER_SECOND;
    let nanos: u64 = sub_nanos % NANOS_PER_SECOND;
    TraceTimestamp { seconds: seconds as i64, nanos: nanos as i32 }
}

/// `m` holds the `attr` entry for an event's data, if it carried any.
pub open spec fn is_attr_data(data: Option<String>, m: Seq<(String, String)>) -> bool {
    match data {
        None => m.len() == 0,
        Some(d) => m.len() == 1 && m[0].0@ == "attr"@ && m[0].1 == d,
    }
}

/// The `attr` entry for an event's data, if it carried any.
pub fn attr_data(data: Option<String>) -> (m: Vec<(String, String)>)
    ensures
        is_attr_data(data, m@),
{
    let mut m: Vec<(String, String)> = Vec::new();
    if let Some(d) = data {
        m.push((String::from_str("attr"), d));
    }
    m
}

/// Convert a recorded trace event for clients: ids widen, a missing parent is
/// 0, the time is taken from the execution's start (`start_secs` s +
/// `start_nanos` ns after the epoch).
pub fn trace_convert(event: TraceEvent, start_secs: u64, start_nanos: u32) -> (t: Trace)
    requires
        start_nanos < NANOS_PER_SECOND,
        offset_seconds(start_secs, start_nanos, event.micros) <= u64::MAX,
    ensures
        t.id == event.id as i32,
        t.group == event.group,
        t.timestamp.seconds == offset_seconds(start_secs, start_nanos, event.micros) as u64 as i64,
        t.timestamp.nanos == offset_nanos(start_secs, start_nanos, event.micros),
        match event.kind {
            TraceEventKind::Log { content } => t.trace_type == TraceType::Log { content },
            TraceEventKind::Event { parent_id, kind, data } => t.trace_type matches TraceType::Event {
                parent_id: p,
                kind: k,
                data: m,
            } && p == (match parent_id {
                Some(x) => x as i32,
                None => 0,
            }) && k == kind && is_attr_data(data, m@),
            TraceEventKind::SpanBegin { parent_id, kind, data } => t.trace_type matches TraceType::SpanBegin {
                parent_id: p,
                kind: k,
                data: m,
            } && p == (match parent_id {
                Some(x) => x as i32,
                None => 0,
            }) && k == kind && is_attr_data(data, m@),
            TraceEventKind::SpanEnd { parent_id, data } => t.trace_type matches TraceType::SpanEnd {
                parent_id: p,
                data: m,
            } && p == parent_id as i32 && is_attr_data(data, m@),
        },
{
    let timestamp = trace_timestamp(start_secs, start_nanos, event.micros);
    let trace_type = match event.kind {
        TraceEventKind::Log { content } => TraceType::Log { content },
        TraceEventKind::Event { parent_id, kind, data } => TraceType::Event {
            parent_id: match parent_id {
                Some(x) => x as i32,
                None => 0,
            },
            kind,
            data: attr_data(data),
        },
        TraceEventKind::SpanBegin { parent_id, kind, data } => TraceType::SpanBegin {
            parent_id: match parent_id {
                Some(x) => x as i32,
                None => 0,
            },
            kind,
            data: attr_data(data),
        },
        TraceEventKind::SpanEnd { parent_id, data } => TraceType::SpanEnd { parent_id: parent_id as i32, data: attr_data(data) },
    };
    Trace { id: event.id as i32, group: event.group, timestamp, trace_type }
}

} // verus!
