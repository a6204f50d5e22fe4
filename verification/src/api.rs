//! What the Chloride API sends back, where each request goes, and the token
//! bookkeeping around a request: which token to send, when to trade the
//! refresh token for a new one, and how a failed reply is reported. Sending
//! the requests is done outside.

use vstd::prelude::*;

use crate::config::{copy_opt, Config, UserInfo};
use crate::paths::{trim_slashes, trim_trailing_slashes};
use crate::search::{contains_seq, find_seq};
use crate::text::{chars_of, push_signed, push_str, signed_decimal};

verus! {

/// What a login or a sign-up returns.
pub struct AuthResult {
    pub token: String,
    pub refresh_token: String,
    pub user: UserInfo,
}

/// A file stored on the server.
#[derive(Clone, Debug)]
pub struct RemoteFile {
    pub id: i64,
    pub name: String,
    pub size: i64,
    pub created_at: String,
    pub original_view_url: Option<String>,
    pub original_download_url: Option<String>,
    pub short_view_url: Option<String>,
    pub short_download_url: Option<String>,
}

/// Fresh links for a stored file.
#[allow(non_snake_case)]
#[derive(Clone, Debug)]
pub struct RegenerateUrlsResult {
    pub fileId: i64,
    pub view_url: Option<String>,
    pub download_url: Option<String>,
    pub short_view_url: Option<String>,
    pub short_download_url: Option<String>,
}

/// What an upload returns.
#[allow(non_snake_case)]
#[derive(Clone, Debug)]
pub struct UploadResult {
    pub fileId: i64,
    pub view_url: String,
    pub download_url: String,
    pub short_view_url: String,
    pub short_download_url: String,
    pub expires_in: i64,
}

/// The `limit` the server reports for a plan without one.
pub const UNLIMITED_SENTINEL: i64 = -1;

/// Storage use. The server's percentage is a float; it is carried here as
/// the bits of that `f64`, untouched.
#[derive(Clone, Debug)]
pub struct StorageInfo {
    pub used: i64,
    pub left: i64,
    pub limit: i64,
    pub percentage_used_bits: u64,
    pub used_formatted: Option<String>,
    pub left_formatted: Option<String>,
    pub limit_formatted: Option<String>,
}

impl StorageInfo {
    pub fn is_unlimited(&self) -> (r: bool)
        ensures
            r == (self.limit == UNLIMITED_SENTINEL),
    {
        self.limit == UNLIMITED_SENTINEL
    }
}

impl RemoteFile {
    pub fn copy(&self) -> (r: RemoteFile)
        ensures
            r == *self,
    {
        RemoteFile {
            id: self.id,
            name: self.name.clone(),
            size: self.size,
            created_at: self.created_at.clone(),
            original_view_url: copy_opt(&self.original_view_url),
            original_download_url: copy_opt(&self.original_download_url),
            short_view_url: copy_opt(&self.short_view_url),
            short_download_url: copy_opt(&self.short_download_url),
        }
    }
}

pub const LOGIN_PATH: &'static str = "/api/auth/login";

pub const SIGNUP_PATH: &'static str = "/api/auth/signup";

pub const REFRESH_PATH: &'static str = "/api/auth/refresh";

pub const STORAGE_PATH: &'static str = "/api/plans/user/storage";

pub const FILES_PATH: &'static str = "/api/files/my-files";

pub const UPLOAD_PATH: &'static str = "/api/upload/single";

pub const FILE_PATH_PREFIX: &'static str = "/api/files/";

pub const REGENERATE_SUFFIX: &'static str = "/regenerate-urls";

pub const NOT_LOGGED_IN: &'static str = "Not logged in. Run `cl login`.";

pub const SESSION_EXPIRED: &'static str = "Session expired. Please log in again.";

/// The address of `path` on the server at `base_url`.
pub open spec fn endpoint_text(base_url: Seq<char>, path: Seq<char>) -> Seq<char> {
    trim_slashes(base_url) + path
}

/// The address of an API path on the server, however many `/` end `base_url`.
pub fn endpoint(base_url: &str, path: &str) -> (r: String)
    ensures
        r@ == endpoint_text(base_url@, path@),
{
    let mut out = trim_trailing_slashes(base_url);
    push_str(&mut out, path);
    out
}

/// The address of one stored file, followed by `tail`.
pub open spec fn file_endpoint_text(base_url: Seq<char>, file_id: int, tail: Seq<char>) -> Seq<
    char,
> {
    trim_slashes(base_url) + FILE_PATH_PREFIX@ + signed_decimal(file_id) + tail
}

/// The address of the stored file `file_id`, followed by `tail`: the file
/// itself for an empty `tail`, its link regeneration for `REGENERATE_SUFFIX`.
pub fn file_endpoint(base_url: &str, file_id: i64, tail: &str) -> (r: String)
    ensures
        r@ == file_endpoint_text(base_url@, file_id as int, tail@),
{
    let mut out = endpoint(base_url, FILE_PATH_PREFIX);
    push_signed(&mut out, file_id);
    push_str(&mut out, tail);
    out
}

/// What to do before an authorised request.
pub enum TokenStep {
    /// Send this access token.
    Ready(String),
    /// Trade `refresh_token` for a new access token at `base_url`, then hand
    /// the outcome to `apply_refresh`.
    Refresh { refresh_token: String, base_url: String },
    /// No way to authorise; report this message.
    Refused(String),
}

/// How to get an access token: the stored one when there is one, else a
/// refresh with the stored refresh token, else "not logged in".
pub fn ensure_token(config: &Config) -> (r: TokenStep)
    ensures
        match config.token {
            Some(t) => r == TokenStep::Ready(t),
            None => match config.refresh_token {
                Some(rt) => r == (TokenStep::Refresh {
                    refresh_token: rt,
                    base_url: config.base_url,
                }),
                None => r matches TokenStep::Refused(m) && m@ == NOT_LOGGED_IN@,
            },
        },
{
    match &config.token {
        Some(t) => TokenStep::Ready(t.clone()),
        None => match &config.refresh_token {
            Some(rt) => TokenStep::Refresh { refresh_token: rt.clone(), base_url: config.base_url.clone() },
            None => TokenStep::Refused(String::from_str(NOT_LOGGED_IN)),
        },
    }
}

/// After the server refused the access token: drop it, and trade the refresh
/// token for a new one if there is one; otherwise the session is over.
pub fn refresh_on_401(config: &mut Config) -> (r: TokenStep)
    ensures
        final(config).token is None,
        final(config).refresh_token == old(config).refresh_token,
        final(config).user == old(config).user,
        final(config).base_url == old(config).base_url,
        match old(config).refresh_token {
            Some(rt) => r == (TokenStep::Refresh {
                refresh_token: rt,
                base_url: old(config).base_url,
            }),
            None => r matches TokenStep::Refused(m) && m@ == SESSION_EXPIRED@,
        },
{
    config.token = None;
    match &config.refresh_token {
        Some(rt) => TokenStep::Refresh { refresh_token: rt.clone(), base_url: config.base_url.clone() },
        None => TokenStep::Refused(String::from_str(SESSION_EXPIRED)),
    }
}

/// Record what a token refresh returned. A new token and user are stored and
/// the token is handed back; a failure leaves the configuration as it was.
pub fn apply_refresh(config: &mut Config, outcome: Result<(String, UserInfo), String>) -> (r:
    Result<String, String>)
    ensures
        match outcome {
            Ok((t, u)) => {
                &&& r == Ok::<String, String>(t)
                &&& final(config).token == Some(t)
                &&& final(config).user == Some(u)
                &&& final(config).refresh_token == old(config).refresh_token
                &&& final(config).base_url == old(config).base_url
            },
            Err(e) => r == Err::<String, String>(e) && *final(config) == *old(config),
        },
{
    match outcome {
        Ok((t, u)) => {
            let back = t.clone();
            config.store_token(t, u);
            Ok(back)
        },
        Err(e) => Err(e),
    }
}

/// Whether an upload error reads as a refused token.
pub open spec fn unauthorized_text(msg: Seq<char>) -> bool {
    contains_seq(msg, "Unauthorized"@) || contains_seq(msg, "401"@)
}

/// Whether an upload failure means the token was refused: its message
/// mentions `Unauthorized` or `401`.
pub fn is_unauthorized(msg: &str) -> (r: bool)
    ensures
        r == unauthorized_text(msg@),
{
    let m = chars_of(msg);
    let a = chars_of("Unauthorized");
    let b = chars_of("401");
    find_seq(&m, &a).is_some() || find_seq(&m, &b).is_some()
}

/// What to do with a reply.
#[derive(PartialEq, Eq, Structural, Clone, Copy, Debug)]
pub enum ReplyStep {
    /// Read the body as the answer.
    Accept,
    /// The token was refused on a first attempt: refresh it and send again.
    Reauthorize,
    /// Report the server's message, or the request's own fallback.
    Fail,
}

/// The step for a reply with HTTP status `status`. Only a first attempt is
/// retried after a refused token.
pub open spec fn reply_step_for(status: u16, first_attempt: bool) -> ReplyStep {
    if status == 401 && first_attempt {
        ReplyStep::Reauthorize
    } else if 200 <= status <= 299 {
        ReplyStep::Accept
    } else {
        ReplyStep::Fail
    }
}

pub fn reply_step(status: u16, first_attempt: bool) -> (r: ReplyStep)
    ensures
        r == reply_step_for(status, first_attempt),
{
    if status == 401 && first_attempt {
        ReplyStep::Reauthorize
    } else if 200 <= status && status <= 299 {
        ReplyStep::Accept
    } else {
        ReplyStep::Fail
    }
}

/// The message a failed request reports: the server's own, else `fallback`.
pub fn failure_message(server: Option<String>, fallback: &str) -> (r: String)
    ensures
        match server {
            Some(m) => r == m,
            None => r@ == fallback@,
        },
{
    match server {
        Some(m) => m,
        None => String::from_str(fallback),
    }
}


/// Trailing separators on the server address make no difference: every
/// endpoint of `base_url/` is the endpoint of `base_url`.
pub proof fn lemma_endpoint_ignores_trailing_slash(base_url: Seq<char>, path: Seq<char>)
    ensures
        endpoint_text(base_url.push('/'), path) == endpoint_text(base_url, path),
{
    assert(base_url.push('/').drop_last() =~= base_url);
}

/// A request is retried at most once: only a first attempt answered 401 asks
/// for a fresh token, and a retried request is accepted on success and fails
/// otherwise.
pub proof fn lemma_single_retry(status: u16)
    ensures
        reply_step_for(status, false) != ReplyStep::Reauthorize,
        (reply_step_for(status, true) == ReplyStep::Reauthorize) <==> status == 401,
        200 <= status <= 299 ==> reply_step_for(status, true) == ReplyStep::Accept
            && reply_step_for(status, false) == ReplyStep::Accept,
{
}

} // verus!
