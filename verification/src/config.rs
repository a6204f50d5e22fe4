//! The stored login: which server to talk to, the access and refresh tokens,
//! and who is signed in. Reading and writing the file lives outside.

use vstd::prelude::*;

verus! {

/// The server a fresh configuration points at.
pub const DEFAULT_BASE_URL: &'static str = "https://chloride.carbonkit.tech";

/// The signed-in user, as the server reports it.
#[derive(Clone, Debug)]
pub struct UserInfo {
    pub id: i64,
    pub email: String,
    pub role: Option<String>,
    pub plan: Option<String>,
}

#[derive(Clone, Debug)]
pub struct Config {
    pub base_url: String,
    pub token: Option<String>,
    pub refresh_token: Option<String>,
    pub user: Option<UserInfo>,
}

/// A copy of an optional text.
pub fn copy_opt(o: &Option<String>) -> (r: Option<String>)
    ensures
        r == *o,
{
    match o {
        Some(s) => Some(s.clone()),
        None => None,
    }
}

impl UserInfo {
    pub fn copy(&self) -> (r: UserInfo)
        ensures
            r == *self,
    {
        UserInfo {
            id: self.id,
            email: self.email.clone(),
            role: copy_opt(&self.role),
            plan: copy_opt(&self.plan),
        }
    }
}

impl Default for Config {
    /// Signed out, pointing at the default server.
    fn default() -> (c: Config)
        ensures
            c.base_url@ == DEFAULT_BASE_URL@,
            c.token is None,
            c.refresh_token is None,
            c.user is None,
    {
        Config {
            base_url: String::from_str(DEFAULT_BASE_URL),
            token: None,
            refresh_token: None,
            user: None,
        }
    }
}

impl Config {
    /// Signed in means an access token is at hand.
    pub fn is_logged_in(&self) -> (r: bool)
        ensures
            r == self.token is Some,
    {
        self.token.is_some()
    }

    /// Forget the tokens and the user; the server address stays.
    pub fn logout(&mut self)
        ensures
            final(self).token is None,
            final(self).refresh_token is None,
            final(self).user is None,
            final(self).base_url == old(self).base_url,
    {
        self.token = None;
        self.refresh_token = None;
        self.user = None;
    }

    /// Record a fresh access token and the user it belongs to.
    pub fn store_token(&mut self, token: String, user: UserInfo)
        ensures
            final(self).token == Some(token),
            final(self).user == Some(user),
            final(self).refresh_token == old(self).refresh_token,
            final(self).base_url == old(self).base_url,
    {
        self.token = Some(token);
        self.user = Some(user);
    }
}

} // verus!
