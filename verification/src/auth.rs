//! Where credentials are kept: the location of the credentials file and what
//! its content means.
use vstd::prelude::*;

use crate::text::{is_blank, str_is_blank};
use crate::types::AuthInfo;

verus! {

/// The location of a credentials file.
#[derive(Debug, Clone)]
pub struct AuthStore {
    path: String,
}

impl AuthStore {
    /// The location this store reads and writes.
    pub closed spec fn location(&self) -> Seq<char> {
        self.path@
    }

    /// A store at `path`.
    pub fn new(path: &str) -> (r: AuthStore)
        ensures
            r.location() == path@,
    {
        AuthStore { path: path.to_owned() }
    }

    /// The location of the file.
    pub fn path(&self) -> (r: &str)
        ensures
            r@ == self.location(),
    {
        self.path.as_str()
    }

    /// Whether a credentials file's content stands for no credentials: it
    /// holds nothing but whitespace.
    pub fn is_blank_content(content: &str) -> (r: bool)
        ensures
            r == is_blank(content@),
    {
        str_is_blank(content)
    }
}

impl Default for AuthStore {
    /// The store at `auth.json`.
    fn default() -> (r: AuthStore)
        ensures
            r.location() == "auth.json"@,
    {
        AuthStore::new("auth.json")
    }
}

impl AuthInfo {
    /// Credentials made of the given texts.
    pub fn new(token: &str, user_id: &str, email: &str) -> (r: AuthInfo)
        ensures
            r.token@ == token@,
            r.user_id@ == user_id@,
            r.email@ == email@,
    {
        AuthInfo {
            token: token.to_owned(),
            user_id: user_id.to_owned(),
            email: email.to_owned(),
        }
    }
}

} // verus!
