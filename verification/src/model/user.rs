use vstd::prelude::*;
use std::collections::HashMap;

verus! {

/// A registered reader.
#[derive(Debug, Clone, Default)]
pub struct User {
    pub username: String,
    pub password: String,
    pub salt: String,
    pub token: String,
    pub last_login_at: i64,
    pub created_at: i64,
    pub enable_webdav: bool,
    pub token_map: Option<HashMap<String, i64>>,
    pub enable_local_store: bool,
    pub is_admin: bool,
}

} // verus!
