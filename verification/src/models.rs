//! The rows and payloads the engine works with.
//!
//! Every type here holds only plain values (integers, booleans,
//! strings), so contracts can speak about them directly. Timestamps
//! are carried as opaque strings supplied by the caller: the engine
//! never reads a clock itself.

use vstd::prelude::*;

verus! {

/// A registered user, as the profile store keeps it.
#[derive(Clone, Debug, PartialEq)]
pub struct User {
    pub id: i64,
    /// Stable identifier handed out by the identity provider.
    pub oid: String,
    pub email: Option<String>,
    pub display_name: Option<String>,
    pub tenant_id: Option<String>,
    pub access_token: Option<String>,
    pub refresh_token: Option<String>,
    pub id_token: Option<String>,
    pub full_name: Option<String>,
    pub age: Option<i64>,
    pub is_rso: bool,
    pub major: Option<String>,
    pub created_at: String,
    pub updated_at: String,
}

/// Public-facing user representation sent to clients.
/// Deliberately omits all OAuth tokens.
#[derive(Clone, Debug, PartialEq)]
pub struct UserResponse {
    pub id: i64,
    pub oid: String,
    pub email: Option<String>,
    pub display_name: Option<String>,
    pub tenant_id: Option<String>,
    pub full_name: Option<String>,
    pub age: Option<i64>,
    pub is_rso: bool,
    pub major: Option<String>,
    pub created_at: String,
    pub updated_at: String,
}

/// The redaction that `UserResponse::from` performs, as a spec value.
pub open spec fn response_of(u: User) -> UserResponse {
    UserResponse {
        id: u.id,
        oid: u.oid,
        email: u.email,
        display_name: u.display_name,
        tenant_id: u.tenant_id,
        full_name: u.full_name,
        age: u.age,
        is_rso: u.is_rso,
        major: u.major,
        created_at: u.created_at,
        updated_at: u.updated_at,
    }
}

impl From<User> for UserResponse {
    fn from(u: User) -> Self {
        UserResponse {
            id: u.id,
            oid: u.oid,
            email: u.email,
            display_name: u.display_name,
            tenant_id: u.tenant_id,
            full_name: u.full_name,
            age: u.age,
            is_rso: u.is_rso,
            major: u.major,
            created_at: u.created_at,
            updated_at: u.updated_at,
        }
    }
}

impl vstd::std_specs::convert::FromSpecImpl<User> for UserResponse {
    open spec fn obeys_from_spec() -> bool {
        true
    }

    open spec fn from_spec(u: User) -> Self {
        response_of(u)
    }
}

impl User {
    /// A field-for-field copy of this user.
    pub fn duplicate(&self) -> (r: User)
        ensures
            r == *self,
    {
        User {
            id: self.id,
            oid: self.oid.clone(),
            email: clone_opt_string(&self.email),
            display_name: clone_opt_string(&self.display_name),
            tenant_id: clone_opt_string(&self.tenant_id),
            access_token: clone_opt_string(&self.access_token),
            refresh_token: clone_opt_string(&self.refresh_token),
            id_token: clone_opt_string(&self.id_token),
            full_name: clone_opt_string(&self.full_name),
            age: self.age,
            is_rso: self.is_rso,
            major: clone_opt_string(&self.major),
            created_at: self.created_at.clone(),
            updated_at: self.updated_at.clone(),
        }
    }

    /// The byte string a session layer may hash to detect a credential
    /// change: the access token's bytes, or empty when there is none.
    pub fn session_auth_hash(&self) -> (r: &[u8])
        ensures
            r@ == match self.access_token {
                Some(token) => vstd::utf8::encode_utf8(token@),
                None => Seq::<u8>::empty(),
            },
    {
        match &self.access_token {
            Some(token) => token.as_str().as_bytes(),
            None => empty_bytes(),
        }
    }
}

/// An exact copy of an optional string.
pub fn clone_opt_string(s: &Option<String>) -> (r: Option<String>)
    ensures
        r == *s,
{
    match s {
        Some(v) => Some(v.clone()),
        None => None,
    }
}

/// The empty byte slice.
fn empty_bytes() -> (r: &'static [u8])
    ensures
        r@ == Seq::<u8>::empty(),
{
    let v: &[u8] = &[];
    proof {
        assert(v@ =~= Seq::<u8>::empty());
    }
    v
}

/// Claims carried in the identity provider's id token
/// (the middle segment of the JWT).
#[derive(Clone, Debug, PartialEq)]
pub struct IdTokenClaims {
    /// Object id: the stable per-user identifier.
    pub oid: String,
    pub email: Option<String>,
    /// Display name.
    pub name: Option<String>,
    /// Tenant id.
    pub tid: Option<String>,
}

/// A free-text interest tag, normalized to a stable id.
/// Names are unique: the first user of a name creates the row,
/// everyone after shares it.
#[derive(Clone, Debug, PartialEq)]
pub struct Interest {
    pub id: i64,
    pub name: String,
}

/// One row of the user-to-interest association. At most one row per
/// `(user_id, interest_id)` pair ever exists.
#[derive(Clone, Copy, Debug, PartialEq, Eq, Structural)]
pub struct UserInterest {
    pub user_id: i64,
    pub interest_id: i64,
}

/// One directed decision in the like ledger. At most one row per
/// ordered `(liker_id, liked_id)` pair: a resubmission overwrites the
/// verdict and keeps the original `created_at`.
#[derive(Clone, Debug, PartialEq)]
pub struct LikeDecision {
    pub liker_id: i64,
    pub liked_id: i64,
    pub is_like: bool,
    pub created_at: String,
}

/// The request payload for recording a decision.
#[derive(Clone, Copy, Debug, PartialEq, Eq, Structural)]
pub struct NewLike {
    pub liked_id: i64,
    pub is_like: bool,
}

/// A match between two users. `user1_id < user2_id` always holds
/// (canonical ordering), so an unordered pair has exactly one
/// representation and a mutual like can never produce two rows.
#[derive(Clone, Debug, PartialEq)]
pub struct Match {
    pub id: i64,
    pub user1_id: i64,
    pub user2_id: i64,
    pub created_at: String,
}

impl Match {
    /// A field-for-field copy of this match.
    pub fn duplicate(&self) -> (r: Match)
        ensures
            r == *self,
    {
        Match {
            id: self.id,
            user1_id: self.user1_id,
            user2_id: self.user2_id,
            created_at: self.created_at.clone(),
        }
    }
}

/// A direct message between two users.
#[derive(Clone, Debug, PartialEq)]
pub struct Message {
    pub id: i64,
    pub sender_id: i64,
    pub recipient_id: i64,
    pub content: String,
    pub created_at: String,
}

impl Message {
    /// A field-for-field copy of this message.
    pub fn duplicate(&self) -> (r: Message)
        ensures
            r == *self,
    {
        Message {
            id: self.id,
            sender_id: self.sender_id,
            recipient_id: self.recipient_id,
            content: self.content.clone(),
            created_at: self.created_at.clone(),
        }
    }
}

/// The request payload for sending a message.
#[derive(Clone, Debug, PartialEq)]
pub struct NewMessage {
    pub recipient_id: i64,
    pub content: String,
}

/// A match as returned to the client: the other user's public profile
/// together with the match row's identity.
#[derive(Clone, Debug, PartialEq)]
pub struct MatchResponse {
    pub id: i64,
    pub user: UserResponse,
    pub created_at: String,
}

/// The authorization code and PKCE verifier handed back by the
/// identity provider's redirect.
#[derive(Clone, Debug, PartialEq)]
pub struct Credentials {
    pub code: String,
    pub pkce_verifier: String,
}

/// Optional query parameter on login: the path to return to after
/// authentication completes.
#[derive(Clone, Debug, PartialEq)]
pub struct LoginParams {
    pub next: Option<String>,
}

/// Query parameters of the identity provider's callback.
#[derive(Clone, Debug, PartialEq)]
pub struct CallbackParams {
    pub code: String,
    pub state: String,
}

} // verus!
