use vstd::prelude::*;

verus! {

// Records of the master data and account collaborators that the grid core
// works beside: farms, diseases, staff, hatchling types, care products and
// user accounts.

#[derive(Debug, Clone, PartialEq, Eq)]
pub struct Ferme {
    pub id: Option<i64>,
    pub nom: String,
}

#[derive(Debug, Clone, PartialEq, Eq)]
pub struct CreateFerme {
    pub nom: String,
}

#[derive(Debug, Clone, PartialEq, Eq)]
pub struct UpdateFerme {
    pub id: i64,
    pub nom: String,
}

#[derive(Debug, Clone, PartialEq, Eq)]
pub struct CreateMaladie {
    pub nom: String,
}

#[derive(Debug, Clone, PartialEq, Eq)]
pub struct UpdateMaladie {
    pub id: i64,
    pub nom: String,
}

#[derive(Debug, Clone, PartialEq, Eq)]
pub struct CreatePersonnel {
    pub nom: String,
    pub telephone: String,
}

#[derive(Debug, Clone, PartialEq, Eq)]
pub struct UpdatePersonnel {
    pub id: i64,
    pub nom: String,
    pub telephone: String,
}

#[derive(Debug, Clone, PartialEq, Eq)]
pub struct CreatePoussin {
    pub nom: String,
}

#[derive(Debug, Clone, PartialEq, Eq)]
pub struct UpdatePoussin {
    pub id: i64,
    pub nom: String,
}

#[derive(Debug, Clone, PartialEq, Eq)]
pub struct CreateSoin {
    pub nom: String,
    pub unite_defaut: String,
}

#[derive(Debug, Clone, PartialEq, Eq)]
pub struct UpdateSoin {
    pub id: i64,
    pub nom: String,
    pub unite_defaut: String,
}

#[derive(Debug, Clone, PartialEq, Eq)]
pub struct User {
    pub id: i64,
    pub username: String,
    pub email: String,
    pub password_hash: String,
    pub created_at: String,
    pub updated_at: String,
}

#[derive(Debug, Clone, PartialEq, Eq)]
pub struct CreateUser {
    pub username: String,
    pub email: String,
    pub password: String,
    pub registration_code: String,
}

#[derive(Debug, Clone, PartialEq, Eq)]
pub struct LoginUser {
    pub username: String,
    pub password: String,
}

/// A user as shown to others: without the password hash.
#[derive(Debug, Clone, PartialEq, Eq)]
pub struct UserPublic {
    pub id: i64,
    pub username: String,
    pub email: String,
    pub created_at: String,
    pub updated_at: String,
}

#[derive(Debug, Clone, PartialEq, Eq)]
pub struct AuthResponse {
    pub user: UserPublic,
    pub token: String,
}

#[derive(Debug, Clone, PartialEq, Eq)]
pub struct UpdateProfileData {
    pub user_id: i64,
    pub username: String,
    pub email: String,
}

#[derive(Debug, Clone, PartialEq, Eq)]
pub struct UpdatePasswordData {
    pub user_id: i64,
    pub current_password: String,
    pub new_password: String,
}

/// What an update check found.
#[derive(Debug, Clone, PartialEq, Eq)]
pub struct UpdateInfo {
    pub available: bool,
    pub version: String,
    pub body: String,
    pub date: String,
}

/// Deaths recorded for one cycle.
#[derive(Debug, Clone, PartialEq, Eq)]
pub struct BandeDeathData {
    pub bande_nom: String,
    pub entry_date: String,
    pub total_deaths: i32,
}

impl From<User> for UserPublic {
    fn from(user: User) -> UserPublic {
        UserPublic {
            id: user.id,
            username: user.username,
            email: user.email,
            created_at: user.created_at,
            updated_at: user.updated_at,
        }
    }
}

impl vstd::std_specs::convert::FromSpecImpl<User> for UserPublic {
    open spec fn obeys_from_spec() -> bool {
        true
    }

    open spec fn from_spec(user: User) -> UserPublic {
        UserPublic {
            id: user.id,
            username: user.username,
            email: user.email,
            created_at: user.created_at,
            updated_at: user.updated_at,
        }
    }
}

} // verus!
