//! Who may do what with users and their API keys.
//!
//! As with the scheduler, the work is done elsewhere: an operation hands out what it asks of
//! the repository, and another function takes what the repository replied.
use vstd::prelude::*;

use crate::model::ClusterId;
use crate::time::Timestamp;

verus! {

/// Identifies a user.
#[derive(Clone, Copy, Debug, PartialEq, Eq, Hash, Structural)]
pub struct UserId(pub u128);

/// Identifies an API key.
#[derive(Clone, Copy, Debug, PartialEq, Eq, Hash, Structural)]
pub struct ApiKeyId(pub u128);

/// A user.
#[derive(Debug, PartialEq, Eq)]
pub struct User {
    pub id: UserId,
    pub username: String,
    pub first_name: Option<String>,
    pub last_name: Option<String>,
}

/// A user to be created. What the password is kept in is left open; it is never looked at.
#[derive(Debug)]
pub struct CreateUserRequest<P> {
    pub username: String,
    pub first_name: Option<String>,
    pub last_name: Option<String>,
    pub password: P,
}

/// A key with which a user or a cluster authenticates.
#[derive(Debug)]
pub struct ApiKey {
    pub id: ApiKeyId,
    pub user_id: Option<UserId>,
    pub cluster_id: Option<ClusterId>,
    pub prefix: String,
    pub key_hash: String,
    pub created_at: Timestamp,
    pub last_used_at: Option<Timestamp>,
    pub expires_at: Option<Timestamp>,
}

/// A failure of the repository of users.
#[derive(Debug, PartialEq, Eq)]
pub enum UserRepositoryError {
    NotFound(String),
    Unknown(String),
}

/// A failure of the repository of API keys.
#[derive(Debug, PartialEq, Eq)]
pub enum ApiKeyRepositoryError {
    NotFound(String),
    Unknown(String),
}

/// Why an operation of the user service failed.
#[derive(Debug, PartialEq, Eq)]
pub enum UserServiceError {
    /// The user may not do this.
    InvalidPermissions,
    User(UserRepositoryError),
    ApiKey(ApiKeyRepositoryError),
}

/// A change for the repository to make.
#[derive(Clone, Copy, Debug, PartialEq, Eq, Structural)]
pub enum UserRequest {
    DeleteUser(UserId),
    DeleteApiKey(ApiKeyId),
}

/// What the service does next.
#[derive(Debug, PartialEq, Eq)]
pub enum Turn {
    /// It asks this of the repository.
    Ask(UserRequest),
    /// It fails, without asking for anything more.
    Fail(UserServiceError),
}

/// Whether the key is among the keys.
pub open spec fn has_key(keys: Seq<ApiKey>, key_id: ApiKeyId) -> bool {
    exists|i: int| 0 <= i < keys.len() && (#[trigger] keys[i]).id == key_id
}

/// Whether the key is among the keys.
fn contains_key(keys: &Vec<ApiKey>, key_id: &ApiKeyId) -> (found: bool)
    ensures
        found == has_key(keys@, *key_id),
{
    let mut i: usize = 0;
    while i < keys.len()
        invariant
            i <= keys.len(),
            forall|j: int| 0 <= j < i ==> (#[trigger] keys@[j]).id != *key_id,
        decreases keys.len() - i,
    {
        if keys[i].id == *key_id {
            return true;
        }
        i = i + 1;
    }
    false
}

/// The deletion of an API key, waiting for the list of the keys of the user who asked for it.
#[derive(Debug, PartialEq, Eq)]
pub struct ApiKeyDeletion {
    pub user_id: UserId,
    pub key_id: ApiKeyId,
}

impl ApiKeyDeletion {
    /// Takes the list of the keys of the user. Users may delete their own keys and no others.
    pub fn keys_listed(self, reply: Result<Vec<ApiKey>, ApiKeyRepositoryError>) -> (turn: Turn)
        ensures
            turn == (match reply {
                Ok(keys) => if has_key(keys@, self.key_id) {
                    Turn::Ask(UserRequest::DeleteApiKey(self.key_id))
                } else {
                    Turn::Fail(UserServiceError::InvalidPermissions)
                },
                Err(error) => Turn::Fail(UserServiceError::ApiKey(error)),
            }),
            reply matches Ok(keys) ==> {
                &&& (exists|i: int| 0 <= i < keys@.len() && (#[trigger] keys@[i]).id == self.key_id)
                    ==> turn == Turn::Ask(UserRequest::DeleteApiKey(self.key_id))
                &&& (forall|i: int| 0 <= i < keys@.len() ==> (#[trigger] keys@[i]).id != self.key_id)
                    ==> turn == Turn::Fail(UserServiceError::InvalidPermissions)
            },
    {
        match reply {
            Ok(keys) => {
                if contains_key(&keys, &self.key_id) {
                    Turn::Ask(UserRequest::DeleteApiKey(self.key_id))
                } else {
                    Turn::Fail(UserServiceError::InvalidPermissions)
                }
            },
            Err(error) => Turn::Fail(UserServiceError::ApiKey(error)),
        }
    }
}

/// The user service, with the repository that does its requests.
pub struct UserServiceImpl<R> {
    pub repo: R,
}

impl<R> UserServiceImpl<R> {
    pub fn new(repo: R) -> (service: Self)
        ensures
            service.repo == repo,
    {
        UserServiceImpl { repo }
    }

    /// Creates a user: the repository is asked for just what was requested.
    pub fn create_user<'a, P>(&self, request: &'a CreateUserRequest<P>) -> (asked:
        &'a CreateUserRequest<P>)
        ensures
            asked == request,
    {
        request
    }

    /// Takes the reply to the creation of a user.
    pub fn user_created(&self, reply: Result<User, UserRepositoryError>) -> (result: Result<
        User,
        UserServiceError,
    >)
        ensures
            match reply {
                Ok(user) => result == Ok::<User, UserServiceError>(user),
                Err(error) => result == Err::<User, _>(UserServiceError::User(error)),
            },
    {
        match reply {
            Ok(user) => Ok(user),
            Err(error) => Err(UserServiceError::User(error)),
        }
    }

    /// Deletes a user. Users may delete themselves and nobody else.
    pub fn delete_user(&self, current_user_id: &UserId, target_user_id: &UserId) -> (turn: Turn)
        ensures
            turn == (if *current_user_id == *target_user_id {
                Turn::Ask(UserRequest::DeleteUser(*target_user_id))
            } else {
                Turn::Fail(UserServiceError::InvalidPermissions)
            }),
    {
        if *current_user_id == *target_user_id {
            Turn::Ask(UserRequest::DeleteUser(*target_user_id))
        } else {
            Turn::Fail(UserServiceError::InvalidPermissions)
        }
    }

    /// Takes the reply to the deletion of a user.
    pub fn user_deleted(&self, reply: Result<(), UserRepositoryError>) -> (result: Result<
        (),
        UserServiceError,
    >)
        ensures
            match reply {
                Ok(_) => result == Ok::<(), UserServiceError>(()),
                Err(error) => result == Err::<(), _>(UserServiceError::User(error)),
            },
    {
        match reply {
            Ok(_) => Ok(()),
            Err(error) => Err(UserServiceError::User(error)),
        }
    }

    /// Deletes an API key for the user: first, the repository is asked for the keys of the user.
    /// What becomes of the key is then for [`ApiKeyDeletion::keys_listed`] to say.
    pub fn delete_api_key(&self, user_id: &UserId, key_id: &ApiKeyId) -> (deletion: ApiKeyDeletion)
        ensures
            deletion.user_id == *user_id,
            deletion.key_id == *key_id,
    {
        ApiKeyDeletion { user_id: *user_id, key_id: *key_id }
    }

    /// Takes the reply to the deletion of an API key.
    pub fn api_key_deleted(&self, reply: Result<(), ApiKeyRepositoryError>) -> (result: Result<
        (),
        UserServiceError,
    >)
        ensures
            match reply {
                Ok(_) => result == Ok::<(), UserServiceError>(()),
                Err(error) => result == Err::<(), _>(UserServiceError::ApiKey(error)),
            },
    {
        match reply {
            Ok(_) => Ok(()),
            Err(error) => Err(UserServiceError::ApiKey(error)),
        }
    }
}

} // verus!
