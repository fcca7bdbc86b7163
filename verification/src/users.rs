//! Registered users, as the store holds them and as they are shown.

use vstd::prelude::*;
use crate::error::QuizError;

verus! {

/// A registration that has begun: the id drawn for it and the card hash.
#[derive(Debug, Clone)]
pub struct UserRegStage {
    pub id: u128,
    pub hash: String,
}

/// A registered user, as the store holds them.
#[derive(Debug, Clone)]
pub struct StoredUser {
    pub card_hash: String,
    pub id: u128,
    pub username: String,
}

/// A registered user, as a lookup shows them.
#[derive(Debug, Clone)]
pub struct UserData {
    pub username: String,
    pub card_hash: String,
    pub uuid: u128,
}

impl UserData {
    /// What a lookup shows of `user`: name, card hash and id, unchanged.
    pub fn from_stored(user: StoredUser) -> (data: UserData)
        ensures
            data.username@ == user.username@,
            data.card_hash@ == user.card_hash@,
            data.uuid == user.id,
    {
        UserData { username: user.username, card_hash: user.card_hash, uuid: user.id }
    }
}

/// The answer to a lookup, given the row that the store returned for it, if
/// any: the user of that row, or `NotFound` where there was none.
pub fn found_user(row: Option<StoredUser>) -> (reply: Result<UserData, QuizError>)
    ensures
        match row {
            Some(user) => {
                &&& reply matches Ok(data)
                &&& data.username@ == user.username@
                &&& data.card_hash@ == user.card_hash@
                &&& data.uuid == user.id
            },
            None => reply matches Err(e) && e == QuizError::NotFound,
        },
{
    match row {
        Some(user) => Ok(UserData::from_stored(user)),
        None => Err(QuizError::NotFound),
    }
}

} // verus!
