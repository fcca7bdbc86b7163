//! The decisions of a registration by card hash. The caller looks the hash
//! up in the store and writes the staged row; what to do at each point is
//! decided here.

use vstd::prelude::*;
use vstd::string::StringSliceAdditionalSpecFns;
use vstd::utf8::{encode_utf8, is_char_boundary};
use crate::ident::{fresh_id, is_version4};
use crate::users::UserRegStage;

verus! {

/// The length of a card hash, in bytes: a SHA-256 digest in hexadecimal.
pub const CARD_HASH_LEN: usize = 64;

/// The length of the token that a registration hands back, in bytes.
pub const TOKEN_LEN: usize = 8;

/// Why a registration was declined.
#[derive(Debug)]
pub enum RegistrationError {
    /// The card hash has not the length of one.
    ShaError,
    /// A user with this card hash is registered already.
    UserExists(String),
}

/// What a registration that has begun hands back: the token, which is the
/// head of the card hash, and the address at which to go on.
#[derive(Debug)]
pub struct RegistrationResponse {
    pub token: String,
    pub bot_url: String,
}

/// The first decision, before anything is looked up: a card hash is taken
/// only if it is `CARD_HASH_LEN` bytes long.
pub fn check_card_hash(sha: &str) -> (checked: Result<(), RegistrationError>)
    ensures
        checked is Ok <==> sha.spec_bytes().len() == CARD_HASH_LEN,
        checked matches Err(e) ==> e is ShaError,
{
    if sha.as_bytes().len() != CARD_HASH_LEN {
        Err(RegistrationError::ShaError)
    } else {
        Ok(())
    }
}

/// The row to stage for `sha` under the id `id`.
pub fn staged(sha: &str, id: u128) -> (stage: UserRegStage)
    ensures
        stage.id == id,
        stage.hash@ == sha@,
{
    UserRegStage { id, hash: sha.to_owned() }
}

/// The second decision, after the lookup: where a user with this card hash
/// exists, the registration is declined with the hash; otherwise a row is
/// staged for it under an id drawn at random.
pub fn stage_registration(sha: &str, exists: bool) -> (decision: Result<
    UserRegStage,
    RegistrationError,
>)
    ensures
        match decision {
            Ok(stage) => !exists && stage.hash@ == sha@ && is_version4(stage.id),
            Err(RegistrationError::UserExists(hash)) => exists && hash@ == sha@,
            Err(RegistrationError::ShaError) => false,
        },
{
    if exists {
        Err(RegistrationError::UserExists(sha.to_owned()))
    } else {
        Ok(staged(sha, fresh_id()))
    }
}

/// What to hand back once the row is staged: as token the first `TOKEN_LEN`
/// bytes of the card hash. There is none where the hash cannot be cut there,
/// because it is shorter or a character of it lies across the cut.
pub fn registration_response(sha: &str) -> (response: Option<RegistrationResponse>)
    ensures
        response is Some <==> is_char_boundary(sha.spec_bytes(), TOKEN_LEN as int),
        response matches Some(r) ==> {
            &&& encode_utf8(r.token@) == sha.spec_bytes().subrange(0, TOKEN_LEN as int)
            &&& r.bot_url@ == "https://t.me/cardquest_bot"@
        },
{
    if !sha.is_char_boundary(TOKEN_LEN) {
        return None;
    }
    let (head, _) = sha.split_at(TOKEN_LEN);
    Some(
        RegistrationResponse {
            token: head.to_owned(),
            bot_url: "https://t.me/cardquest_bot".to_owned(),
        },
    )
}

} // verus!
