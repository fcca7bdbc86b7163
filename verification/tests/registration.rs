use cardquest::error::QuizError;
use cardquest::registration::{
    check_card_hash, registration_response, stage_registration, staged, RegistrationError,
    CARD_HASH_LEN, TOKEN_LEN,
};
use cardquest::users::{found_user, StoredUser, UserData};
use uuid::Uuid;

const SHA: &str = "9f86d081884c7d659a2feaa0c55ad015a3bf4f1b2b0b822cd15d6c15b0f00a08";

#[test]
fn a_card_hash_has_sixty_four_bytes() {
    assert_eq!(CARD_HASH_LEN, 64);
    assert_eq!(SHA.len(), 64);
    assert!(check_card_hash(SHA).is_ok());
    assert!(matches!(check_card_hash(&SHA[..63]), Err(RegistrationError::ShaError)));
    assert!(matches!(check_card_hash(""), Err(RegistrationError::ShaError)));
    let longer = format!("{}0", SHA);
    assert!(matches!(check_card_hash(&longer), Err(RegistrationError::ShaError)));
    // the length is counted in bytes: 32 letters of two bytes each pass
    let two_byte = "é".repeat(32);
    assert!(check_card_hash(&two_byte).is_ok());
    assert!(matches!(check_card_hash(&"é".repeat(64)), Err(RegistrationError::ShaError)));
}

#[test]
fn an_existing_user_is_not_registered_again() {
    match stage_registration(SHA, true) {
        Err(RegistrationError::UserExists(hash)) => assert_eq!(hash, SHA),
        other => panic!("unexpected: {:?}", other),
    }
}

#[test]
fn a_new_user_is_staged_under_a_random_id() {
    let a = stage_registration(SHA, false).unwrap();
    let b = stage_registration(SHA, false).unwrap();
    assert_eq!(a.hash, SHA);
    assert_eq!(b.hash, SHA);
    assert_eq!(Uuid::from_u128(a.id).get_version_num(), 4);
    assert_eq!(Uuid::from_u128(b.id).get_version_num(), 4);
    assert_ne!(a.id, b.id);
    let fixed = staged(SHA, 42);
    assert_eq!(fixed.id, 42);
    assert_eq!(fixed.hash, SHA);
}

#[test]
fn the_token_is_the_head_of_the_hash() {
    assert_eq!(TOKEN_LEN, 8);
    let response = registration_response(SHA).unwrap();
    assert_eq!(response.token, "9f86d081");
    assert_eq!(response.bot_url, "https://t.me/cardquest_bot");
    assert_eq!(registration_response("12345678").unwrap().token, "12345678");
    assert_eq!(registration_response("123456789").unwrap().token, "12345678");
}

#[test]
fn no_token_where_the_hash_cannot_be_cut() {
    assert!(registration_response("1234567").is_none());
    assert!(registration_response("").is_none());
    // the eighth byte is the first half of a two-byte letter
    assert!(registration_response("1234567é9").is_none());
    // four two-byte letters end exactly at the cut
    assert_eq!(registration_response("éééé-rest").unwrap().token, "éééé");
}

#[test]
fn a_lookup_shows_the_stored_user() {
    let stored = StoredUser {
        card_hash: SHA.to_string(),
        id: 0x1234_5678_9abc_def0_1234_5678_9abc_def0,
        username: "ada".to_string(),
    };
    let shown: UserData = found_user(Some(stored.clone())).unwrap();
    assert_eq!(shown.username, "ada");
    assert_eq!(shown.card_hash, SHA);
    assert_eq!(shown.uuid, 0x1234_5678_9abc_def0_1234_5678_9abc_def0);
    let direct = UserData::from_stored(stored);
    assert_eq!(direct.username, "ada");
    assert_eq!(direct.uuid, shown.uuid);
}

#[test]
fn a_lookup_without_a_row_is_not_found() {
    assert_eq!(found_user(None).unwrap_err(), QuizError::NotFound);
}
