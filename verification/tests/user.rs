use enceladus::cache::EntityCache;
use enceladus::entity::Entity;
use enceladus::entity::EntityKind;
use enceladus::entity::User;
use enceladus::json::JsonValue;
use enceladus::pipeline::complete_create;
use enceladus::pipeline::complete_delete;
use enceladus::pipeline::complete_update;
use enceladus::pipeline::DataType;
use enceladus::rooms::Room;
use enceladus::wire::user_to_json;

fn stored_user(id: i32, username: &str) -> User {
    User {
        id,
        reddit_username: username.to_string(),
        lang: "en".to_string(),
        refresh_token: vec![9],
        is_global_admin: false,
        spacex__is_host: false,
        spacex__is_mod: false,
        spacex__is_slack_member: false,
        access_token: vec![8],
        access_token_expires_at_utc: 0,
    }
}

fn field<'a>(body: &'a JsonValue, key: &str) -> &'a JsonValue {
    match body {
        JsonValue::Obj(entries) => {
            for (k, v) in entries {
                if k == key {
                    return v;
                }
            }
            panic!("missing field {}", key)
        },
        other => panic!("expected an object, got {:?}", other),
    }
}

fn has_field(body: &JsonValue, key: &str) -> bool {
    match body {
        JsonValue::Obj(entries) => entries.iter().any(|(k, _)| k == key),
        _ => false,
    }
}

/// Listing users yields an array.
#[test]
fn user_get_all() {
    let rows = vec![stored_user(1, "a"), stored_user(2, "b")];
    let body = JsonValue::Arr(rows.iter().map(user_to_json).collect());
    assert!(matches!(body, JsonValue::Arr(_)));
}

/// Reading a user back returns the created value, and the serialized
/// form carries the public fields only — never the token material.
#[test]
fn user_get_one() {
    let mut cache = EntityCache::new(EntityKind::User, 8);
    let (_, _) = complete_create(&mut cache, Ok(Entity::User(stored_user(20, "astronaut"))));
    let body = match cache.lookup(20) {
        Some(Entity::User(u)) => user_to_json(&u),
        other => panic!("expected the created user, got {:?}", other),
    };
    assert_eq!(field(&body, "reddit_username"), &JsonValue::Str("astronaut".to_string()));
    assert_eq!(field(&body, "lang"), &JsonValue::Str("en".to_string()));
    assert_eq!(field(&body, "is_global_admin"), &JsonValue::Bool(false));
    assert_eq!(field(&body, "spacex__is_host"), &JsonValue::Bool(false));
    assert_eq!(field(&body, "spacex__is_mod"), &JsonValue::Bool(false));
    assert_eq!(field(&body, "spacex__is_slack_member"), &JsonValue::Bool(false));
    assert!(!has_field(&body, "refresh_token"));
    assert!(!has_field(&body, "access_token"));
    assert!(!has_field(&body, "access_token_expires_at_utc"));
}

/// Creating a user announces it in the global user room with the full
/// (public) snapshot.
#[test]
fn user_create() {
    let mut cache = EntityCache::new(EntityKind::User, 8);
    let (result, message) = complete_create(&mut cache, Ok(Entity::User(stored_user(21, "pilot"))));
    match result {
        Ok(Entity::User(u)) => assert_eq!(u.reddit_username, "pilot"),
        other => panic!("create must return the user, got {:?}", other),
    }
    let message = message.expect("a committed create must produce its event");
    assert_eq!(message.room, Room::User);
    assert!(matches!(message.data_type, DataType::User));
    assert!(matches!(field(&message.data, "id"), JsonValue::Int(21)));
    assert!(!has_field(&message.data, "refresh_token"));
}

/// Updating one capability flag is reflected in the row and announced as
/// a partial update carrying exactly the id and the changed field.
#[test]
fn user_update() {
    let mut cache = EntityCache::new(EntityKind::User, 8);
    let (_, _) = complete_create(&mut cache, Ok(Entity::User(stored_user(22, "crew"))));

    let mut after = stored_user(22, "crew");
    after.spacex__is_slack_member = true;
    let update = enceladus::payload::UpdateUser {
        spacex__is_slack_member: Some(true),
        ..Default::default()
    };
    let partial = enceladus::wire::update_user_partial(22, &update);
    let (result, message) = complete_update(&mut cache, Ok(Entity::User(after)), partial);
    match result {
        Ok(Entity::User(u)) => assert!(u.spacex__is_slack_member),
        other => panic!("update must return the new row, got {:?}", other),
    }
    let message = message.expect("a committed update must produce its event");
    assert_eq!(field(&message.data, "spacex__is_slack_member"), &JsonValue::Bool(true));
    match &message.data {
        JsonValue::Obj(entries) => assert_eq!(entries.len(), 2),
        other => panic!("partial update must be an object, got {:?}", other),
    }
}

/// Deleting a user removes it from the cache; the row count comes back
/// from the store.
#[test]
fn user_delete() {
    let mut cache = EntityCache::new(EntityKind::User, 8);
    let (_, _) = complete_create(&mut cache, Ok(Entity::User(stored_user(23, "gone"))));
    let (result, message) = complete_delete(&mut cache, 23, Room::User, DataType::User, Ok(1));
    assert_eq!(result.unwrap(), 1);
    assert!(message.is_some());
    assert!(cache.lookup(23).is_none());
}
