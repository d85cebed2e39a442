use enceladus::cache::EntityCache;
use enceladus::entity::Entity;
use enceladus::entity::EntityKind;
use enceladus::entity::Section;
use enceladus::json::JsonValue;
use enceladus::pipeline::complete_create;
use enceladus::pipeline::complete_delete;
use enceladus::pipeline::complete_update;
use enceladus::pipeline::DataType;
use enceladus::rooms::Room;
use enceladus::wire::section_to_json;

fn stored_section(id: i32, name: &str, content: &str, thread_id: i32) -> Section {
    Section {
        id,
        is_events_section: false,
        name: name.to_string(),
        content: content.to_string(),
        lock_held_by_user_id: None,
        lock_assigned_at_utc: 1_234,
        in_thread_id: thread_id,
    }
}

fn field<'a>(body: &'a JsonValue, key: &str) -> &'a JsonValue {
    match body {
        JsonValue::Obj(entries) => {
            for (k, v) in entries {
                if k == key {
                    return v;
                }
            }
            panic!("missing field {}", key)
        },
        other => panic!("expected an object, got {:?}", other),
    }
}

/// Listing sections yields an array.
#[test]
fn section_get_all() {
    let rows = vec![stored_section(1, "a", "", 7), stored_section(2, "b", "", 7)];
    let body = JsonValue::Arr(rows.iter().map(section_to_json).collect());
    assert!(matches!(body, JsonValue::Arr(_)));
}

/// Reading a section back immediately after creating it returns the
/// created value.
#[test]
fn section_get_one() {
    let mut cache = EntityCache::new(EntityKind::Section, 8);
    let created = stored_section(5, "flight", "T-0", 7);
    let (result, _message) = complete_create(&mut cache, Ok(Entity::Section(created)));
    let created_body = section_to_json(match &result {
        Ok(Entity::Section(s)) => s,
        other => panic!("create must return the section, got {:?}", other),
    });
    let read_back = match cache.lookup(5) {
        Some(Entity::Section(s)) => section_to_json(&s),
        other => panic!("expected the created section, got {:?}", other),
    };
    assert_eq!(created_body, read_back);
}

/// A bare creation carries the documented defaults in its serialized
/// form: empty name and content, no lock holder, not an events section.
#[test]
fn section_create() {
    let mut cache = EntityCache::new(EntityKind::Section, 8);
    let stored = Section {
        id: 31,
        is_events_section: false,
        name: String::new(),
        content: String::new(),
        lock_held_by_user_id: None,
        lock_assigned_at_utc: 99,
        in_thread_id: 7,
    };
    let (result, message) = complete_create(&mut cache, Ok(Entity::Section(stored)));
    assert!(result.is_ok());
    assert!(message.is_some());
    let body = match cache.lookup(31) {
        Some(Entity::Section(s)) => section_to_json(&s),
        other => panic!("expected the created section, got {:?}", other),
    };
    assert!(matches!(field(&body, "id"), JsonValue::Int(_)), "body id is number");
    assert_eq!(field(&body, "is_events_section"), &JsonValue::Bool(false));
    assert_eq!(field(&body, "name"), &JsonValue::Str(String::new()));
    assert_eq!(field(&body, "content"), &JsonValue::Str(String::new()));
    assert_eq!(field(&body, "lock_held_by_user_id"), &JsonValue::Null);
    assert!(matches!(field(&body, "lock_assigned_at_utc"), JsonValue::Int(_)));
    assert_eq!(field(&body, "in_thread_id"), &JsonValue::Int(7));
}

/// Updating a section's name is reflected in the returned row.
#[test]
fn section_update() {
    let mut cache = EntityCache::new(EntityKind::Section, 8);
    let created = stored_section(12, "", "", 7);
    let (_, _) = complete_create(&mut cache, Ok(Entity::Section(created)));
    let before = match cache.lookup(12) {
        Some(Entity::Section(s)) => s,
        other => panic!("expected the created section, got {:?}", other),
    };
    assert_eq!(before.name, "");

    let renamed = stored_section(12, "Recap", "", 7);
    let update = enceladus::payload::UpdateSection {
        name: Some("Recap".to_string()),
        content: None,
    };
    let partial = enceladus::wire::update_section_partial(12, &update);
    let (result, message) = complete_update(&mut cache, Ok(Entity::Section(renamed)), partial);
    match result {
        Ok(Entity::Section(s)) => assert_eq!(s.name, "Recap"),
        other => panic!("update must return the new row, got {:?}", other),
    }
    let message = message.expect("a committed update must produce its event");
    assert_eq!(field(&message.data, "name"), &JsonValue::Str("Recap".to_string()));
}

/// Deleting a section evicts it from the cache and announces the bare id.
#[test]
fn section_delete() {
    let mut cache = EntityCache::new(EntityKind::Section, 8);
    let (_, _) = complete_create(&mut cache, Ok(Entity::Section(stored_section(3, "x", "", 7))));
    assert!(cache.lookup(3).is_some());
    let (result, message) = complete_delete(
        &mut cache,
        3,
        Room::Thread(7),
        DataType::Section,
        Ok(1),
    );
    assert_eq!(result.unwrap(), 1);
    assert!(cache.lookup(3).is_none());
    let message = message.expect("a committed delete must produce its event");
    assert_eq!(field(&message.data, "id"), &JsonValue::Int(3));
}
