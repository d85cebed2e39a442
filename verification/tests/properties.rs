use enceladus::cache::EntityCache;
use enceladus::entity::Entity;
use enceladus::entity::EntityKind;
use enceladus::entity::Section;
use enceladus::entity::Thread;
use enceladus::entity::User;
use enceladus::filter::FeatureFilter;
use enceladus::json::JsonValue;
use enceladus::lock::decide_lock;
use enceladus::lock::LockDecision;
use enceladus::lock::LOCK_DURATION_SECONDS;
use enceladus::pipeline::complete_create;
use enceladus::pipeline::complete_delete;
use enceladus::pipeline::complete_update;
use enceladus::pipeline::Action;
use enceladus::pipeline::DataType;
use enceladus::pipeline::Status;
use enceladus::pipeline::StoreError;
use enceladus::rooms::Registry;
use enceladus::rooms::Room;
use enceladus::wire::id_to_json;
use enceladus::wire::section_to_json;

fn sample_section(id: i32, name: &str) -> Section {
    Section {
        id,
        is_events_section: false,
        name: name.to_string(),
        content: String::new(),
        lock_held_by_user_id: None,
        lock_assigned_at_utc: 0,
        in_thread_id: 7,
    }
}

fn sample_user(id: i32, username: &str) -> User {
    User {
        id,
        reddit_username: username.to_string(),
        lang: "en".to_string(),
        refresh_token: vec![1, 2, 3],
        is_global_admin: false,
        spacex__is_host: false,
        spacex__is_mod: false,
        spacex__is_slack_member: false,
        access_token: vec![4, 5, 6],
        access_token_expires_at_utc: 0,
    }
}

/// Read-after-write: a read immediately following the Nth write to an id
/// returns exactly the Nth write's snapshot.
#[test]
fn read_after_write() {
    let mut cache = EntityCache::new(EntityKind::Section, 8);
    for n in 0..5 {
        let name = format!("revision {}", n);
        cache.install(&Entity::Section(sample_section(42, &name)));
        match cache.lookup(42) {
            Some(Entity::Section(s)) => assert_eq!(s.name, name),
            other => panic!("expected the section back, got {:?}", other),
        }
    }
}

/// Bounded eviction: inserting more than capacity distinct ids without
/// re-touching earlier ones evicts the least-recently-used id, which is
/// still retrievable via the fallback load, identical to what was
/// evicted.
#[test]
fn bounded_eviction() {
    let capacity = 3usize;
    let mut cache = EntityCache::new(EntityKind::Section, capacity);
    for id in 1..=4 {
        cache.install(&Entity::Section(sample_section(id, "s")));
    }
    assert!(cache.lookup(1).is_none());
    assert!(cache.lookup(2).is_some());
    assert!(cache.lookup(3).is_some());
    assert!(cache.lookup(4).is_some());
    assert_eq!(cache.len(), capacity);

    // The evicted id remains retrievable from the durable store; the
    // reloaded snapshot equals what was evicted (unmodified upstream).
    let reloaded = enceladus::pipeline::admit_loaded(
        &mut cache,
        1,
        Ok(Entity::Section(sample_section(1, "s"))),
    );
    match reloaded {
        Ok(Entity::Section(s)) => {
            let original = sample_section(1, "s");
            assert_eq!(s.id, original.id);
            assert_eq!(s.name, original.name);
            assert_eq!(s.content, original.content);
        },
        other => panic!("expected the evicted section back, got {:?}", other),
    }
}

/// Lock mutual exclusion: from Unlocked, A acquires; B is then rejected
/// while the lock is fresh.
#[test]
fn lock_mutual_exclusion() {
    let t0 = 1_000_000i64;
    let a = 1i32;
    let b = 2i32;
    let first = decide_lock(None, 0, a, Some(a), t0);
    match first {
        LockDecision::Accept(fields) => {
            assert_eq!(fields.lock_held_by_user_id, Some(a));
            assert_eq!(fields.lock_assigned_at_utc, t0);
            // Immediately after, B requests holder = B: Forbidden, no write.
            let second = decide_lock(Some(a), t0, b, Some(b), t0 + 1);
            assert!(matches!(second, LockDecision::Forbidden));
        },
        LockDecision::Forbidden => panic!("first acquire must be accepted"),
    }
}

/// Lock expiry: at t0 + duration, B's request for holder = B is accepted
/// and the lock moves to B at the current time.
#[test]
fn lock_expiry() {
    let t0 = 1_000_000i64;
    let a = 1i32;
    let b = 2i32;
    let now = t0 + LOCK_DURATION_SECONDS;
    match decide_lock(Some(a), t0, b, Some(b), now) {
        LockDecision::Accept(fields) => {
            assert_eq!(fields.lock_held_by_user_id, Some(b));
            assert_eq!(fields.lock_assigned_at_utc, now);
        },
        LockDecision::Forbidden => panic!("expired lock must be supersedable"),
    }
}

/// Renewing one's own lock and releasing it are accepted; an unlocked
/// section cannot be assigned to somebody else.
#[test]
fn lock_renew_release_and_foreign_assign() {
    let a = 5i32;
    let t0 = 50i64;
    assert!(matches!(
        decide_lock(Some(a), t0, a, Some(a), t0 + 1),
        LockDecision::Accept(_)
    ));
    match decide_lock(Some(a), t0, a, None, t0 + 2) {
        LockDecision::Accept(fields) => assert_eq!(fields.lock_held_by_user_id, None),
        LockDecision::Forbidden => panic!("release of own lock must be accepted"),
    }
    // From Unlocked, requesting the lock for someone else is rejected.
    assert!(matches!(
        decide_lock(None, t0, a, Some(6), t0 + 3),
        LockDecision::Forbidden
    ));
}

/// Room fan-out and cleanup: a handle joining `["thread:5","user"]` is
/// reached by a broadcast to `thread:5`; after it disconnects it is not,
/// and the member count drops by exactly one.
#[test]
fn room_fanout_and_cleanup() {
    let mut registry = Registry::new();
    let bystander = registry.connect().expect("fresh registry must have handles left");
    registry.join(bystander, &vec!["thread:5".to_string()]);

    let h = registry.connect().expect("fresh registry must have handles left");
    registry.join(
        h,
        &vec!["thread:5".to_string(), "user".to_string(), "nonsense:room".to_string()],
    );

    let members = registry.broadcast(&Room::Thread(5));
    assert!(members.contains(&h));
    assert!(members.contains(&bystander));
    assert_eq!(members.len(), 2);
    assert!(registry.broadcast(&Room::User).contains(&h));
    // The unparseable name was ignored without error.

    registry.leave_all(h);
    let after = registry.broadcast(&Room::Thread(5));
    assert!(!after.contains(&h));
    assert_eq!(after.len(), members.len() - 1);
    assert!(registry.broadcast(&Room::User).is_empty());

    // A second disconnect of the same handle changes nothing.
    registry.leave_all(h);
    assert_eq!(registry.broadcast(&Room::Thread(5)).len(), 1);
}

fn obj(fields: Vec<(&str, JsonValue)>) -> JsonValue {
    JsonValue::Obj(fields.into_iter().map(|(k, v)| (k.to_string(), v)).collect())
}

/// Field filter correctness on the reference payload, with no features
/// and with both features enabled.
#[test]
fn field_filter_reference_payload() {
    let payload = obj(vec![
        ("a", JsonValue::Int(1)),
        ("x__b", JsonValue::Int(2)),
        ("nested", obj(vec![("y__c", JsonValue::Int(3))])),
    ]);

    let none_enabled = FeatureFilter::from_query("");
    let stripped = none_enabled.filter(&payload);
    assert_eq!(
        stripped,
        obj(vec![("a", JsonValue::Int(1)), ("nested", obj(vec![]))])
    );

    let both_enabled = FeatureFilter::from_query("x,y");
    let kept = both_enabled.filter(&payload);
    assert_eq!(kept, payload);
}

/// The filter walks arrays of objects, matches case-insensitively, and
/// reads the feature name up to the first underscore pair.
#[test]
fn field_filter_depth_and_case() {
    let payload = obj(vec![(
        "rows",
        JsonValue::Arr(vec![
            obj(vec![("plain", JsonValue::Bool(true)), ("FeAt__x", JsonValue::Null)]),
        ]),
    )]);
    let enabled = FeatureFilter::from_query("FEAT");
    assert_eq!(enabled.filter(&payload), payload);

    let disabled = FeatureFilter::from_query("other");
    assert_eq!(
        disabled.filter(&payload),
        obj(vec![(
            "rows",
            JsonValue::Arr(vec![obj(vec![("plain", JsonValue::Bool(true))])]),
        )])
    );
}

/// No notification without commit: a rejected write produces zero change
/// events and leaves the cache at its pre-write value.
#[test]
fn no_notification_without_commit() {
    let mut cache = EntityCache::new(EntityKind::Section, 4);
    cache.install(&Entity::Section(sample_section(9, "before")));

    let (result, message) = complete_update(
        &mut cache,
        Err(StoreError::Internal),
        id_to_json(9),
    );
    assert!(message.is_none());
    assert_eq!(result.unwrap_err(), Status::InternalServerError);
    match cache.lookup(9) {
        Some(Entity::Section(s)) => assert_eq!(s.name, "before"),
        other => panic!("cache must still hold the pre-write value, got {:?}", other),
    }

    let (result, message) = complete_create(&mut cache, Err(StoreError::NotFound));
    assert!(message.is_none());
    assert_eq!(result.unwrap_err(), Status::NotFound);

    let (result, message) = complete_delete(
        &mut cache,
        9,
        Room::Thread(7),
        DataType::Section,
        Err(StoreError::Internal),
    );
    assert!(message.is_none());
    assert_eq!(result.unwrap_err(), Status::InternalServerError);
    assert!(cache.lookup(9).is_some());
}

/// A committed write produces exactly one event, aimed at the right room
/// and carrying the full snapshot.
#[test]
fn commit_produces_one_event() {
    let mut cache = EntityCache::new(EntityKind::Section, 4);
    let section = sample_section(3, "live coverage");
    let (result, message) = complete_create(&mut cache, Ok(Entity::Section(section)));
    assert!(result.is_ok());
    let message = message.expect("a committed create must produce its event");
    assert_eq!(message.room, Room::Thread(7));
    assert!(matches!(message.action, Action::Create));
    assert!(matches!(message.data_type, DataType::Section));
    assert_eq!(message.data, section_to_json(&sample_section(3, "live coverage")));

    let envelope = message.envelope();
    match envelope {
        JsonValue::Obj(fields) => {
            assert_eq!(fields[0].0, "room");
            assert_eq!(fields[0].1, JsonValue::Str("thread:7".to_string()));
            assert_eq!(fields[1].1, JsonValue::Str("create".to_string()));
            assert_eq!(fields[2].1, JsonValue::Str("section".to_string()));
        },
        other => panic!("envelope must be an object, got {:?}", other),
    }
}

/// Store failures map to the two caller-facing outcomes.
#[test]
fn error_mapper_taxonomy() {
    assert_eq!(enceladus::pipeline::error_mapper(&StoreError::NotFound), Status::NotFound);
    assert_eq!(
        enceladus::pipeline::error_mapper(&StoreError::Internal),
        Status::InternalServerError
    );
}

/// The room grammar accepts the three forms and ignores everything else.
#[test]
fn room_grammar() {
    assert_eq!(Room::parse("thread:5"), Some(Room::Thread(5)));
    assert_eq!(Room::parse("thread"), Some(Room::ThreadCreate));
    assert_eq!(Room::parse("user"), Some(Room::User));
    assert_eq!(Room::parse("thread:007"), Some(Room::Thread(7)));
    assert_eq!(Room::parse("thread:"), None);
    assert_eq!(Room::parse("thread:abc"), None);
    assert_eq!(Room::parse("thread:2147483647"), Some(Room::Thread(i32::MAX)));
    assert_eq!(Room::parse("thread:2147483648"), None);
    assert_eq!(Room::parse("users"), None);
    assert_eq!(Room::parse(""), None);

    assert_eq!(Room::Thread(5).name(), "thread:5");
    assert_eq!(Room::ThreadCreate.name(), "thread");
    assert_eq!(Room::User.name(), "user");
}

/// A join request is `{"join": [names…]}`; anything else is ignored.
#[test]
fn join_request_shape() {
    let good = obj(vec![(
        "join",
        JsonValue::Arr(vec![
            JsonValue::Str("thread:5".to_string()),
            JsonValue::Str("user".to_string()),
        ]),
    )]);
    assert_eq!(
        enceladus::payload::parse_join_request(&good),
        Some(vec!["thread:5".to_string(), "user".to_string()])
    );
    assert_eq!(enceladus::payload::parse_join_request(&JsonValue::Null), None);
    assert_eq!(
        enceladus::payload::parse_join_request(&obj(vec![("other", JsonValue::Null)])),
        None
    );
    let mixed = obj(vec![(
        "join",
        JsonValue::Arr(vec![JsonValue::Str("user".to_string()), JsonValue::Int(3)]),
    )]);
    assert_eq!(enceladus::payload::parse_join_request(&mixed), None);
}

/// A user may modify a thread as admin, as its author, or as host of its
/// subreddit — and only then.
#[test]
fn thread_permissions() {
    let mut author = sample_user(10, "author");
    let thread = Thread {
        id: 7,
        thread_name: "launch".to_string(),
        display_name: "Launch".to_string(),
        post_id: None,
        subreddit: Some("spacex".to_string()),
        space__t0: None,
        video_url: None,
        spacex__api_id: None,
        created_by_user_id: 10,
        sections_id: vec![],
        events_id: vec![],
        event_column_headers: vec![],
        space__utc_col_index: None,
        is_live: false,
    };
    assert!(author.can_modify_thread(Some(&thread)));

    let mut stranger = sample_user(11, "stranger");
    assert!(!stranger.can_modify_thread(Some(&thread)));

    stranger.spacex__is_host = true;
    assert!(stranger.can_modify_thread(Some(&thread)));
    assert!(stranger.is_host_for(Some("SpaceX")));
    assert!(!stranger.is_host_for(Some("rockets")));
    assert!(!stranger.is_host_for(None));

    author.is_global_admin = true;
    assert!(author.can_modify_thread(None));
    assert!(!sample_user(12, "nobody").can_modify_thread(None));

    let mut moderator = sample_user(13, "mod");
    moderator.spacex__is_mod = true;
    assert!(moderator.is_moderator_of(Some("spacex")));
    assert!(!moderator.is_moderator_of(Some("other")));
}

/// The features parameter splits at commas exactly: an absent parameter
/// yields the single empty name, so a key gated by the empty feature
/// name (one that begins with the separator) survives even then.
#[test]
fn feature_list_edges() {
    let empty_gate = obj(vec![("__x", JsonValue::Int(1)), ("a__y", JsonValue::Int(2))]);
    let none = FeatureFilter::from_query("");
    assert_eq!(
        none.filter(&empty_gate),
        obj(vec![("__x", JsonValue::Int(1))])
    );

    let padded = FeatureFilter::from_query("a,,b");
    assert_eq!(padded.filter(&empty_gate), empty_gate);

    // Only the text before the first underscore pair names the feature.
    let deep_key = obj(vec![("a__b__c", JsonValue::Int(3))]);
    let a_only = FeatureFilter::from_query("a");
    assert_eq!(a_only.filter(&deep_key), deep_key);
    let b_only = FeatureFilter::from_query("a__b");
    assert_eq!(b_only.filter(&deep_key), obj(vec![]));
}
