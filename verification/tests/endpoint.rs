use enceladus::claim::Claim;
use enceladus::entity::Event;
use enceladus::entity::Thread;
use enceladus::entity::User;
use enceladus::json::JsonValue;
use enceladus::lock::ExternalLockSection;
use enceladus::payload::apply_partial_cols;
use enceladus::payload::check_thread_patch;
use enceladus::payload::decode_event_patch;
use enceladus::payload::decode_section_patch;
use enceladus::payload::moderation_target;
use enceladus::payload::parse_bearer;
use enceladus::payload::validate_event_cols;
use enceladus::payload::InsertThread;
use enceladus::payload::ExternalInsertThread;
use enceladus::payload::UpdateEventDiscriminant;
use enceladus::payload::UpdateSectionDiscriminant;
use enceladus::payload::UpdateThread;
use enceladus::pipeline::Status;
use enceladus::telemetry::RequestEntry;
use enceladus::telemetry::Telemetry;
use enceladus::telemetry::Timer;

fn obj(fields: Vec<(&str, JsonValue)>) -> JsonValue {
    JsonValue::Obj(fields.into_iter().map(|(k, v)| (k.to_string(), v)).collect())
}

fn sample_thread() -> Thread {
    Thread {
        id: 7,
        thread_name: "starship-flight".to_string(),
        display_name: "Starship Flight".to_string(),
        post_id: Some("abc123".to_string()),
        subreddit: Some("spacex".to_string()),
        space__t0: None,
        video_url: None,
        spacex__api_id: None,
        created_by_user_id: 10,
        sections_id: vec![1, 2],
        events_id: vec![4, 5, 6],
        event_column_headers: vec!["UTC".to_string(), "Update".to_string()],
        space__utc_col_index: Some(0),
        is_live: true,
    }
}

fn sample_user(id: i32) -> User {
    User {
        id,
        reddit_username: "editor".to_string(),
        lang: "en".to_string(),
        refresh_token: vec![],
        is_global_admin: false,
        spacex__is_host: false,
        spacex__is_mod: false,
        spacex__is_slack_member: false,
        access_token: vec![],
        access_token_expires_at_utc: 0,
    }
}

/// A section PATCH whose body is exactly the lock field routes to the
/// lock transition; a name/content body routes to the field update; an
/// overlapping or foreign shape is rejected.
#[test]
fn section_patch_discriminant() {
    let lock_body = obj(vec![("lock_held_by_user_id", JsonValue::Int(3))]);
    match decode_section_patch(&lock_body) {
        Some(UpdateSectionDiscriminant::LockSection(ExternalLockSection {
            lock_held_by_user_id,
        })) => assert_eq!(lock_held_by_user_id, Some(3)),
        other => panic!("expected the lock shape, got {:?}", other),
    }

    let release_body = obj(vec![("lock_held_by_user_id", JsonValue::Null)]);
    assert!(matches!(
        decode_section_patch(&release_body),
        Some(UpdateSectionDiscriminant::LockSection(ExternalLockSection {
            lock_held_by_user_id: None,
        }))
    ));

    let update_body = obj(vec![
        ("name", JsonValue::Str("Recap".to_string())),
        ("content", JsonValue::Str("The flight went well.".to_string())),
    ]);
    match decode_section_patch(&update_body) {
        Some(UpdateSectionDiscriminant::UpdateSection(u)) => {
            assert_eq!(u.name.as_deref(), Some("Recap"));
            assert_eq!(u.content.as_deref(), Some("The flight went well."));
        },
        other => panic!("expected the field-update shape, got {:?}", other),
    }

    assert!(decode_section_patch(&obj(vec![("holder", JsonValue::Int(1))])).is_none());
    assert!(decode_section_patch(&obj(vec![("name", JsonValue::Int(1))])).is_none());
    assert!(decode_section_patch(&JsonValue::Arr(vec![])).is_none());
}

/// An event PATCH is either a full update object or a list of
/// `[column, value]` assignments; the assignments apply in order.
#[test]
fn event_patch_discriminant_and_partial_apply() {
    let full = obj(vec![("posted", JsonValue::Bool(true))]);
    match decode_event_patch(&full) {
        Some(UpdateEventDiscriminant::FullEvent(u)) => {
            assert_eq!(u.posted, Some(true));
            assert!(u.cols.is_none());
        },
        other => panic!("expected the full shape, got {:?}", other),
    }

    let partial = JsonValue::Arr(vec![
        JsonValue::Arr(vec![JsonValue::Int(1), JsonValue::Str("liftoff".to_string())]),
        JsonValue::Arr(vec![JsonValue::Int(0), JsonValue::Int(120)]),
    ]);
    let assignments = match decode_event_patch(&partial) {
        Some(UpdateEventDiscriminant::PartialEvent(ps)) => ps,
        other => panic!("expected the assignment list, got {:?}", other),
    };
    assert_eq!(assignments.len(), 2);

    let cols = JsonValue::Arr(vec![
        JsonValue::Int(0),
        JsonValue::Str("old".to_string()),
        JsonValue::Str("untouched".to_string()),
    ]);
    let updated = apply_partial_cols(cols, &assignments);
    assert_eq!(
        updated,
        JsonValue::Arr(vec![
            JsonValue::Int(120),
            JsonValue::Str("liftoff".to_string()),
            JsonValue::Str("untouched".to_string()),
        ])
    );

    assert!(decode_event_patch(&JsonValue::Arr(vec![JsonValue::Int(1)])).is_none());
    assert!(decode_event_patch(&obj(vec![("posted", JsonValue::Int(1))])).is_none());
    assert!(decode_event_patch(&JsonValue::Null).is_none());
}

/// Event columns must match the thread's headers: as many columns, the
/// UTC column a number, everything else a string.
#[test]
fn event_column_validation() {
    let good = JsonValue::Arr(vec![
        JsonValue::Int(3600),
        JsonValue::Str("Liftoff".to_string()),
    ]);
    assert!(validate_event_cols(&good, 2, Some(0)));
    assert!(!validate_event_cols(&good, 3, Some(0)));
    let swapped = JsonValue::Arr(vec![
        JsonValue::Str("Liftoff".to_string()),
        JsonValue::Int(3600),
    ]);
    assert!(!validate_event_cols(&swapped, 2, Some(0)));
    assert!(validate_event_cols(&swapped, 2, Some(1)));
    assert!(!validate_event_cols(&JsonValue::Null, 0, None));
}

/// The posted UTC column renders as HH:MM; cells are escaped; unposted
/// rows render as nothing.
#[test]
fn event_markdown() {
    let event = Event {
        id: 4,
        posted: true,
        in_thread_id: 7,
        cols: JsonValue::Arr(vec![
            JsonValue::Int(3600 * 13 + 60 * 5 + 30),
            JsonValue::Str("Stage sep | booster\nreturn".to_string()),
        ]),
    };
    assert_eq!(event.to_markdown(Some(0)), "|13:05|Stage sep \\| booster return|\n");

    let unposted = Event { posted: false, ..event };
    assert_eq!(unposted.to_markdown(Some(0)), "");

    let sections = vec!["# Intro".to_string(), "|a|b|".to_string()];
    assert_eq!(
        enceladus::markdown::thread_markdown(&sections),
        "# Intro\n\n|a|b|\n\n"
    );
}

/// Thread id lists may only be reordered by a PATCH.
#[test]
fn thread_patch_reorder_rule() {
    let thread = sample_thread();
    let author = sample_user(10);
    let reorder = UpdateThread {
        events_id: Some(vec![6, 4, 5]),
        ..Default::default()
    };
    assert_eq!(check_thread_patch(&thread, &author, &reorder), Ok(()));

    let grow = UpdateThread {
        events_id: Some(vec![4, 5, 6, 7]),
        ..Default::default()
    };
    assert_eq!(
        check_thread_patch(&thread, &author, &grow),
        Err(Status::PreconditionFailed)
    );

    let stranger = sample_user(99);
    assert_eq!(
        check_thread_patch(&thread, &stranger, &reorder),
        Err(Status::Unauthorized)
    );
}

/// Moderation requests resolve to the outward post name only for a
/// posted thread and a moderator of its subreddit.
#[test]
fn moderation_target_rules() {
    let thread = sample_thread();
    let mut user = sample_user(10);
    assert_eq!(
        moderation_target(Some(&thread), &user),
        Err(Status::Unauthorized)
    );
    user.spacex__is_mod = true;
    assert_eq!(
        moderation_target(Some(&thread), &user),
        Ok("t3_abc123".to_string())
    );
    assert_eq!(moderation_target(None, &user), Err(Status::NotFound));
    let unposted = Thread { post_id: None, ..sample_thread() };
    assert_eq!(
        moderation_target(Some(&unposted), &user),
        Err(Status::PreconditionFailed)
    );
}

/// The authorization header must carry a bearer token.
#[test]
fn bearer_header() {
    assert_eq!(parse_bearer("Bearer abc.def"), Some("abc.def".to_string()));
    assert_eq!(parse_bearer("bearer abc"), Some("abc".to_string()));
    assert_eq!(parse_bearer("Basic abc"), None);
    assert_eq!(parse_bearer("Bearer"), None);
    assert_eq!(parse_bearer(""), None);
}

/// A claim keeps the user id it was issued for.
#[test]
fn claim_round_trip() {
    let claim = Claim::new(42);
    assert_eq!(claim.user_id(), 42);
    let rebuilt = Claim::from_fields(42, claim.issued_at());
    assert_eq!(rebuilt.user_id(), 42);
}

/// Building a thread row from a client submission fills the
/// server-supplied fields.
#[test]
fn insert_thread_from_external() {
    let external = ExternalInsertThread {
        thread_name: "launch".to_string(),
        display_name: "Launch".to_string(),
        subreddit: Some("spacex".to_string()),
        space__t0: Some(100),
        video_url: None,
        spacex__api_id: None,
        event_column_headers: vec!["UTC".to_string()],
        space__utc_col_index: Some(0),
        is_live: None,
    };
    let row = InsertThread::from_external(&external, 10, Some("abc".to_string()));
    assert_eq!(row.created_by_user_id, 10);
    assert_eq!(row.post_id.as_deref(), Some("abc"));
    assert!(row.sections_id.is_empty());
    assert!(row.events_id.is_empty());
    assert!(!row.is_live);
}

/// Removing and appending event ids produce updates touching only the
/// id list.
#[test]
fn thread_event_id_updates() {
    let thread = sample_thread();
    let with_new = thread.with_event_id(9);
    assert_eq!(with_new.events_id, Some(vec![4, 5, 6, 9]));
    assert!(with_new.display_name.is_none());
    let without = thread.without_event_id(5);
    assert_eq!(without.events_id, Some(vec![4, 6]));
}

/// The telemetry accumulates entries, drains on reset, and renders
/// exact log lines.
#[test]
fn telemetry_lines() {
    let mut telemetry = Telemetry::new();
    assert!(Telemetry::should_record(200, false));
    assert!(!Telemetry::should_record(404, false));
    assert!(!Telemetry::should_record(200, true));

    let entry = RequestEntry {
        method: "GET".to_string(),
        uri: "/v1/thread/7".to_string(),
        status: 200,
        body_size: 512,
        duration_micros: 1250,
        started_at_utc: 0,
    };
    let line = entry.render();
    assert_eq!(line, "GET /v1/thread/7 200 512 1250µs");
    telemetry.record(entry);
    let drained = telemetry.reset();
    assert_eq!(drained.len(), 1);
    assert!(telemetry.reset().is_empty());

    assert_eq!(
        enceladus::telemetry::log(64, 3, 950),
        "Sent WebSocket message (64 bytes) to 3 clients in 950µs"
    );
    assert_eq!(
        enceladus::telemetry::connected_clients_line(12),
        "WebSocket connections: 12"
    );

    assert!(Timer::begin().0.is_some());
    assert!(Timer::end().0.is_none());
}

/// Decimal printing and parsing of ids.
#[test]
fn decimal_strings() {
    assert_eq!(enceladus::strutil::i32_to_string(0), "0");
    assert_eq!(enceladus::strutil::i32_to_string(2048), "2048");
    assert_eq!(enceladus::strutil::i32_to_string(-17), "-17");
    assert_eq!(enceladus::strutil::i64_to_string(i64::MIN), "-9223372036854775808");
    assert_eq!(enceladus::strutil::u128_to_string(u128::MAX), u128::MAX.to_string());
    assert_eq!(enceladus::strutil::parse_i32_digits("123"), Some(123));
    assert_eq!(enceladus::strutil::parse_i32_digits(""), None);
    assert_eq!(enceladus::strutil::parse_i32_digits("12a"), None);
    assert_eq!(enceladus::strutil::parse_i32_digits("2147483648"), None);
}

/// The serde defaults of a new user record.
#[test]
fn user_defaults() {
    assert_eq!(enceladus::payload::en(), "en");
    assert!(!enceladus::payload::falsey());
}

/// The full thread form joins the author, the sections (with their lock
/// holders) and the events onto the thread's own serialized fields.
#[test]
fn thread_full_shape() {
    let thread = sample_thread();
    let author = sample_user(10);
    let section = enceladus::entity::Section {
        id: 1,
        is_events_section: false,
        name: "Recap".to_string(),
        content: String::new(),
        lock_held_by_user_id: Some(10),
        lock_assigned_at_utc: 5,
        in_thread_id: 7,
    };
    let event = Event {
        id: 4,
        posted: false,
        in_thread_id: 7,
        cols: JsonValue::Arr(vec![]),
    };
    let body = enceladus::wire::thread_with_foreign_keys(
        &thread,
        &author,
        &vec![(section, Some(sample_user(10)))],
        &vec![event],
    );
    let entries = match body {
        JsonValue::Obj(entries) => entries,
        other => panic!("expected an object, got {:?}", other),
    };
    let keys: Vec<&str> = entries.iter().map(|(k, _)| k.as_str()).collect();
    assert!(keys.contains(&"id"));
    assert!(keys.contains(&"created_by_user"));
    assert!(keys.contains(&"sections"));
    assert!(keys.contains(&"events"));
    let sections = entries.iter().find(|(k, _)| k == "sections").map(|(_, v)| v).unwrap();
    match sections {
        JsonValue::Arr(items) => match &items[0] {
            JsonValue::Obj(fields) => {
                assert!(fields.iter().any(|(k, _)| k == "lock_held_by_user"));
            },
            other => panic!("expected a section object, got {:?}", other),
        },
        other => panic!("expected a section array, got {:?}", other),
    }
}
