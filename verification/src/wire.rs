//! Outbound JSON shapes.
//!
//! Full snapshots (used for `create` events and HTTP responses), partial
//! update objects of shape `{"id": …, <changed field>: <new value>, …}`
//! (used for `update` events), bare `{"id": …}` objects (used for
//! `delete` events), and the change-event envelope itself.

use vstd::prelude::*;
use crate::entity::Entity;
use crate::entity::EntityModel;
use crate::entity::Event;
use crate::entity::EventModel;
use crate::entity::Section;
use crate::entity::SectionModel;
use crate::entity::Thread;
use crate::entity::ThreadModel;
use crate::entity::User;
use crate::entity::UserModel;
use crate::json::clone_json;
use crate::json::json_model_entries;
use crate::json::json_model_seq;
use crate::json::lemma_json_model_entries;
use crate::json::lemma_json_model_seq;
use crate::json::JsonModel;
use crate::json::JsonValue;
use crate::lock::LockSection;
use crate::payload::UpdateEvent;
use crate::payload::UpdateSection;
use crate::payload::UpdateThread;
use crate::payload::UpdateUser;

verus! {

/// An optional string as JSON: `null` or the string.
pub open spec fn jm_opt_str(o: Option<Seq<char>>) -> JsonModel {
    match o {
        Option::Some(s) => JsonModel::Str(s),
        Option::None => JsonModel::Null,
    }
}

/// An optional integer as JSON: `null` or the number.
pub open spec fn jm_opt_int(o: Option<int>) -> JsonModel {
    match o {
        Option::Some(n) => JsonModel::Int(n),
        Option::None => JsonModel::Null,
    }
}

/// A list of ids as JSON numbers.
pub open spec fn jm_ints(s: Seq<i32>) -> JsonModel {
    JsonModel::Arr(s.map_values(|x: i32| JsonModel::Int(x as int)))
}

/// A list of strings as JSON strings.
pub open spec fn jm_strs(s: Seq<Seq<char>>) -> JsonModel {
    JsonModel::Arr(s.map_values(|x: Seq<char>| JsonModel::Str(x)))
}

fn opt_str_json(o: &Option<String>) -> (r: JsonValue)
    ensures
        r@ == jm_opt_str(o.deep_view()),
{
    match o {
        Option::Some(s) => JsonValue::Str(s.clone()),
        Option::None => JsonValue::Null,
    }
}

fn ints_json(v: &Vec<i32>) -> (r: JsonValue)
    ensures
        r@ == jm_ints(v@),
{
    let mut out: Vec<JsonValue> = Vec::new();
    let mut i: usize = 0;
    while i < v.len()
        invariant
            i <= v@.len(),
            out@.len() == i as int,
            forall|j: int| 0 <= j < i as int ==> out@[j] == JsonValue::Int(v@[j] as i64),
        decreases v@.len() - i,
    {
        out.push(JsonValue::Int(v[i] as i64));
        i += 1;
    }
    proof {
        lemma_json_model_seq(out@);
        assert(json_model_seq(out@) =~= v@.map_values(|x: i32| JsonModel::Int(x as int)));
    }
    JsonValue::Arr(out)
}

fn strs_json(v: &Vec<String>) -> (r: JsonValue)
    ensures
        r@ == jm_strs(v.deep_view()),
{
    let mut out: Vec<JsonValue> = Vec::new();
    let mut i: usize = 0;
    while i < v.len()
        invariant
            i <= v@.len(),
            out@.len() == i as int,
            forall|j: int| 0 <= j < i as int ==> out@[j]@ == JsonModel::Str(v@[j]@),
        decreases v@.len() - i,
    {
        out.push(JsonValue::Str(v[i].clone()));
        i += 1;
    }
    proof {
        lemma_json_model_seq(out@);
        assert(json_model_seq(out@) =~= v.deep_view().map_values(
            |x: Seq<char>| JsonModel::Str(x),
        ));
    }
    JsonValue::Arr(out)
}

/// A thread snapshot as its outbound JSON object.
pub open spec fn thread_json_model(t: ThreadModel) -> JsonModel {
    JsonModel::Obj(
        seq![
            ("id"@, JsonModel::Int(t.id as int)),
            ("thread_name"@, JsonModel::Str(t.thread_name)),
            ("display_name"@, JsonModel::Str(t.display_name)),
            ("post_id"@, jm_opt_str(t.post_id)),
            ("subreddit"@, jm_opt_str(t.subreddit)),
            ("space__t0"@, jm_opt_int(match t.space__t0 {
                Option::Some(n) => Option::Some(n as int),
                Option::None => Option::None,
            })),
            ("video_url"@, jm_opt_str(t.video_url)),
            ("spacex__api_id"@, jm_opt_str(t.spacex__api_id)),
            ("created_by_user_id"@, JsonModel::Int(t.created_by_user_id as int)),
            ("sections_id"@, jm_ints(t.sections_id)),
            ("events_id"@, jm_ints(t.events_id)),
            ("event_column_headers"@, jm_strs(t.event_column_headers)),
            ("space__utc_col_index"@, jm_opt_int(match t.space__utc_col_index {
                Option::Some(n) => Option::Some(n as int),
                Option::None => Option::None,
            })),
            ("is_live"@, JsonModel::Bool(t.is_live)),
        ],
    )
}

/// Serialize a thread snapshot.
pub fn thread_to_json(t: &Thread) -> (r: JsonValue)
    ensures
        r@ == thread_json_model(t@),
{
    let mut out: Vec<(String, JsonValue)> = Vec::new();
    out.push(("id".to_owned(), JsonValue::Int(t.id as i64)));
    out.push(("thread_name".to_owned(), JsonValue::Str(t.thread_name.clone())));
    out.push(("display_name".to_owned(), JsonValue::Str(t.display_name.clone())));
    out.push(("post_id".to_owned(), opt_str_json(&t.post_id)));
    out.push(("subreddit".to_owned(), opt_str_json(&t.subreddit)));
    out.push(
        (
            "space__t0".to_owned(),
            match t.space__t0 {
                Option::Some(n) => JsonValue::Int(n),
                Option::None => JsonValue::Null,
            },
        ),
    );
    out.push(("video_url".to_owned(), opt_str_json(&t.video_url)));
    out.push(("spacex__api_id".to_owned(), opt_str_json(&t.spacex__api_id)));
    out.push(("created_by_user_id".to_owned(), JsonValue::Int(t.created_by_user_id as i64)));
    out.push(("sections_id".to_owned(), ints_json(&t.sections_id)));
    out.push(("events_id".to_owned(), ints_json(&t.events_id)));
    out.push(("event_column_headers".to_owned(), strs_json(&t.event_column_headers)));
    out.push(
        (
            "space__utc_col_index".to_owned(),
            match t.space__utc_col_index {
                Option::Some(n) => JsonValue::Int(n as i64),
                Option::None => JsonValue::Null,
            },
        ),
    );
    out.push(("is_live".to_owned(), JsonValue::Bool(t.is_live)));
    proof {
        lemma_json_model_entries(out@);
        assert(json_model_entries(out@) =~= thread_json_model(t@)->Obj_0);
    }
    JsonValue::Obj(out)
}

/// A section snapshot as its outbound JSON object.
pub open spec fn section_json_model(s: SectionModel) -> JsonModel {
    JsonModel::Obj(
        seq![
            ("id"@, JsonModel::Int(s.id as int)),
            ("is_events_section"@, JsonModel::Bool(s.is_events_section)),
            ("name"@, JsonModel::Str(s.name)),
            ("content"@, JsonModel::Str(s.content)),
            ("lock_held_by_user_id"@, jm_opt_int(match s.lock_held_by_user_id {
                Option::Some(n) => Option::Some(n as int),
                Option::None => Option::None,
            })),
            ("lock_assigned_at_utc"@, JsonModel::Int(s.lock_assigned_at_utc as int)),
            ("in_thread_id"@, JsonModel::Int(s.in_thread_id as int)),
        ],
    )
}

/// Serialize a section snapshot.
pub fn section_to_json(s: &Section) -> (r: JsonValue)
    ensures
        r@ == section_json_model(s@),
{
    let mut out: Vec<(String, JsonValue)> = Vec::new();
    out.push(("id".to_owned(), JsonValue::Int(s.id as i64)));
    out.push(("is_events_section".to_owned(), JsonValue::Bool(s.is_events_section)));
    out.push(("name".to_owned(), JsonValue::Str(s.name.clone())));
    out.push(("content".to_owned(), JsonValue::Str(s.content.clone())));
    out.push(
        (
            "lock_held_by_user_id".to_owned(),
            match s.lock_held_by_user_id {
                Option::Some(n) => JsonValue::Int(n as i64),
                Option::None => JsonValue::Null,
            },
        ),
    );
    out.push(("lock_assigned_at_utc".to_owned(), JsonValue::Int(s.lock_assigned_at_utc)));
    out.push(("in_thread_id".to_owned(), JsonValue::Int(s.in_thread_id as i64)));
    proof {
        lemma_json_model_entries(out@);
        assert(json_model_entries(out@) =~= section_json_model(s@)->Obj_0);
    }
    JsonValue::Obj(out)
}

/// An event snapshot as its outbound JSON object.
pub open spec fn event_json_model(e: EventModel) -> JsonModel {
    JsonModel::Obj(
        seq![
            ("id"@, JsonModel::Int(e.id as int)),
            ("posted"@, JsonModel::Bool(e.posted)),
            ("in_thread_id"@, JsonModel::Int(e.in_thread_id as int)),
            ("cols"@, e.cols),
        ],
    )
}

/// Serialize an event snapshot.
pub fn event_to_json(e: &Event) -> (r: JsonValue)
    ensures
        r@ == event_json_model(e@),
{
    let mut out: Vec<(String, JsonValue)> = Vec::new();
    out.push(("id".to_owned(), JsonValue::Int(e.id as i64)));
    out.push(("posted".to_owned(), JsonValue::Bool(e.posted)));
    out.push(("in_thread_id".to_owned(), JsonValue::Int(e.in_thread_id as i64)));
    out.push(("cols".to_owned(), clone_json(&e.cols)));
    proof {
        lemma_json_model_entries(out@);
        assert(json_model_entries(out@) =~= event_json_model(e@)->Obj_0);
    }
    JsonValue::Obj(out)
}

/// A user snapshot as its outbound JSON object.  The token fields and
/// their expiry are private and never serialized.
pub open spec fn user_json_model(u: UserModel) -> JsonModel {
    JsonModel::Obj(
        seq![
            ("id"@, JsonModel::Int(u.id as int)),
            ("reddit_username"@, JsonModel::Str(u.reddit_username)),
            ("lang"@, JsonModel::Str(u.lang)),
            ("is_global_admin"@, JsonModel::Bool(u.is_global_admin)),
            ("spacex__is_host"@, JsonModel::Bool(u.spacex__is_host)),
            ("spacex__is_mod"@, JsonModel::Bool(u.spacex__is_mod)),
            ("spacex__is_slack_member"@, JsonModel::Bool(u.spacex__is_slack_member)),
        ],
    )
}

/// Serialize a user snapshot, withholding the private token fields.
pub fn user_to_json(u: &User) -> (r: JsonValue)
    ensures
        r@ == user_json_model(u@),
{
    let mut out: Vec<(String, JsonValue)> = Vec::new();
    out.push(("id".to_owned(), JsonValue::Int(u.id as i64)));
    out.push(("reddit_username".to_owned(), JsonValue::Str(u.reddit_username.clone())));
    out.push(("lang".to_owned(), JsonValue::Str(u.lang.clone())));
    out.push(("is_global_admin".to_owned(), JsonValue::Bool(u.is_global_admin)));
    out.push(("spacex__is_host".to_owned(), JsonValue::Bool(u.spacex__is_host)));
    out.push(("spacex__is_mod".to_owned(), JsonValue::Bool(u.spacex__is_mod)));
    out.push(
        ("spacex__is_slack_member".to_owned(), JsonValue::Bool(u.spacex__is_slack_member)),
    );
    proof {
        lemma_json_model_entries(out@);
        assert(json_model_entries(out@) =~= user_json_model(u@)->Obj_0);
    }
    JsonValue::Obj(out)
}

/// Any snapshot as its outbound JSON object.
pub open spec fn entity_json_model(e: EntityModel) -> JsonModel {
    match e {
        EntityModel::Thread(t) => thread_json_model(t),
        EntityModel::Section(s) => section_json_model(s),
        EntityModel::Event(v) => event_json_model(v),
        EntityModel::User(u) => user_json_model(u),
    }
}

/// Serialize any snapshot.
pub fn entity_to_json(e: &Entity) -> (r: JsonValue)
    ensures
        r@ == entity_json_model(e@),
{
    match e {
        Entity::Thread(t) => thread_to_json(t),
        Entity::Section(s) => section_to_json(s),
        Entity::Event(v) => event_to_json(v),
        Entity::User(u) => user_to_json(u),
    }
}

/// The bare `{"id": <id>}` object carried by delete events.
pub open spec fn id_json_model(id: i32) -> JsonModel {
    JsonModel::Obj(seq![("id"@, JsonModel::Int(id as int))])
}

/// Serialize a bare id object.
pub fn id_to_json(id: i32) -> (r: JsonValue)
    ensures
        r@ == id_json_model(id),
{
    let mut out: Vec<(String, JsonValue)> = Vec::new();
    out.push(("id".to_owned(), JsonValue::Int(id as i64)));
    proof {
        lemma_json_model_entries(out@);
        assert(json_model_entries(out@) =~= id_json_model(id)->Obj_0);
    }
    JsonValue::Obj(out)
}

/// The partial-update object of a thread update: the id plus each
/// changed field.
pub open spec fn update_thread_partial_model(id: i32, u: UpdateThread) -> Seq<
    (Seq<char>, JsonModel),
> {
    seq![("id"@, JsonModel::Int(id as int))] + (match u.display_name {
        Option::Some(s) => seq![("display_name"@, JsonModel::Str(s@))],
        Option::None => Seq::<(Seq<char>, JsonModel)>::empty(),
    }) + (match u.space__t0 {
        Option::Some(o) => seq![("space__t0"@, jm_opt_int(match o {
            Option::Some(n) => Option::Some(n as int),
            Option::None => Option::None,
        }))],
        Option::None => Seq::<(Seq<char>, JsonModel)>::empty(),
    }) + (match u.video_url {
        Option::Some(o) => seq![("video_url"@, jm_opt_str(o.deep_view()))],
        Option::None => Seq::<(Seq<char>, JsonModel)>::empty(),
    }) + (match u.spacex__api_id {
        Option::Some(o) => seq![("spacex__api_id"@, jm_opt_str(o.deep_view()))],
        Option::None => Seq::<(Seq<char>, JsonModel)>::empty(),
    }) + (match u.sections_id {
        Option::Some(ids) => seq![("sections_id"@, jm_ints(ids@))],
        Option::None => Seq::<(Seq<char>, JsonModel)>::empty(),
    }) + (match u.events_id {
        Option::Some(ids) => seq![("events_id"@, jm_ints(ids@))],
        Option::None => Seq::<(Seq<char>, JsonModel)>::empty(),
    }) + (match u.event_column_headers {
        Option::Some(hs) => seq![("event_column_headers"@, jm_strs(hs.deep_view()))],
        Option::None => Seq::<(Seq<char>, JsonModel)>::empty(),
    }) + (match u.is_live {
        Option::Some(b) => seq![("is_live"@, JsonModel::Bool(b))],
        Option::None => Seq::<(Seq<char>, JsonModel)>::empty(),
    })
}

/// Serialize a thread update's partial-update object.
#[verifier::rlimit(60)]
pub fn update_thread_partial(id: i32, u: &UpdateThread) -> (r: JsonValue)
    ensures
        r@ == JsonModel::Obj(update_thread_partial_model(id, *u)),
{
    let mut out: Vec<(String, JsonValue)> = Vec::new();
    out.push(("id".to_owned(), JsonValue::Int(id as i64)));
    match &u.display_name {
        Option::Some(s) => {
            out.push(("display_name".to_owned(), JsonValue::Str(s.clone())));
        },
        Option::None => {},
    }
    match &u.space__t0 {
        Option::Some(o) => {
            out.push(
                (
                    "space__t0".to_owned(),
                    match o {
                        Option::Some(n) => JsonValue::Int(*n),
                        Option::None => JsonValue::Null,
                    },
                ),
            );
        },
        Option::None => {},
    }
    match &u.video_url {
        Option::Some(o) => {
            out.push(("video_url".to_owned(), opt_str_json(o)));
        },
        Option::None => {},
    }
    match &u.spacex__api_id {
        Option::Some(o) => {
            out.push(("spacex__api_id".to_owned(), opt_str_json(o)));
        },
        Option::None => {},
    }
    match &u.sections_id {
        Option::Some(ids) => {
            out.push(("sections_id".to_owned(), ints_json(ids)));
        },
        Option::None => {},
    }
    match &u.events_id {
        Option::Some(ids) => {
            out.push(("events_id".to_owned(), ints_json(ids)));
        },
        Option::None => {},
    }
    match &u.event_column_headers {
        Option::Some(hs) => {
            out.push(("event_column_headers".to_owned(), strs_json(hs)));
        },
        Option::None => {},
    }
    match &u.is_live {
        Option::Some(b) => {
            out.push(("is_live".to_owned(), JsonValue::Bool(*b)));
        },
        Option::None => {},
    }
    proof {
        lemma_json_model_entries(out@);
        assert(json_model_entries(out@) =~= update_thread_partial_model(id, *u));
    }
    JsonValue::Obj(out)
}

/// The partial-update object of a section field update.
pub open spec fn update_section_partial_model(id: i32, u: UpdateSection) -> Seq<
    (Seq<char>, JsonModel),
> {
    seq![("id"@, JsonModel::Int(id as int))] + (match u.name {
        Option::Some(s) => seq![("name"@, JsonModel::Str(s@))],
        Option::None => Seq::<(Seq<char>, JsonModel)>::empty(),
    }) + (match u.content {
        Option::Some(s) => seq![("content"@, JsonModel::Str(s@))],
        Option::None => Seq::<(Seq<char>, JsonModel)>::empty(),
    })
}

/// Serialize a section update's partial-update object.
pub fn update_section_partial(id: i32, u: &UpdateSection) -> (r: JsonValue)
    ensures
        r@ == JsonModel::Obj(update_section_partial_model(id, *u)),
{
    let mut out: Vec<(String, JsonValue)> = Vec::new();
    out.push(("id".to_owned(), JsonValue::Int(id as i64)));
    match &u.name {
        Option::Some(s) => {
            out.push(("name".to_owned(), JsonValue::Str(s.clone())));
        },
        Option::None => {},
    }
    match &u.content {
        Option::Some(s) => {
            out.push(("content".to_owned(), JsonValue::Str(s.clone())));
        },
        Option::None => {},
    }
    proof {
        lemma_json_model_entries(out@);
        assert(json_model_entries(out@) =~= update_section_partial_model(id, *u));
    }
    JsonValue::Obj(out)
}

/// The partial-update object of a lock transition: both lock fields,
/// always.
pub open spec fn lock_section_partial_model(id: i32, l: LockSection) -> Seq<
    (Seq<char>, JsonModel),
> {
    seq![
        ("id"@, JsonModel::Int(id as int)),
        ("lock_held_by_user_id"@, jm_opt_int(match l.lock_held_by_user_id {
            Option::Some(n) => Option::Some(n as int),
            Option::None => Option::None,
        })),
        ("lock_assigned_at_utc"@, JsonModel::Int(l.lock_assigned_at_utc as int)),
    ]
}

/// Serialize a lock transition's partial-update object.
pub fn lock_section_partial(id: i32, l: &LockSection) -> (r: JsonValue)
    ensures
        r@ == JsonModel::Obj(lock_section_partial_model(id, *l)),
{
    let mut out: Vec<(String, JsonValue)> = Vec::new();
    out.push(("id".to_owned(), JsonValue::Int(id as i64)));
    out.push(
        (
            "lock_held_by_user_id".to_owned(),
            match l.lock_held_by_user_id {
                Option::Some(n) => JsonValue::Int(n as i64),
                Option::None => JsonValue::Null,
            },
        ),
    );
    out.push(("lock_assigned_at_utc".to_owned(), JsonValue::Int(l.lock_assigned_at_utc)));
    proof {
        lemma_json_model_entries(out@);
        assert(json_model_entries(out@) =~= lock_section_partial_model(id, *l));
    }
    JsonValue::Obj(out)
}

/// The partial-update object of an event update.
pub open spec fn update_event_partial_model(id: i32, u: UpdateEvent) -> Seq<
    (Seq<char>, JsonModel),
> {
    seq![("id"@, JsonModel::Int(id as int))] + (match u.posted {
        Option::Some(b) => seq![("posted"@, JsonModel::Bool(b))],
        Option::None => Seq::<(Seq<char>, JsonModel)>::empty(),
    }) + (match u.cols {
        Option::Some(c) => seq![("cols"@, c@)],
        Option::None => Seq::<(Seq<char>, JsonModel)>::empty(),
    })
}

/// Serialize an event update's partial-update object.
pub fn update_event_partial(id: i32, u: &UpdateEvent) -> (r: JsonValue)
    ensures
        r@ == JsonModel::Obj(update_event_partial_model(id, *u)),
{
    let mut out: Vec<(String, JsonValue)> = Vec::new();
    out.push(("id".to_owned(), JsonValue::Int(id as i64)));
    match &u.posted {
        Option::Some(b) => {
            out.push(("posted".to_owned(), JsonValue::Bool(*b)));
        },
        Option::None => {},
    }
    match &u.cols {
        Option::Some(c) => {
            out.push(("cols".to_owned(), clone_json(c)));
        },
        Option::None => {},
    }
    proof {
        lemma_json_model_entries(out@);
        assert(json_model_entries(out@) =~= update_event_partial_model(id, *u));
    }
    JsonValue::Obj(out)
}

/// The partial-update object of a user update; token ciphertext and its
/// expiry are private and never serialized.
pub open spec fn update_user_partial_model(id: i32, u: UpdateUser) -> Seq<
    (Seq<char>, JsonModel),
> {
    seq![("id"@, JsonModel::Int(id as int))] + (match u.lang {
        Option::Some(s) => seq![("lang"@, JsonModel::Str(s@))],
        Option::None => Seq::<(Seq<char>, JsonModel)>::empty(),
    }) + (match u.is_global_admin {
        Option::Some(b) => seq![("is_global_admin"@, JsonModel::Bool(b))],
        Option::None => Seq::<(Seq<char>, JsonModel)>::empty(),
    }) + (match u.spacex__is_host {
        Option::Some(b) => seq![("spacex__is_host"@, JsonModel::Bool(b))],
        Option::None => Seq::<(Seq<char>, JsonModel)>::empty(),
    }) + (match u.spacex__is_mod {
        Option::Some(b) => seq![("spacex__is_mod"@, JsonModel::Bool(b))],
        Option::None => Seq::<(Seq<char>, JsonModel)>::empty(),
    }) + (match u.spacex__is_slack_member {
        Option::Some(b) => seq![("spacex__is_slack_member"@, JsonModel::Bool(b))],
        Option::None => Seq::<(Seq<char>, JsonModel)>::empty(),
    })
}

/// Serialize a user update's partial-update object.
pub fn update_user_partial(id: i32, u: &UpdateUser) -> (r: JsonValue)
    ensures
        r@ == JsonModel::Obj(update_user_partial_model(id, *u)),
{
    let mut out: Vec<(String, JsonValue)> = Vec::new();
    out.push(("id".to_owned(), JsonValue::Int(id as i64)));
    match &u.lang {
        Option::Some(s) => {
            out.push(("lang".to_owned(), JsonValue::Str(s.clone())));
        },
        Option::None => {},
    }
    match &u.is_global_admin {
        Option::Some(b) => {
            out.push(("is_global_admin".to_owned(), JsonValue::Bool(*b)));
        },
        Option::None => {},
    }
    match &u.spacex__is_host {
        Option::Some(b) => {
            out.push(("spacex__is_host".to_owned(), JsonValue::Bool(*b)));
        },
        Option::None => {},
    }
    match &u.spacex__is_mod {
        Option::Some(b) => {
            out.push(("spacex__is_mod".to_owned(), JsonValue::Bool(*b)));
        },
        Option::None => {},
    }
    match &u.spacex__is_slack_member {
        Option::Some(b) => {
            out.push(("spacex__is_slack_member".to_owned(), JsonValue::Bool(*b)));
        },
        Option::None => {},
    }
    proof {
        lemma_json_model_entries(out@);
        assert(json_model_entries(out@) =~= update_user_partial_model(id, *u));
    }
    JsonValue::Obj(out)
}

/// The full form of a thread as `GET …/full` returns it: the thread's
/// own fields, its author, its sections (each joined with the user
/// holding its lock, if any), and its events, in stored order.
pub open spec fn thread_full_json_model(
    t: ThreadModel,
    author: UserModel,
    sections: Seq<(SectionModel, Option<UserModel>)>,
    events: Seq<EventModel>,
) -> JsonModel {
    JsonModel::Obj(
        thread_json_model(t)->Obj_0 + seq![
            ("created_by_user"@, user_json_model(author)),
            ("sections"@, JsonModel::Arr(sections.map_values(
                |p: (SectionModel, Option<UserModel>)| section_with_lock_user_model(p.0, p.1),
            ))),
            ("events"@, JsonModel::Arr(events.map_values(|e: EventModel| event_json_model(e)))),
        ],
    )
}

/// One section joined with the user holding its lock (or `null`).
pub open spec fn section_with_lock_user_model(
    s: SectionModel,
    lock_user: Option<UserModel>,
) -> JsonModel {
    JsonModel::Obj(
        section_json_model(s)->Obj_0 + seq![
            ("lock_held_by_user"@, match lock_user {
                Option::Some(u) => user_json_model(u),
                Option::None => JsonModel::Null,
            }),
        ],
    )
}

/// Serialize one section joined with its lock holder.
pub fn section_with_lock_user(s: &Section, lock_user: &Option<User>) -> (r: JsonValue)
    ensures
        r@ == section_with_lock_user_model(s@, lock_user.deep_view()),
{
    let base = section_to_json(s);
    let mut entries = match base {
        JsonValue::Obj(entries) => entries,
        _ => {
            proof {
                assert(false);
            }
            vstd::pervasive::unreached()
        },
    };
    let lock_json = match lock_user {
        Option::Some(u) => user_to_json(u),
        Option::None => JsonValue::Null,
    };
    let ghost before = entries@;
    entries.push(("lock_held_by_user".to_owned(), lock_json));
    proof {
        lemma_json_model_entries(before);
        lemma_json_model_entries(entries@);
        assert(json_model_entries(entries@) =~= section_with_lock_user_model(
            s@,
            lock_user.deep_view(),
        )->Obj_0);
    }
    JsonValue::Obj(entries)
}

/// Assemble the full form of a thread from the already-looked-up rows:
/// the thread, its author, its sections (paired with their lock holders)
/// and its events.  The look-ups themselves go through the per-kind
/// caches and the durable store.
#[verifier::loop_isolation(false)]
pub fn thread_with_foreign_keys(
    t: &Thread,
    author: &User,
    sections: &Vec<(Section, Option<User>)>,
    events: &Vec<Event>,
) -> (r: JsonValue)
    ensures
        r@ == thread_full_json_model(t@, author@, sections.deep_view(), events.deep_view()),
{
    let base = thread_to_json(t);
    let mut entries = match base {
        JsonValue::Obj(entries) => entries,
        _ => {
            proof {
                assert(false);
            }
            vstd::pervasive::unreached()
        },
    };
    let ghost base_entries = entries@;
    entries.push(("created_by_user".to_owned(), user_to_json(author)));

    let mut section_items: Vec<JsonValue> = Vec::new();
    let mut i: usize = 0;
    while i < sections.len()
        invariant
            i <= sections@.len(),
            section_items@.len() == i as int,
            forall|j: int|
                0 <= j < i as int ==> (#[trigger] section_items@[j])@
                    == section_with_lock_user_model(
                    sections@[j].0@,
                    sections@[j].1.deep_view(),
                ),
        decreases sections@.len() - i,
    {
        section_items.push(section_with_lock_user(&sections[i].0, &sections[i].1));
        i += 1;
    }
    proof {
        lemma_json_model_seq(section_items@);
        assert(json_model_seq(section_items@) =~= sections.deep_view().map_values(
            |p: (SectionModel, Option<UserModel>)| section_with_lock_user_model(p.0, p.1),
        ));
    }
    entries.push(("sections".to_owned(), JsonValue::Arr(section_items)));

    let mut event_items: Vec<JsonValue> = Vec::new();
    let mut n: usize = 0;
    while n < events.len()
        invariant
            n <= events@.len(),
            event_items@.len() == n as int,
            forall|j: int|
                0 <= j < n as int ==> (#[trigger] event_items@[j])@ == event_json_model(
                    events@[j]@,
                ),
        decreases events@.len() - n,
    {
        event_items.push(event_to_json(&events[n]));
        n += 1;
    }
    proof {
        lemma_json_model_seq(event_items@);
        assert(json_model_seq(event_items@) =~= events.deep_view().map_values(
            |e: EventModel| event_json_model(e),
        ));
    }
    entries.push(("events".to_owned(), JsonValue::Arr(event_items)));
    proof {
        lemma_json_model_entries(base_entries);
        lemma_json_model_entries(entries@);
        assert(json_model_entries(entries@) =~= thread_full_json_model(
            t@,
            author@,
            sections.deep_view(),
            events.deep_view(),
        )->Obj_0);
    }
    JsonValue::Obj(entries)
}

} // verus!
