//! The write pipeline: durable-store outcomes, cache updates and change
//! events.
//!
//! Every mutation resolves through the durable store first.  The functions
//! here take the store's verdict as an argument and perform everything that
//! follows: on success the cache is updated and exactly one change event is
//! produced for the room registry to fan out; on failure the cache is left
//! untouched and no event exists, so subscribers can never observe a write
//! the store rejected.

use vstd::prelude::*;
use crate::cache::spec_lru_insert;
use crate::cache::EntityCache;
use crate::entity::Entity;
use crate::entity::EntityKind;
use crate::entity::EntityModel;
use crate::json::JsonValue;
use crate::rooms::Room;
use crate::wire::entity_json_model;
use crate::wire::entity_to_json;
use crate::wire::id_json_model;
use crate::wire::id_to_json;

verus! {

/// Outcome classes surfaced to callers of the synchronization core.
///
/// `NotFound` (the id is absent from cache and store) is distinct from
/// `Forbidden` (the lock predicate rejected the request) so that clients
/// can tell "no such section" from "you may not take this lock right now".
#[derive(Clone, Copy, Debug, PartialEq, Eq, Structural)]
pub enum Status {
    NotFound,
    Forbidden,
    Unauthorized,
    PreconditionFailed,
    UnprocessableEntity,
    InternalServerError,
}

/// A durable-store failure, as reported by the store collaborator.
#[derive(Clone, Copy, Debug, PartialEq, Eq, Structural)]
pub enum StoreError {
    /// The requested row does not exist.
    NotFound,
    /// Any other failure of the store.
    Internal,
}

/// How a store failure maps to the outcome surfaced to the caller.
pub open spec fn error_mapper_spec(err: StoreError) -> Status {
    match err {
        StoreError::NotFound => Status::NotFound,
        StoreError::Internal => Status::InternalServerError,
    }
}

/// Map a durable-store failure to the caller-facing outcome.
pub fn error_mapper(err: &StoreError) -> (r: Status)
    ensures
        r == error_mapper_spec(*err),
{
    match err {
        StoreError::NotFound => Status::NotFound,
        StoreError::Internal => Status::InternalServerError,
    }
}

/// What a change event announces.
#[derive(Clone, Copy, Debug, PartialEq, Eq, Structural)]
pub enum Action {
    Create,
    Update,
    Delete,
}

/// Which kind of entity a change event concerns.
#[derive(Clone, Copy, Debug, PartialEq, Eq, Structural)]
pub enum DataType {
    Thread,
    Section,
    Event,
    User,
}

/// The data type announcing changes of one entity kind.
pub open spec fn data_type_of(k: EntityKind) -> DataType {
    match k {
        EntityKind::Thread => DataType::Thread,
        EntityKind::Section => DataType::Section,
        EntityKind::Event => DataType::Event,
        EntityKind::User => DataType::User,
    }
}

/// The room a committed change is announced in: thread creations go to
/// the thread-creation room, other thread changes to the thread's own
/// room, section and event changes to their owning thread's room, user
/// changes to the global user room.
pub open spec fn room_of(e: EntityModel, action: Action) -> Room {
    match e {
        EntityModel::Thread(t) => if action is Create {
            Room::ThreadCreate
        } else {
            Room::Thread(t.id)
        },
        EntityModel::Section(s) => Room::Thread(s.in_thread_id),
        EntityModel::Event(v) => Room::Thread(v.in_thread_id),
        EntityModel::User(_) => Room::User,
    }
}

impl Action {
    /// The wire name of the action.
    pub fn name(&self) -> (r: String)
        ensures
            *self is Create ==> r@ == "create"@,
            *self is Update ==> r@ == "update"@,
            *self is Delete ==> r@ == "delete"@,
    {
        match self {
            Action::Create => "create".to_owned(),
            Action::Update => "update".to_owned(),
            Action::Delete => "delete".to_owned(),
        }
    }
}

impl DataType {
    /// The wire name of the data type.
    pub fn name(&self) -> (r: String)
        ensures
            *self is Thread ==> r@ == "thread"@,
            *self is Section ==> r@ == "section"@,
            *self is Event ==> r@ == "event"@,
            *self is User ==> r@ == "user"@,
    {
        match self {
            DataType::Thread => "thread".to_owned(),
            DataType::Section => "section".to_owned(),
            DataType::Event => "event".to_owned(),
            DataType::User => "user".to_owned(),
        }
    }
}

/// One change event: produced once per committed write, consumed exactly
/// once by the room registry for fan-out; never persisted.
#[derive(Debug)]
pub struct Message {
    pub room: Room,
    pub action: Action,
    pub data_type: DataType,
    pub data: JsonValue,
}

impl Message {
    /// Serialize the envelope: an object with the room's wire name, the
    /// action, the data type and the payload.
    pub fn envelope(&self) -> (r: JsonValue)
        ensures
            r@ == crate::json::JsonModel::Obj(
                seq![
                    ("room"@, crate::json::JsonModel::Str(crate::rooms::room_name_spec(
                        self.room,
                    ))),
                    ("action"@, crate::json::JsonModel::Str(action_name_spec(self.action))),
                    ("data_type"@, crate::json::JsonModel::Str(data_type_name_spec(
                        self.data_type,
                    ))),
                    ("data"@, self.data@),
                ],
            ),
    {
        let mut out: Vec<(String, JsonValue)> = Vec::new();
        out.push(("room".to_owned(), JsonValue::Str(self.room.name())));
        out.push(("action".to_owned(), JsonValue::Str(self.action.name())));
        out.push(("data_type".to_owned(), JsonValue::Str(self.data_type.name())));
        out.push(("data".to_owned(), crate::json::clone_json(&self.data)));
        proof {
            crate::json::lemma_json_model_entries(out@);
            assert(crate::json::json_model_entries(out@) =~= seq![
                ("room"@, crate::json::JsonModel::Str(crate::rooms::room_name_spec(self.room))),
                ("action"@, crate::json::JsonModel::Str(action_name_spec(self.action))),
                ("data_type"@, crate::json::JsonModel::Str(data_type_name_spec(
                    self.data_type,
                ))),
                ("data"@, self.data@),
            ]);
        }
        JsonValue::Obj(out)
    }
}

/// The wire name of an action.
pub open spec fn action_name_spec(a: Action) -> Seq<char> {
    match a {
        Action::Create => "create"@,
        Action::Update => "update"@,
        Action::Delete => "delete"@,
    }
}

/// The wire name of a data type.
pub open spec fn data_type_name_spec(d: DataType) -> Seq<char> {
    match d {
        DataType::Thread => "thread"@,
        DataType::Section => "section"@,
        DataType::Event => "event"@,
        DataType::User => "user"@,
    }
}

/// Complete a create: the store has already decided.  On commit the new
/// snapshot enters the cache and exactly one `create` event carrying the
/// full snapshot is produced; on rejection the cache is untouched, no
/// event exists, and the failure maps to the caller-facing outcome — so
/// subscribers never observe a write the store rejected.
pub fn complete_create(cache: &mut EntityCache, outcome: Result<Entity, StoreError>) -> (r: (
    Result<Entity, Status>,
    Option<Message>,
))
    requires
        old(cache).wf(),
        outcome matches Ok(e) ==> e@.kind() == old(cache).kind(),
    ensures
        final(cache).wf(),
        final(cache).kind() == old(cache).kind(),
        final(cache).capacity() == old(cache).capacity(),
        match outcome {
            Ok(e) => {
                &&& r.0 matches Ok(out) && out@ == e@
                &&& final(cache).entries() == spec_lru_insert(
                    old(cache).entries(),
                    old(cache).capacity(),
                    e@.id(),
                    e@,
                )
                &&& final(cache).cached(e@.id()) == Some(e@)
                &&& r.1 matches Some(m) && m.room == room_of(e@, Action::Create) && m.action
                    is Create && m.data_type == data_type_of(e@.kind()) && m.data@
                    == entity_json_model(e@)
            },
            Err(err) => {
                &&& r.0 == Err::<Entity, Status>(error_mapper_spec(err))
                &&& r.1 is None
                &&& final(cache).entries() == old(cache).entries()
            },
        },
{
    match outcome {
        Ok(e) => {
            cache.install(&e);
            let data = entity_to_json(&e);
            let room = match &e {
                Entity::Thread(_) => Room::ThreadCreate,
                Entity::Section(s) => Room::Thread(s.in_thread_id),
                Entity::Event(v) => Room::Thread(v.in_thread_id),
                Entity::User(_) => Room::User,
            };
            let data_type = match &e {
                Entity::Thread(_) => DataType::Thread,
                Entity::Section(_) => DataType::Section,
                Entity::Event(_) => DataType::Event,
                Entity::User(_) => DataType::User,
            };
            let message = Message { room, action: Action::Create, data_type, data };
            (Ok(e), Some(message))
        },
        Err(err) => (Err(error_mapper(&err)), None),
    }
}

/// Complete an update: on commit the fresh snapshot replaces the cached
/// one and exactly one `update` event carrying the given partial-update
/// object is produced; on rejection the cache is untouched and no event
/// exists.
pub fn complete_update(
    cache: &mut EntityCache,
    outcome: Result<Entity, StoreError>,
    partial: JsonValue,
) -> (r: (Result<Entity, Status>, Option<Message>))
    requires
        old(cache).wf(),
        outcome matches Ok(e) ==> e@.kind() == old(cache).kind(),
    ensures
        final(cache).wf(),
        final(cache).kind() == old(cache).kind(),
        final(cache).capacity() == old(cache).capacity(),
        match outcome {
            Ok(e) => {
                &&& r.0 matches Ok(out) && out@ == e@
                &&& final(cache).entries() == spec_lru_insert(
                    old(cache).entries(),
                    old(cache).capacity(),
                    e@.id(),
                    e@,
                )
                &&& final(cache).cached(e@.id()) == Some(e@)
                &&& r.1 matches Some(m) && m.room == room_of(e@, Action::Update) && m.action
                    is Update && m.data_type == data_type_of(e@.kind()) && m.data@ == partial@
            },
            Err(err) => {
                &&& r.0 == Err::<Entity, Status>(error_mapper_spec(err))
                &&& r.1 is None
                &&& final(cache).entries() == old(cache).entries()
            },
        },
{
    match outcome {
        Ok(e) => {
            cache.install(&e);
            let room = match &e {
                Entity::Thread(t) => Room::Thread(t.id),
                Entity::Section(s) => Room::Thread(s.in_thread_id),
                Entity::Event(v) => Room::Thread(v.in_thread_id),
                Entity::User(_) => Room::User,
            };
            let data_type = match &e {
                Entity::Thread(_) => DataType::Thread,
                Entity::Section(_) => DataType::Section,
                Entity::Event(_) => DataType::Event,
                Entity::User(_) => DataType::User,
            };
            let message = Message { room, action: Action::Update, data_type, data: partial };
            (Ok(e), Some(message))
        },
        Err(err) => (Err(error_mapper(&err)), None),
    }
}

/// Complete a delete: on commit the id leaves the cache and exactly one
/// `delete` event carrying `{"id": <id>}` is produced for the given room;
/// on rejection the cache is untouched and no event exists.
pub fn complete_delete(
    cache: &mut EntityCache,
    id: i32,
    room: Room,
    data_type: DataType,
    outcome: Result<usize, StoreError>,
) -> (r: (Result<usize, Status>, Option<Message>))
    requires
        old(cache).wf(),
    ensures
        final(cache).wf(),
        final(cache).kind() == old(cache).kind(),
        final(cache).capacity() == old(cache).capacity(),
        match outcome {
            Ok(count) => {
                &&& r.0 == Ok::<usize, Status>(count)
                &&& final(cache).cached(id) is None
                &&& forall|id2: i32|
                    id2 != id ==> final(cache).cached(id2) == old(cache).cached(id2)
                &&& r.1 matches Some(m) && m.room == room && m.action is Delete && m.data_type
                    == data_type && m.data@ == id_json_model(id)
            },
            Err(err) => {
                &&& r.0 == Err::<usize, Status>(error_mapper_spec(err))
                &&& r.1 is None
                &&& final(cache).entries() == old(cache).entries()
            },
        },
{
    match outcome {
        Ok(count) => {
            cache.remove(id);
            let data = id_to_json(id);
            let message = Message { room, action: Action::Delete, data_type, data };
            (Ok(count), Some(message))
        },
        Err(err) => (Err(error_mapper(&err)), None),
    }
}

/// Complete a read-through miss: the durable store has been consulted.
/// A loaded snapshot is installed in the cache and returned; a load
/// failure leaves the cache untouched and surfaces as `NotFound` or
/// `InternalServerError`.
pub fn admit_loaded(
    cache: &mut EntityCache,
    id: i32,
    loaded: Result<Entity, StoreError>,
) -> (r: Result<Entity, Status>)
    requires
        old(cache).wf(),
        loaded matches Ok(e) ==> e@.kind() == old(cache).kind() && e@.id() == id,
    ensures
        final(cache).wf(),
        final(cache).kind() == old(cache).kind(),
        final(cache).capacity() == old(cache).capacity(),
        match loaded {
            Ok(e) => r matches Ok(out) && out@ == e@ && final(cache).cached(id) == Some(e@),
            Err(err) => r == Err::<Entity, Status>(error_mapper_spec(err))
                && final(cache).entries() == old(cache).entries(),
        },
{
    match loaded {
        Ok(e) => {
            cache.install(&e);
            Ok(e)
        },
        Err(err) => Err(error_mapper(&err)),
    }
}

} // verus!
