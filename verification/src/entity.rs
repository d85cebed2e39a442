//! Entity snapshots.
//!
//! A snapshot is an immutable-once-read value of one stored row (thread,
//! section, event or user) at a point in time, identified by an integer id
//! unique within its kind.  Each snapshot type has a ghost model (its deep
//! view) that the contracts speak about; the user type also carries the
//! permission predicates the endpoints consult.

use vstd::prelude::*;
use crate::json::JsonModel;
use crate::json::JsonValue;
use crate::strutil::lower_chars;
use crate::strutil::str_eq_ignore_case;

verus! {

/// Copy a vector of ids.
pub fn clone_vec_i32(v: &Vec<i32>) -> (r: Vec<i32>)
    ensures
        r@ == v@,
{
    let mut out: Vec<i32> = Vec::new();
    let mut i: usize = 0;
    while i < v.len()
        invariant
            i <= v@.len(),
            out@ == v@.take(i as int),
        decreases v@.len() - i,
    {
        out.push(v[i]);
        proof {
            assert(v@.take(i as int + 1) =~= v@.take(i as int).push(v@[i as int]));
        }
        i += 1;
    }
    proof {
        assert(v@.take(v@.len() as int) =~= v@);
    }
    out
}

/// Copy a vector of strings.
pub fn clone_vec_string(v: &Vec<String>) -> (r: Vec<String>)
    ensures
        r@ == v@,
{
    let mut out: Vec<String> = Vec::new();
    let mut i: usize = 0;
    while i < v.len()
        invariant
            i <= v@.len(),
            out@ == v@.take(i as int),
        decreases v@.len() - i,
    {
        out.push(v[i].clone());
        proof {
            assert(v@.take(i as int + 1) =~= v@.take(i as int).push(v@[i as int]));
        }
        i += 1;
    }
    proof {
        assert(v@.take(v@.len() as int) =~= v@);
    }
    out
}

/// Copy an optional string.
pub fn clone_opt_string(v: &Option<String>) -> (r: Option<String>)
    ensures
        r == *v,
{
    match v {
        Option::None => Option::None,
        Option::Some(s) => Option::Some(s.clone()),
    }
}

/// A thread: one collaboratively edited document, owning ordered lists of
/// section and event ids (the order is meaningful and preserved).
#[derive(Debug)]
pub struct Thread {
    pub id: i32,
    pub thread_name: String,
    pub display_name: String,
    pub post_id: Option<String>,
    pub subreddit: Option<String>,
    pub space__t0: Option<i64>,
    pub video_url: Option<String>,
    pub spacex__api_id: Option<String>,
    pub created_by_user_id: i32,
    pub sections_id: Vec<i32>,
    pub events_id: Vec<i32>,
    pub event_column_headers: Vec<String>,
    pub space__utc_col_index: Option<i16>,
    pub is_live: bool,
}

/// Ghost model of a [`Thread`].
pub struct ThreadModel {
    pub id: i32,
    pub thread_name: Seq<char>,
    pub display_name: Seq<char>,
    pub post_id: Option<Seq<char>>,
    pub subreddit: Option<Seq<char>>,
    pub space__t0: Option<i64>,
    pub video_url: Option<Seq<char>>,
    pub spacex__api_id: Option<Seq<char>>,
    pub created_by_user_id: i32,
    pub sections_id: Seq<i32>,
    pub events_id: Seq<i32>,
    pub event_column_headers: Seq<Seq<char>>,
    pub space__utc_col_index: Option<i16>,
    pub is_live: bool,
}

impl View for Thread {
    type V = ThreadModel;

    open spec fn view(&self) -> ThreadModel {
        ThreadModel {
            id: self.id,
            thread_name: self.thread_name@,
            display_name: self.display_name@,
            post_id: self.post_id.deep_view(),
            subreddit: self.subreddit.deep_view(),
            space__t0: self.space__t0,
            video_url: self.video_url.deep_view(),
            spacex__api_id: self.spacex__api_id.deep_view(),
            created_by_user_id: self.created_by_user_id,
            sections_id: self.sections_id@,
            events_id: self.events_id@,
            event_column_headers: self.event_column_headers.deep_view(),
            space__utc_col_index: self.space__utc_col_index,
            is_live: self.is_live,
        }
    }
}

impl DeepView for Thread {
    type V = ThreadModel;

    open spec fn deep_view(&self) -> ThreadModel {
        self.view()
    }
}

impl Clone for Thread {
    fn clone(&self) -> (r: Self)
        ensures
            r@ == self@,
    {
        let r = Thread {
            id: self.id,
            thread_name: self.thread_name.clone(),
            display_name: self.display_name.clone(),
            post_id: clone_opt_string(&self.post_id),
            subreddit: clone_opt_string(&self.subreddit),
            space__t0: self.space__t0,
            video_url: clone_opt_string(&self.video_url),
            spacex__api_id: clone_opt_string(&self.spacex__api_id),
            created_by_user_id: self.created_by_user_id,
            sections_id: clone_vec_i32(&self.sections_id),
            events_id: clone_vec_i32(&self.events_id),
            event_column_headers: clone_vec_string(&self.event_column_headers),
            space__utc_col_index: self.space__utc_col_index,
            is_live: self.is_live,
        };
        r
    }
}

/// A section: a titled group of event rows inside a thread, carrying the
/// pessimistic edit lock (`lock_held_by_user_id`, `lock_assigned_at_utc`).
#[derive(Debug)]
pub struct Section {
    pub id: i32,
    pub is_events_section: bool,
    pub name: String,
    pub content: String,
    pub lock_held_by_user_id: Option<i32>,
    pub lock_assigned_at_utc: i64,
    pub in_thread_id: i32,
}

/// Ghost model of a [`Section`].
pub struct SectionModel {
    pub id: i32,
    pub is_events_section: bool,
    pub name: Seq<char>,
    pub content: Seq<char>,
    pub lock_held_by_user_id: Option<i32>,
    pub lock_assigned_at_utc: i64,
    pub in_thread_id: i32,
}

impl View for Section {
    type V = SectionModel;

    open spec fn view(&self) -> SectionModel {
        SectionModel {
            id: self.id,
            is_events_section: self.is_events_section,
            name: self.name@,
            content: self.content@,
            lock_held_by_user_id: self.lock_held_by_user_id,
            lock_assigned_at_utc: self.lock_assigned_at_utc,
            in_thread_id: self.in_thread_id,
        }
    }
}

impl DeepView for Section {
    type V = SectionModel;

    open spec fn deep_view(&self) -> SectionModel {
        self.view()
    }
}

impl Clone for Section {
    fn clone(&self) -> (r: Self)
        ensures
            r@ == self@,
    {
        Section {
            id: self.id,
            is_events_section: self.is_events_section,
            name: self.name.clone(),
            content: self.content.clone(),
            lock_held_by_user_id: self.lock_held_by_user_id,
            lock_assigned_at_utc: self.lock_assigned_at_utc,
            in_thread_id: self.in_thread_id,
        }
    }
}

/// An event: one timestamped row of a thread's table; its columns are a
/// JSON array shaped by the owning thread's column headers.
#[derive(Debug)]
pub struct Event {
    pub id: i32,
    pub posted: bool,
    pub in_thread_id: i32,
    pub cols: JsonValue,
}

/// Ghost model of an [`Event`].
pub struct EventModel {
    pub id: i32,
    pub posted: bool,
    pub in_thread_id: i32,
    pub cols: JsonModel,
}

impl View for Event {
    type V = EventModel;

    open spec fn view(&self) -> EventModel {
        EventModel {
            id: self.id,
            posted: self.posted,
            in_thread_id: self.in_thread_id,
            cols: self.cols@,
        }
    }
}

impl DeepView for Event {
    type V = EventModel;

    open spec fn deep_view(&self) -> EventModel {
        self.view()
    }
}

impl Clone for Event {
    fn clone(&self) -> (r: Self)
        ensures
            r@ == self@,
    {
        Event {
            id: self.id,
            posted: self.posted,
            in_thread_id: self.in_thread_id,
            cols: self.cols.clone(),
        }
    }
}

/// A user: an editor account; the per-community capability flags gate
/// moderation actions.  Token fields hold ciphertext supplied by the
/// encryption collaborator and are never serialized outbound.
#[derive(Debug)]
pub struct User {
    pub id: i32,
    pub reddit_username: String,
    pub lang: String,
    pub refresh_token: Vec<u8>,
    pub is_global_admin: bool,
    pub spacex__is_host: bool,
    pub spacex__is_mod: bool,
    pub spacex__is_slack_member: bool,
    pub access_token: Vec<u8>,
    pub access_token_expires_at_utc: i64,
}

/// Ghost model of a [`User`].
pub struct UserModel {
    pub id: i32,
    pub reddit_username: Seq<char>,
    pub lang: Seq<char>,
    pub refresh_token: Seq<u8>,
    pub is_global_admin: bool,
    pub spacex__is_host: bool,
    pub spacex__is_mod: bool,
    pub spacex__is_slack_member: bool,
    pub access_token: Seq<u8>,
    pub access_token_expires_at_utc: i64,
}

impl View for User {
    type V = UserModel;

    open spec fn view(&self) -> UserModel {
        UserModel {
            id: self.id,
            reddit_username: self.reddit_username@,
            lang: self.lang@,
            refresh_token: self.refresh_token@,
            is_global_admin: self.is_global_admin,
            spacex__is_host: self.spacex__is_host,
            spacex__is_mod: self.spacex__is_mod,
            spacex__is_slack_member: self.spacex__is_slack_member,
            access_token: self.access_token@,
            access_token_expires_at_utc: self.access_token_expires_at_utc,
        }
    }
}

impl DeepView for User {
    type V = UserModel;

    open spec fn deep_view(&self) -> UserModel {
        self.view()
    }
}

/// Copy a byte vector.
pub fn clone_vec_u8(v: &Vec<u8>) -> (r: Vec<u8>)
    ensures
        r@ == v@,
{
    let mut out: Vec<u8> = Vec::new();
    let mut i: usize = 0;
    while i < v.len()
        invariant
            i <= v@.len(),
            out@ == v@.take(i as int),
        decreases v@.len() - i,
    {
        out.push(v[i]);
        proof {
            assert(v@.take(i as int + 1) =~= v@.take(i as int).push(v@[i as int]));
        }
        i += 1;
    }
    proof {
        assert(v@.take(v@.len() as int) =~= v@);
    }
    out
}

impl Clone for User {
    fn clone(&self) -> (r: Self)
        ensures
            r@ == self@,
    {
        User {
            id: self.id,
            reddit_username: self.reddit_username.clone(),
            lang: self.lang.clone(),
            refresh_token: clone_vec_u8(&self.refresh_token),
            is_global_admin: self.is_global_admin,
            spacex__is_host: self.spacex__is_host,
            spacex__is_mod: self.spacex__is_mod,
            spacex__is_slack_member: self.spacex__is_slack_member,
            access_token: clone_vec_u8(&self.access_token),
            access_token_expires_at_utc: self.access_token_expires_at_utc,
        }
    }
}

/// The kind of a stored entity; ids are unique within one kind.
#[derive(Clone, Copy, Debug, PartialEq, Eq, Structural)]
pub enum EntityKind {
    Thread,
    Section,
    Event,
    User,
}

/// One entity snapshot of any kind, as held by a cache.
#[derive(Debug)]
pub enum Entity {
    Thread(Thread),
    Section(Section),
    Event(Event),
    User(User),
}

/// Ghost model of an [`Entity`].
pub enum EntityModel {
    Thread(ThreadModel),
    Section(SectionModel),
    Event(EventModel),
    User(UserModel),
}

impl EntityModel {
    /// The kind of the snapshot.
    pub open spec fn kind(self) -> EntityKind {
        match self {
            EntityModel::Thread(_) => EntityKind::Thread,
            EntityModel::Section(_) => EntityKind::Section,
            EntityModel::Event(_) => EntityKind::Event,
            EntityModel::User(_) => EntityKind::User,
        }
    }

    /// The id of the snapshot, unique within its kind.
    pub open spec fn id(self) -> i32 {
        match self {
            EntityModel::Thread(t) => t.id,
            EntityModel::Section(s) => s.id,
            EntityModel::Event(e) => e.id,
            EntityModel::User(u) => u.id,
        }
    }
}

impl View for Entity {
    type V = EntityModel;

    open spec fn view(&self) -> EntityModel {
        match self {
            Entity::Thread(t) => EntityModel::Thread(t@),
            Entity::Section(s) => EntityModel::Section(s@),
            Entity::Event(e) => EntityModel::Event(e@),
            Entity::User(u) => EntityModel::User(u@),
        }
    }
}

impl DeepView for Entity {
    type V = EntityModel;

    open spec fn deep_view(&self) -> EntityModel {
        self.view()
    }
}

impl Clone for Entity {
    fn clone(&self) -> (r: Self)
        ensures
            r@ == self@,
    {
        match self {
            Entity::Thread(t) => Entity::Thread(t.clone()),
            Entity::Section(s) => Entity::Section(s.clone()),
            Entity::Event(e) => Entity::Event(e.clone()),
            Entity::User(u) => Entity::User(u.clone()),
        }
    }
}

impl Entity {
    /// The kind of the snapshot.
    pub fn kind(&self) -> (r: EntityKind)
        ensures
            r == self@.kind(),
    {
        match self {
            Entity::Thread(_) => EntityKind::Thread,
            Entity::Section(_) => EntityKind::Section,
            Entity::Event(_) => EntityKind::Event,
            Entity::User(_) => EntityKind::User,
        }
    }

    /// The id of the snapshot, unique within its kind.
    pub fn id(&self) -> (r: i32)
        ensures
            r == self@.id(),
    {
        match self {
            Entity::Thread(t) => t.id,
            Entity::Section(s) => s.id,
            Entity::Event(e) => e.id,
            Entity::User(u) => u.id,
        }
    }
}

/// The subreddit name whose capability flags the user records carry.
pub open spec fn known_community() -> Seq<char> {
    "spacex"@
}

impl User {
    /// Does this user moderate the given subreddit?  Matching is
    /// ASCII-case-insensitive; an unknown or absent subreddit yields `false`.
    pub open spec fn is_moderator_of_spec(self, subreddit: Option<Seq<char>>) -> bool {
        match subreddit {
            Option::Some(s) => lower_chars(s) == known_community() && self.spacex__is_mod,
            Option::None => false,
        }
    }

    /// Check if the user is a moderator of a given subreddit.
    ///
    /// If the subreddit is not known, returns `false`.
    pub fn is_moderator_of(&self, subreddit: Option<&str>) -> (r: bool)
        ensures
            r == self.is_moderator_of_spec(subreddit.deep_view()),
    {
        proof {
            reveal_strlit("spacex");
        }
        match subreddit {
            Option::Some(s) => {
                let m = str_eq_ignore_case(s, "spacex");
                proof {
                    assert(lower_chars("spacex"@) =~= known_community());
                }
                m && self.spacex__is_mod
            },
            Option::None => false,
        }
    }

    /// Does this user host the given subreddit?  Matching is
    /// ASCII-case-insensitive; an unknown or absent subreddit yields `false`.
    pub open spec fn is_host_for_spec(self, subreddit: Option<Seq<char>>) -> bool {
        match subreddit {
            Option::Some(s) => lower_chars(s) == known_community() && self.spacex__is_host,
            Option::None => false,
        }
    }

    /// Check if the user is a host of a given subreddit.
    ///
    /// If the subreddit is not known, returns `false`.
    pub fn is_host_for(&self, subreddit: Option<&str>) -> (r: bool)
        ensures
            r == self.is_host_for_spec(subreddit.deep_view()),
    {
        proof {
            reveal_strlit("spacex");
        }
        match subreddit {
            Option::Some(s) => {
                let m = str_eq_ignore_case(s, "spacex");
                proof {
                    assert(lower_chars("spacex"@) =~= known_community());
                }
                m && self.spacex__is_host
            },
            Option::None => false,
        }
    }

    /// May this user modify the given thread (and its sections and events)?
    ///
    /// Global admins may modify anything; otherwise the thread must exist
    /// and the user must either host its subreddit or be its author.
    pub open spec fn can_modify_thread_spec(self, thread: Option<ThreadModel>) -> bool {
        self.is_global_admin || match thread {
            Option::Some(t) => self.is_host_for_spec(t.subreddit) || t.created_by_user_id
                == self.id,
            Option::None => false,
        }
    }

    /// Is the provided user able to modify data (including sections and
    /// events) on the indicated thread?  `thread` is the result of looking
    /// the thread up; an absent thread denies everyone but global admins.
    pub fn can_modify_thread(&self, thread: Option<&Thread>) -> (r: bool)
        ensures
            r == self.can_modify_thread_spec(thread.deep_view()),
    {
        if self.is_global_admin {
            return true;
        }
        match thread {
            Option::None => false,
            Option::Some(t) => {
                let subreddit: Option<&str> = match &t.subreddit {
                    Option::Some(s) => Option::Some(s.as_str()),
                    Option::None => Option::None,
                };
                if self.is_host_for(subreddit) {
                    true
                } else {
                    t.created_by_user_id == self.id
                }
            },
        }
    }
}

} // verus!
