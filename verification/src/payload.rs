//! Request payloads and the pure halves of the endpoint logic.
//!
//! The insert/update shapes the write paths accept, the conversions that
//! prepare them (token fields arrive already encrypted by the encryption
//! collaborator), the untagged request discriminants decoded by trying
//! each variant's structural shape in a fixed priority order, and the
//! validation rules the endpoints apply before writing.

use vstd::prelude::*;
use vstd::pervasive::VecAdditionalExecFns;
use vstd::string::StrSliceExecFns;
use vstd::string::StringExecFns;
use crate::entity::Thread;
use crate::entity::User;
use crate::json::JsonModel;
use crate::json::JsonValue;
use crate::json::clone_json;
use crate::lock::ExternalLockSection;
use crate::pipeline::Status;
use crate::strutil::str_eq;

verus! {

/// A new thread as a client may submit it; the server supplies the
/// author, the mirror post id and the initial (empty) id lists.
#[derive(Debug)]
pub struct ExternalInsertThread {
    pub thread_name: String,
    pub display_name: String,
    pub subreddit: Option<String>,
    pub space__t0: Option<i64>,
    pub video_url: Option<String>,
    pub spacex__api_id: Option<String>,
    pub event_column_headers: Vec<String>,
    pub space__utc_col_index: Option<i16>,
    pub is_live: Option<bool>,
}

/// A new thread row as handed to the durable store.
#[derive(Debug)]
pub struct InsertThread {
    pub thread_name: String,
    pub display_name: String,
    pub post_id: Option<String>,
    pub subreddit: Option<String>,
    pub space__t0: Option<i64>,
    pub video_url: Option<String>,
    pub spacex__api_id: Option<String>,
    pub created_by_user_id: i32,
    pub sections_id: Vec<i32>,
    pub events_id: Vec<i32>,
    pub event_column_headers: Vec<String>,
    pub space__utc_col_index: Option<i16>,
    pub is_live: bool,
}

impl InsertThread {
    /// Prepare a client-submitted thread for the store: the requesting
    /// user becomes the author, the mirror post id (if the thread was
    /// posted outward) is recorded, the id lists start empty, and an
    /// unspecified liveness defaults to `false`.
    pub fn from_external(
        data: &ExternalInsertThread,
        user_id: i32,
        reddit_post_id: Option<String>,
    ) -> (r: InsertThread)
        ensures
            r.thread_name@ == data.thread_name@,
            r.display_name@ == data.display_name@,
            r.post_id == reddit_post_id,
            r.subreddit.deep_view() == data.subreddit.deep_view(),
            r.space__t0 == data.space__t0,
            r.video_url.deep_view() == data.video_url.deep_view(),
            r.spacex__api_id.deep_view() == data.spacex__api_id.deep_view(),
            r.created_by_user_id == user_id,
            r.sections_id@ == Seq::<i32>::empty(),
            r.events_id@ == Seq::<i32>::empty(),
            r.event_column_headers.deep_view() == data.event_column_headers.deep_view(),
            r.space__utc_col_index == data.space__utc_col_index,
            r.is_live == (data.is_live matches Some(true)),
    {
        let is_live = match data.is_live {
            Option::Some(b) => b,
            Option::None => false,
        };
        InsertThread {
            thread_name: data.thread_name.clone(),
            display_name: data.display_name.clone(),
            post_id: reddit_post_id,
            subreddit: crate::entity::clone_opt_string(&data.subreddit),
            space__t0: data.space__t0,
            video_url: crate::entity::clone_opt_string(&data.video_url),
            spacex__api_id: crate::entity::clone_opt_string(&data.spacex__api_id),
            created_by_user_id: user_id,
            sections_id: Vec::new(),
            events_id: Vec::new(),
            event_column_headers: crate::entity::clone_vec_string(&data.event_column_headers),
            space__utc_col_index: data.space__utc_col_index,
            is_live,
        }
    }
}

/// A partial thread update; absent fields stay as they are.
#[derive(Debug)]
pub struct UpdateThread {
    pub display_name: Option<String>,
    pub space__t0: Option<Option<i64>>,
    pub video_url: Option<Option<String>>,
    pub spacex__api_id: Option<Option<String>>,
    pub sections_id: Option<Vec<i32>>,
    pub events_id: Option<Vec<i32>>,
    pub event_column_headers: Option<Vec<String>>,
    pub is_live: Option<bool>,
}

impl Default for UpdateThread {
    /// An update that changes nothing.
    fn default() -> (r: Self)
        ensures
            r.display_name is None,
            r.space__t0 is None,
            r.video_url is None,
            r.spacex__api_id is None,
            r.sections_id is None,
            r.events_id is None,
            r.event_column_headers is None,
            r.is_live is None,
    {
        UpdateThread {
            display_name: None,
            space__t0: None,
            video_url: None,
            spacex__api_id: None,
            sections_id: None,
            events_id: None,
            event_column_headers: None,
            is_live: None,
        }
    }
}

/// A new section row; a bare `{"in_thread_id": …}` submission defaults
/// the name and content to empty and the events flag to `false`.
#[derive(Debug)]
pub struct InsertSection {
    pub is_events_section: bool,
    pub name: String,
    pub content: String,
    pub in_thread_id: i32,
}

/// A partial section update on everything but the lock fields.
#[derive(Debug)]
pub struct UpdateSection {
    pub name: Option<String>,
    pub content: Option<String>,
}

/// A new event row.
#[derive(Debug)]
pub struct InsertEvent {
    pub posted: bool,
    pub in_thread_id: i32,
    pub cols: JsonValue,
}

/// A partial event update.
#[derive(Debug)]
pub struct UpdateEvent {
    pub posted: Option<bool>,
    pub cols: Option<JsonValue>,
}

impl Default for UpdateEvent {
    /// An update that changes nothing.
    fn default() -> (r: Self)
        ensures
            r.posted is None,
            r.cols is None,
    {
        UpdateEvent { posted: None, cols: None }
    }
}

/// A new user row; the token fields hold ciphertext.
#[derive(Debug)]
pub struct InsertUser {
    pub reddit_username: String,
    pub lang: String,
    pub refresh_token: Vec<u8>,
    pub is_global_admin: bool,
    pub spacex__is_host: bool,
    pub spacex__is_mod: bool,
    pub spacex__is_slack_member: bool,
    pub access_token: Vec<u8>,
    pub access_token_expires_at_utc: i64,
}

/// A partial user update; the token fields hold ciphertext.
#[derive(Debug)]
pub struct UpdateUser {
    pub lang: Option<String>,
    pub refresh_token: Option<Vec<u8>>,
    pub is_global_admin: Option<bool>,
    pub spacex__is_host: Option<bool>,
    pub spacex__is_mod: Option<bool>,
    pub spacex__is_slack_member: Option<bool>,
    pub access_token: Option<Vec<u8>>,
    pub access_token_expires_at_utc: Option<i64>,
}

impl Default for UpdateUser {
    /// An update that changes nothing.
    fn default() -> (r: Self)
        ensures
            r.lang is None,
            r.refresh_token is None,
            r.is_global_admin is None,
            r.spacex__is_host is None,
            r.spacex__is_mod is None,
            r.spacex__is_slack_member is None,
            r.access_token is None,
            r.access_token_expires_at_utc is None,
    {
        UpdateUser {
            lang: None,
            refresh_token: None,
            is_global_admin: None,
            spacex__is_host: None,
            spacex__is_mod: None,
            spacex__is_slack_member: None,
            access_token: None,
            access_token_expires_at_utc: None,
        }
    }
}

impl UpdateUser {
    /// The update written when a fresh outward access token was obtained:
    /// only the (encrypted) token and its expiry change.
    pub fn token_refresh(access_token_enc: Vec<u8>, expires_at_utc: i64) -> (r: UpdateUser)
        ensures
            r.lang is None,
            r.refresh_token is None,
            r.is_global_admin is None,
            r.spacex__is_host is None,
            r.spacex__is_mod is None,
            r.spacex__is_slack_member is None,
            r.access_token matches Some(t) && t@ == access_token_enc@,
            r.access_token_expires_at_utc == Some(expires_at_utc),
    {
        UpdateUser {
            access_token: Some(access_token_enc),
            access_token_expires_at_utc: Some(expires_at_utc),
            ..Default::default()
        }
    }

    /// Must the stored token row be rewritten?  Only when the outward
    /// token's expiry differs from the stored one.
    pub fn needs_token_refresh(stored_expires_at: i64, current_expires_at: i64) -> (r: bool)
        ensures
            r == (stored_expires_at != current_expires_at),
    {
        stored_expires_at != current_expires_at
    }
}

/// A new user as a client submits it, tokens still in the clear; the
/// encryption collaborator turns them into the stored ciphertext.
#[derive(Debug)]
pub struct ExternalInsertUser {
    pub reddit_username: String,
    pub lang: String,
    pub refresh_token: String,
    pub is_global_admin: bool,
    pub spacex__is_host: bool,
    pub spacex__is_mod: bool,
    pub spacex__is_slack_member: bool,
    pub access_token: String,
    pub access_token_expires_at_utc: i64,
}

/// A partial user update as a client submits it, tokens in the clear.
#[derive(Debug)]
pub struct ExternalUpdateUser {
    pub lang: Option<String>,
    pub refresh_token: Option<String>,
    pub is_global_admin: Option<bool>,
    pub spacex__is_host: Option<bool>,
    pub spacex__is_mod: Option<bool>,
    pub spacex__is_slack_member: Option<bool>,
    pub access_token: Option<String>,
    pub access_token_expires_at_utc: Option<i64>,
}

/// The default language of a new user record.
pub fn en() -> (r: String)
    ensures
        r@ == "en"@,
{
    "en".to_owned()
}

/// The default value of a new user record's capability flags.
pub fn falsey() -> (r: bool)
    ensures
        !r,
{
    false
}

impl InsertUser {
    /// Pair a client submission with the ciphertext of its two tokens.
    pub fn from_external(
        data: &ExternalInsertUser,
        refresh_token_enc: Vec<u8>,
        access_token_enc: Vec<u8>,
    ) -> (r: InsertUser)
        ensures
            r.reddit_username@ == data.reddit_username@,
            r.lang@ == data.lang@,
            r.refresh_token@ == refresh_token_enc@,
            r.is_global_admin == data.is_global_admin,
            r.spacex__is_host == data.spacex__is_host,
            r.spacex__is_mod == data.spacex__is_mod,
            r.spacex__is_slack_member == data.spacex__is_slack_member,
            r.access_token@ == access_token_enc@,
            r.access_token_expires_at_utc == data.access_token_expires_at_utc,
    {
        InsertUser {
            reddit_username: data.reddit_username.clone(),
            lang: data.lang.clone(),
            refresh_token: refresh_token_enc,
            is_global_admin: data.is_global_admin,
            spacex__is_host: data.spacex__is_host,
            spacex__is_mod: data.spacex__is_mod,
            spacex__is_slack_member: data.spacex__is_slack_member,
            access_token: access_token_enc,
            access_token_expires_at_utc: data.access_token_expires_at_utc,
        }
    }
}

impl UpdateUser {
    /// Pair a client submission with the ciphertext of whichever tokens
    /// it carries (`None` where the submission carried none).
    pub fn from_external(
        data: &ExternalUpdateUser,
        refresh_token_enc: Option<Vec<u8>>,
        access_token_enc: Option<Vec<u8>>,
    ) -> (r: UpdateUser)
        ensures
            r.lang.deep_view() == data.lang.deep_view(),
            r.refresh_token.deep_view() == refresh_token_enc.deep_view(),
            r.is_global_admin == data.is_global_admin,
            r.spacex__is_host == data.spacex__is_host,
            r.spacex__is_mod == data.spacex__is_mod,
            r.spacex__is_slack_member == data.spacex__is_slack_member,
            r.access_token.deep_view() == access_token_enc.deep_view(),
            r.access_token_expires_at_utc == data.access_token_expires_at_utc,
    {
        UpdateUser {
            lang: crate::entity::clone_opt_string(&data.lang),
            refresh_token: refresh_token_enc,
            is_global_admin: data.is_global_admin,
            spacex__is_host: data.spacex__is_host,
            spacex__is_mod: data.spacex__is_mod,
            spacex__is_slack_member: data.spacex__is_slack_member,
            access_token: access_token_enc,
            access_token_expires_at_utc: data.access_token_expires_at_utc,
        }
    }
}

/// A section `PATCH` is either a lock transition or an ordinary field
/// update; the two shapes never overlap, and the lock shape is tried
/// first.
#[derive(Debug)]
pub enum UpdateSectionDiscriminant {
    LockSection(ExternalLockSection),
    UpdateSection(UpdateSection),
}

/// The lock-transition shape: exactly the field `lock_held_by_user_id`,
/// holding `null` or a user id.
pub open spec fn decode_lock_spec(m: JsonModel) -> Option<ExternalLockSection> {
    match m {
        JsonModel::Obj(entries) => if entries.len() == 1 && entries[0].0
            == "lock_held_by_user_id"@ {
            match entries[0].1 {
                JsonModel::Null => Some(ExternalLockSection { lock_held_by_user_id: None }),
                JsonModel::Int(n) => if i32::MIN <= n <= i32::MAX {
                    Some(ExternalLockSection { lock_held_by_user_id: Some(n as i32) })
                } else {
                    None
                },
                _ => None,
            }
        } else {
            None
        },
        _ => None,
    }
}

/// The field-update shape: an object whose keys are drawn from `name`
/// and `content`, each a string, each at most once.
pub open spec fn decode_update_section_spec(m: JsonModel) -> Option<UpdateSectionModelFields> {
    match m {
        JsonModel::Obj(entries) => if entries.len() == 0 {
            Some(UpdateSectionModelFields { name: None, content: None })
        } else if entries.len() == 1 {
            decode_one_section_field(entries[0], UpdateSectionModelFields {
                name: None,
                content: None,
            })
        } else if entries.len() == 2 && entries[0].0 != entries[1].0 {
            match decode_one_section_field(entries[0], UpdateSectionModelFields {
                name: None,
                content: None,
            }) {
                Some(partial) => decode_one_section_field(entries[1], partial),
                None => None,
            }
        } else {
            None
        },
        _ => None,
    }
}

/// The ghost fields of a decoded section update.
pub struct UpdateSectionModelFields {
    pub name: Option<Seq<char>>,
    pub content: Option<Seq<char>>,
}

/// Fold one object field into a section update, if it is one of the two
/// updatable string fields.
pub open spec fn decode_one_section_field(
    entry: (Seq<char>, JsonModel),
    acc: UpdateSectionModelFields,
) -> Option<UpdateSectionModelFields> {
    match entry.1 {
        JsonModel::Str(s) => if entry.0 == "name"@ {
            Some(UpdateSectionModelFields { name: Some(s), ..acc })
        } else if entry.0 == "content"@ {
            Some(UpdateSectionModelFields { content: Some(s), ..acc })
        } else {
            None
        },
        _ => None,
    }
}

/// The ghost form of a decoded section `PATCH`.
pub open spec fn decode_section_patch_spec(m: JsonModel) -> Option<
    UpdateSectionDiscriminantModel,
> {
    match decode_lock_spec(m) {
        Some(l) => Some(UpdateSectionDiscriminantModel::LockSection(l.lock_held_by_user_id)),
        None => match decode_update_section_spec(m) {
            Some(u) => Some(UpdateSectionDiscriminantModel::UpdateSection(u)),
            None => None,
        },
    }
}

/// Ghost form of [`UpdateSectionDiscriminant`].
pub enum UpdateSectionDiscriminantModel {
    LockSection(Option<i32>),
    UpdateSection(UpdateSectionModelFields),
}

impl View for UpdateSectionDiscriminant {
    type V = UpdateSectionDiscriminantModel;

    open spec fn view(&self) -> UpdateSectionDiscriminantModel {
        match self {
            UpdateSectionDiscriminant::LockSection(l) => {
                UpdateSectionDiscriminantModel::LockSection(l.lock_held_by_user_id)
            },
            UpdateSectionDiscriminant::UpdateSection(u) => {
                UpdateSectionDiscriminantModel::UpdateSection(
                    UpdateSectionModelFields {
                        name: u.name.deep_view(),
                        content: u.content.deep_view(),
                    },
                )
            },
        }
    }
}

/// Decode a section `PATCH` body, trying the lock shape first and the
/// field-update shape second; any other shape is rejected.
pub fn decode_section_patch(v: &JsonValue) -> (r: Option<UpdateSectionDiscriminant>)
    ensures
        match r {
            Some(d) => decode_section_patch_spec(v@) == Some(d@),
            None => decode_section_patch_spec(v@) is None,
        },
{
    let entries = match v {
        JsonValue::Obj(entries) => entries,
        _ => {
            return None;
        },
    };
    proof {
        crate::json::lemma_json_model_entries(entries@);
    }
    if entries.len() == 1 {
        let is_lock_key = str_eq(entries[0].0.as_str(), "lock_held_by_user_id");
        if is_lock_key {
            match &entries[0].1 {
                JsonValue::Null => {
                    return Some(
                        UpdateSectionDiscriminant::LockSection(
                            ExternalLockSection { lock_held_by_user_id: None },
                        ),
                    );
                },
                JsonValue::Int(n) => {
                    if i32::MIN as i64 <= *n && *n <= i32::MAX as i64 {
                        return Some(
                            UpdateSectionDiscriminant::LockSection(
                                ExternalLockSection { lock_held_by_user_id: Some(*n as i32) },
                            ),
                        );
                    } else {
                        proof {
                            reveal_strlit("lock_held_by_user_id");
                            reveal_strlit("name");
                            reveal_strlit("content");
                            let em = crate::json::json_model_entries(entries@);
                            assert(em[0] == (entries@[0].0@, crate::json::json_model(
                                entries@[0].1,
                            )));
                            assert(decode_lock_spec(v@) is None);
                            assert(decode_one_section_field(em[0], UpdateSectionModelFields {
                                name: None,
                                content: None,
                            }) is None);
                        }
                        return None;
                    }
                },
                _ => {
                    proof {
                        reveal_strlit("lock_held_by_user_id");
                        reveal_strlit("name");
                        reveal_strlit("content");
                        assert("lock_held_by_user_id"@.len() == 20);
                        assert("name"@.len() == 4);
                        assert("content"@.len() == 7);
                        assert("lock_held_by_user_id"@ != "name"@);
                        assert("lock_held_by_user_id"@ != "content"@);
                        let em = crate::json::json_model_entries(entries@);
                        assert(em[0] == (entries@[0].0@, crate::json::json_model(
                            entries@[0].1,
                        )));
                        assert(decode_lock_spec(v@) is None);
                        assert(decode_one_section_field(em[0], UpdateSectionModelFields {
                            name: None,
                            content: None,
                        }) is None);
                    }
                    return None;
                },
            }
        }
    }
    // Not the lock shape: try the field-update shape.
    if entries.len() == 0 {
        return Some(
            UpdateSectionDiscriminant::UpdateSection(UpdateSection { name: None, content: None }),
        );
    }
    if entries.len() > 2 {
        return None;
    }
    let mut name: Option<String> = None;
    let mut content: Option<String> = None;
    let first_is_name = str_eq(entries[0].0.as_str(), "name");
    let first_is_content = str_eq(entries[0].0.as_str(), "content");
    match &entries[0].1 {
        JsonValue::Str(s) => {
            if first_is_name {
                name = Some(s.clone());
            } else if first_is_content {
                content = Some(s.clone());
            } else {
                return None;
            }
        },
        _ => {
            return None;
        },
    }
    if entries.len() == 2 {
        if str_eq(entries[1].0.as_str(), entries[0].0.as_str()) {
            return None;
        }
        let second_is_name = str_eq(entries[1].0.as_str(), "name");
        let second_is_content = str_eq(entries[1].0.as_str(), "content");
        match &entries[1].1 {
            JsonValue::Str(s) => {
                if second_is_name {
                    name = Some(s.clone());
                } else if second_is_content {
                    content = Some(s.clone());
                } else {
                    return None;
                }
            },
            _ => {
                return None;
            },
        }
    }
    Some(UpdateSectionDiscriminant::UpdateSection(UpdateSection { name, content }))
}


/// An event `PATCH` is either a full update object or a list of
/// single-column assignments `[column index, new value]`; the full shape
/// is tried first.
#[derive(Debug)]
pub enum UpdateEventDiscriminant {
    FullEvent(UpdateEvent),
    PartialEvent(Vec<(usize, JsonValue)>),
}

/// The ghost fields of a decoded full event update.
pub struct UpdateEventModelFields {
    pub posted: Option<bool>,
    pub cols: Option<JsonModel>,
}

/// Fold one object field into an event update, if it is one of the two
/// updatable fields.
pub open spec fn decode_one_event_field(
    entry: (Seq<char>, JsonModel),
    acc: UpdateEventModelFields,
) -> Option<UpdateEventModelFields> {
    if entry.0 == "posted"@ {
        match entry.1 {
            JsonModel::Bool(b) => Some(UpdateEventModelFields { posted: Some(b), ..acc }),
            _ => None,
        }
    } else if entry.0 == "cols"@ {
        Some(UpdateEventModelFields { cols: Some(entry.1), ..acc })
    } else {
        None
    }
}

/// The full-update shape: an object whose keys are drawn from `posted`
/// (a boolean) and `cols`, each at most once.
pub open spec fn decode_full_event_spec(m: JsonModel) -> Option<UpdateEventModelFields> {
    match m {
        JsonModel::Obj(entries) => if entries.len() == 0 {
            Some(UpdateEventModelFields { posted: None, cols: None })
        } else if entries.len() == 1 {
            decode_one_event_field(entries[0], UpdateEventModelFields {
                posted: None,
                cols: None,
            })
        } else if entries.len() == 2 && entries[0].0 != entries[1].0 {
            match decode_one_event_field(entries[0], UpdateEventModelFields {
                posted: None,
                cols: None,
            }) {
                Some(partial) => decode_one_event_field(entries[1], partial),
                None => None,
            }
        } else {
            None
        },
        _ => None,
    }
}

/// One single-column assignment: an array `[index, value]` whose index
/// is a non-negative number fitting the machine.
pub open spec fn pair_of(m: JsonModel) -> Option<(usize, JsonModel)> {
    match m {
        JsonModel::Arr(two) => if two.len() == 2 && two[0] is Int && 0 <= two[0]->Int_0
            <= usize::MAX {
            Some((two[0]->Int_0 as usize, two[1]))
        } else {
            None
        },
        _ => None,
    }
}

/// The partial-update shape: every element a single-column assignment.
pub open spec fn decode_pairs(s: Seq<JsonModel>) -> Option<Seq<(usize, JsonModel)>>
    decreases s.len(),
{
    if s.len() == 0 {
        Some(Seq::empty())
    } else {
        match decode_pairs(s.drop_last()) {
            Some(rest) => match pair_of(s.last()) {
                Some(p) => Some(rest.push(p)),
                None => None,
            },
            None => None,
        }
    }
}

/// Ghost form of [`UpdateEventDiscriminant`].
pub enum UpdateEventDiscriminantModel {
    FullEvent(UpdateEventModelFields),
    PartialEvent(Seq<(usize, JsonModel)>),
}

impl View for UpdateEventDiscriminant {
    type V = UpdateEventDiscriminantModel;

    open spec fn view(&self) -> UpdateEventDiscriminantModel {
        match self {
            UpdateEventDiscriminant::FullEvent(u) => UpdateEventDiscriminantModel::FullEvent(
                UpdateEventModelFields {
                    posted: u.posted,
                    cols: match u.cols {
                        Option::Some(c) => Option::Some(c@),
                        Option::None => Option::None,
                    },
                },
            ),
            UpdateEventDiscriminant::PartialEvent(ps) => {
                UpdateEventDiscriminantModel::PartialEvent(ps.deep_view())
            },
        }
    }
}

/// The ghost form of a decoded event `PATCH`.
pub open spec fn decode_event_patch_spec(m: JsonModel) -> Option<UpdateEventDiscriminantModel> {
    match decode_full_event_spec(m) {
        Some(f) => Some(UpdateEventDiscriminantModel::FullEvent(f)),
        None => match m {
            JsonModel::Arr(items) => match decode_pairs(items) {
                Some(ps) => Some(UpdateEventDiscriminantModel::PartialEvent(ps)),
                None => None,
            },
            _ => None,
        },
    }
}

/// Decode an event `PATCH` body, trying the full-update shape first and
/// the assignment-list shape second; any other shape is rejected.
#[verifier::loop_isolation(false)]
pub fn decode_event_patch(v: &JsonValue) -> (r: Option<UpdateEventDiscriminant>)
    ensures
        match r {
            Some(d) => decode_event_patch_spec(v@) == Some(d@),
            None => decode_event_patch_spec(v@) is None,
        },
{
    match v {
        JsonValue::Obj(entries) => {
            proof {
                reveal_strlit("posted");
                reveal_strlit("cols");
                assert("posted"@.len() == 6);
                assert("cols"@.len() == 4);
                crate::json::lemma_json_model_entries(entries@);
            }
            if entries.len() > 2 {
                return None;
            }
            let mut posted: Option<bool> = None;
            let mut cols: Option<JsonValue> = None;
            let mut i: usize = 0;
            let ghost em = crate::json::json_model_entries(entries@);
            proof {
                assert(em.take(0) =~= Seq::<(Seq<char>, JsonModel)>::empty());
            }
            while i < entries.len()
                invariant
                    i <= entries@.len(),
                    entries@.len() <= 2,
                    em == crate::json::json_model_entries(entries@),
                    i as int == 2 ==> em[0].0 != em[1].0,
                    (match fold_event_fields(em.take(i as int)) {
                        Some(a) => a.posted == posted && (match (a.cols, cols) {
                            (Option::Some(cm), Option::Some(cv)) => cm == cv@,
                            (Option::None, Option::None) => true,
                            _ => false,
                        }),
                        None => false,
                    }),
                decreases entries@.len() - i,
            {
                proof {
                    assert(em[i as int] == (entries@[i as int].0@, crate::json::json_model(
                        entries@[i as int].1,
                    )));
                    assert(em.take(i as int + 1).drop_last() =~= em.take(i as int));
                    assert(em.take(i as int + 1).last() == em[i as int]);
                }
                if i == 1 {
                    let same = str_eq(entries[1].0.as_str(), entries[0].0.as_str());
                    if same {
                        proof {
                            assert(em[0].0 == em[1].0);
                            assert(decode_full_event_spec(v@) is None);
                        }
                        return None;
                    }
                    proof {
                        assert(em[0].0 != em[1].0);
                    }
                }
                let is_posted = str_eq(entries[i].0.as_str(), "posted");
                let is_cols = str_eq(entries[i].0.as_str(), "cols");
                if is_posted {
                    match &entries[i].1 {
                        JsonValue::Bool(b) => {
                            posted = Some(*b);
                        },
                        _ => {
                            proof {
                                lemma_full_event_bad(em, i as int, v@);
                            }
                            return None;
                        },
                    }
                } else if is_cols {
                    cols = Some(clone_json(&entries[i].1));
                } else {
                    proof {
                        lemma_full_event_bad(em, i as int, v@);
                    }
                    return None;
                }
                i += 1;
            }
            proof {
                assert(em.take(em.len() as int) =~= em);
                let empty_acc = UpdateEventModelFields { posted: None, cols: None };
                assert(fold_event_fields(em.take(0)) == Some(empty_acc));
                if em.len() == 1 {
                    assert(em.take(1).drop_last() =~= em.take(0));
                    assert(em.take(1).last() == em[0]);
                    assert(em.take(1) =~= em);
                    assert(fold_event_fields(em.take(1)) == decode_one_event_field(
                        em[0],
                        empty_acc,
                    ));
                }
                if em.len() == 2 {
                    assert(em.take(1).drop_last() =~= em.take(0));
                    assert(em.take(1).last() == em[0]);
                    assert(fold_event_fields(em.take(1)) == decode_one_event_field(
                        em[0],
                        empty_acc,
                    ));
                    assert(em.take(2).drop_last() =~= em.take(1));
                    assert(em.take(2).last() == em[1]);
                    assert(em.take(2) =~= em);
                }
                assert(decode_full_event_spec(v@) == fold_event_fields(em));
            }
            Some(UpdateEventDiscriminant::FullEvent(UpdateEvent { posted, cols }))
        },
        JsonValue::Arr(items) => {
            let ghost im = crate::json::json_model_seq(items@);
            proof {
                crate::json::lemma_json_model_seq(items@);
                assert(decode_full_event_spec(v@) is None);
                assert(im.take(0) =~= Seq::<JsonModel>::empty());
            }
            let mut out: Vec<(usize, JsonValue)> = Vec::new();
            let mut i: usize = 0;
            while i < items.len()
                invariant
                    i <= items@.len(),
                    decode_pairs(im.take(i as int)) == Some(out.deep_view()),
                decreases items@.len() - i,
            {
                proof {
                    assert(im.take(i as int + 1).drop_last() =~= im.take(i as int));
                    assert(im.take(i as int + 1).last() == im[i as int]);
                    assert(im[i as int] == crate::json::json_model(items@[i as int]));
                }
                let two = match &items[i] {
                    JsonValue::Arr(two) => two,
                    _ => {
                        proof {
                            lemma_decode_pairs_bad(im, i as int);
                        }
                        return None;
                    },
                };
                let ghost tm = crate::json::json_model_seq(two@);
                proof {
                    crate::json::lemma_json_model_seq(two@);
                }
                if two.len() != 2 {
                    proof {
                        lemma_decode_pairs_bad(im, i as int);
                    }
                    return None;
                }
                let idx: usize = match &two[0] {
                    JsonValue::Int(n) => {
                        if *n < 0 || (*n as u64) > (usize::MAX as u64) {
                            proof {
                                assert(pair_of(im[i as int]) is None);
                                lemma_decode_pairs_bad(im, i as int);
                            }
                            return None;
                        }
                        *n as usize
                    },
                    _ => {
                        proof {
                            assert(pair_of(im[i as int]) is None);
                            lemma_decode_pairs_bad(im, i as int);
                        }
                        return None;
                    },
                };
                let value = clone_json(&two[1]);
                let ghost prev = out.deep_view();
                proof {
                    assert(pair_of(im[i as int]) == Some((idx, tm[1])));
                }
                out.push((idx, value));
                proof {
                    assert(out.deep_view() =~= prev.push((idx, value@)));
                    assert(value@ == tm[1]);
                }
                i += 1;
            }
            proof {
                assert(im.take(im.len() as int) =~= im);
            }
            Some(UpdateEventDiscriminant::PartialEvent(out))
        },
        _ => {
            return None;
        },
    }
}

/// The fold of already-scanned full-update fields, starting empty.
pub open spec fn fold_event_fields(s: Seq<(Seq<char>, JsonModel)>) -> Option<
    UpdateEventModelFields,
>
    decreases s.len(),
{
    if s.len() == 0 {
        Some(UpdateEventModelFields { posted: None, cols: None })
    } else {
        match fold_event_fields(s.drop_last()) {
            Some(acc) => decode_one_event_field(s.last(), acc),
            None => None,
        }
    }
}

/// A field that folds to nothing makes the whole full-update shape
/// undecodable, wherever it stands.
proof fn lemma_full_event_bad(em: Seq<(Seq<char>, JsonModel)>, i: int, m: JsonModel)
    requires
        m == JsonModel::Obj(em),
        em.len() <= 2,
        0 <= i < em.len(),
        fold_event_fields(em.take(i)) is Some,
        decode_one_event_field(em[i], fold_event_fields(em.take(i))->0) is None,
    ensures
        decode_full_event_spec(m) is None,
{
    assert(em.take(0) =~= Seq::<(Seq<char>, JsonModel)>::empty());
    let empty_acc = UpdateEventModelFields { posted: None, cols: None };
    assert(fold_event_fields(em.take(0)) == Some(empty_acc));
    if em.len() == 1 {
        assert(em.take(1).drop_last() =~= em.take(0));
        assert(em.take(1).last() == em[0]);
        assert(em.take(1) =~= em);
        assert(fold_event_fields(em.take(1)) == decode_one_event_field(em[0], empty_acc));
    }
    if em.len() == 2 {
        assert(em.take(1).drop_last() =~= em.take(0));
        assert(em.take(1).last() == em[0]);
        assert(fold_event_fields(em.take(1)) == decode_one_event_field(em[0], empty_acc));
        assert(em.take(2).drop_last() =~= em.take(1));
        assert(em.take(2).last() == em[1]);
        assert(em.take(2) =~= em);
    }
}

/// A bad element anywhere makes the assignment list undecodable.
proof fn lemma_decode_pairs_bad(s: Seq<JsonModel>, i: int)
    requires
        0 <= i < s.len(),
        pair_of(s[i]) is None,
    ensures
        decode_pairs(s) is None,
    decreases s.len(),
{
    if s.len() > 0 {
        if i == s.len() - 1 {
        } else {
            lemma_decode_pairs_bad(s.drop_last(), i);
        }
    }
}

/// Are an event's columns acceptable for a thread?  They must form an
/// array as long as the thread's column headers, every column a string
/// except the designated UTC column (if any), which must be a number.
pub open spec fn valid_cols_spec(m: JsonModel, headers_len: int, utc: Option<i16>) -> bool {
    match m {
        JsonModel::Arr(items) => items.len() == headers_len && forall|i: int|
            0 <= i < items.len() ==> (if utc == Some(i as i16) && i <= i16::MAX {
                (#[trigger] items[i]) is Int
            } else {
                items[i] is Str
            }),
        _ => false,
    }
}

/// Check an event's columns against the owning thread's shape.
#[verifier::loop_isolation(false)]
pub fn validate_event_cols(cols: &JsonValue, headers_len: usize, utc: Option<i16>) -> (r: bool)
    ensures
        r == valid_cols_spec(cols@, headers_len as int, utc),
{
    let items = match cols {
        JsonValue::Arr(items) => items,
        _ => {
            return false;
        },
    };
    if items.len() != headers_len {
        proof {
            crate::json::lemma_json_model_seq(items@);
        }
        return false;
    }
    let mut i: usize = 0;
    while i < items.len()
        invariant
            i <= items@.len(),
            forall|j: int|
                0 <= j < i as int ==> (if utc == Some(j as i16) && j <= i16::MAX {
                    (#[trigger] crate::json::json_model(items@[j])) is Int
                } else {
                    crate::json::json_model(items@[j]) is Str
                }),
        decreases items@.len() - i,
    {
        let is_utc = match utc {
            Option::Some(n) => n >= 0 && i == n as usize,
            Option::None => false,
        };
        let ok = if is_utc {
            match &items[i] {
                JsonValue::Int(_) => true,
                _ => false,
            }
        } else {
            match &items[i] {
                JsonValue::Str(_) => true,
                _ => false,
            }
        };
        if !ok {
            proof {
                crate::json::lemma_json_model_seq(items@);
                assert(crate::json::json_model_seq(items@)[i as int]
                    == crate::json::json_model(items@[i as int]));
                assert(!valid_cols_spec(cols@, headers_len as int, utc));
            }
            return false;
        }
        i += 1;
    }
    proof {
        crate::json::lemma_json_model_seq(items@);
    }
    true
}

/// The column list after a sequence of single-column assignments, applied
/// in order (a later assignment to the same column wins).
pub open spec fn apply_cols_spec(s: Seq<JsonModel>, ups: Seq<(usize, JsonModel)>) -> Seq<
    JsonModel,
>
    decreases ups.len(),
{
    if ups.len() == 0 {
        s
    } else {
        apply_cols_spec(s, ups.drop_last()).update(ups.last().0 as int, ups.last().1)
    }
}

/// Apply single-column assignments to an event's column array, in order.
/// Every named column must exist.
#[verifier::loop_isolation(false)]
pub fn apply_partial_cols(cols: JsonValue, updates: &Vec<(usize, JsonValue)>) -> (r: JsonValue)
    requires
        cols@ is Arr,
        forall|j: int|
            0 <= j < updates@.len() ==> (#[trigger] updates@[j]).0 < cols@->Arr_0.len(),
    ensures
        r@ == JsonModel::Arr(apply_cols_spec(cols@->Arr_0, updates.deep_view())),
{
    let ghost base = cols@->Arr_0;
    let mut items = match cols {
        JsonValue::Arr(items) => items,
        _ => {
            proof {
                assert(false);
            }
            vstd::pervasive::unreached()
        },
    };
    let ghost len0 = items@.len();
    proof {
        crate::json::lemma_json_model_seq(items@);
        assert(crate::json::json_model_seq(items@) =~= base);
        assert(updates.deep_view().take(0) =~= Seq::<(usize, JsonModel)>::empty());
    }
    let mut j: usize = 0;
    while j < updates.len()
        invariant
            j <= updates@.len(),
            items@.len() == len0,
            crate::json::json_model_seq(items@) == apply_cols_spec(
                base,
                updates.deep_view().take(j as int),
            ),
        decreases updates@.len() - j,
    {
        let idx = updates[j].0;
        proof {
            assert(updates@[j as int].0 < base.len());
            assert(base.len() == len0);
        }
        let ghost before = items@;
        let value = clone_json(&updates[j].1);
        items.set(idx, value);
        proof {
            let ups = updates.deep_view();
            assert(ups.take(j as int + 1).drop_last() =~= ups.take(j as int));
            assert(ups.take(j as int + 1).last() == ups[j as int]);
            assert(ups[j as int] == (updates@[j as int].0, updates@[j as int].1.deep_view()));
            crate::json::lemma_json_model_seq(before);
            crate::json::lemma_json_model_seq(items@);
            assert(crate::json::json_model_seq(items@) =~= crate::json::json_model_seq(
                before,
            ).update(idx as int, crate::json::json_model(updates@[j as int].1)));
        }
        j += 1;
    }
    proof {
        assert(updates.deep_view().take(updates@.len() as int) =~= updates.deep_view());
    }
    JsonValue::Arr(items)
}

/// The id list with every occurrence of one id removed; used when an
/// event or section is deleted from its thread.
pub open spec fn ids_without(s: Seq<i32>, id: i32) -> Seq<i32>
    decreases s,
{
    if s.len() == 0 {
        Seq::empty()
    } else {
        ids_without(s.drop_last(), id) + (if s.last() == id {
            Seq::<i32>::empty()
        } else {
            seq![s.last()]
        })
    }
}

impl Thread {
    /// The update that appends a new event id to this thread's list.
    pub fn with_event_id(&self, event_id: i32) -> (r: UpdateThread)
        ensures
            r.events_id matches Some(ids) && ids@ == self.events_id@.push(event_id),
            r.display_name is None,
            r.space__t0 is None,
            r.video_url is None,
            r.spacex__api_id is None,
            r.sections_id is None,
            r.event_column_headers is None,
            r.is_live is None,
    {
        let mut ids = crate::entity::clone_vec_i32(&self.events_id);
        ids.push(event_id);
        UpdateThread { events_id: Some(ids), ..Default::default() }
    }

    /// The update that removes an event id from this thread's list.
    #[verifier::loop_isolation(false)]
    pub fn without_event_id(&self, event_id: i32) -> (r: UpdateThread)
        ensures
            r.events_id matches Some(ids) && ids@ == ids_without(self.events_id@, event_id),
            r.display_name is None,
            r.space__t0 is None,
            r.video_url is None,
            r.spacex__api_id is None,
            r.sections_id is None,
            r.event_column_headers is None,
            r.is_live is None,
    {
        let mut ids: Vec<i32> = Vec::new();
        let mut i: usize = 0;
        while i < self.events_id.len()
            invariant
                i <= self.events_id@.len(),
                ids@ == ids_without(self.events_id@.take(i as int), event_id),
            decreases self.events_id@.len() - i,
        {
            proof {
                assert(self.events_id@.take(i as int + 1).drop_last() =~= self.events_id@.take(
                    i as int,
                ));
            }
            if self.events_id[i] != event_id {
                ids.push(self.events_id[i]);
            }
            i += 1;
        }
        proof {
            assert(self.events_id@.take(self.events_id@.len() as int) =~= self.events_id@);
        }
        UpdateThread { events_id: Some(ids), ..Default::default() }
    }
}

/// Does one id list hold an id?
#[verifier::loop_isolation(false)]
fn contains_id(v: &Vec<i32>, id: i32) -> (r: bool)
    ensures
        r == v@.contains(id),
{
    let mut i: usize = 0;
    while i < v.len()
        invariant
            i <= v@.len(),
            forall|j: int| 0 <= j < i as int ==> v@[j] != id,
        decreases v@.len() - i,
    {
        if v[i] == id {
            return true;
        }
        i += 1;
    }
    false
}

/// Do two id lists name the same set of ids (in any order, duplicates
/// disregarded)?
#[verifier::loop_isolation(false)]
pub fn same_id_set(a: &Vec<i32>, b: &Vec<i32>) -> (r: bool)
    ensures
        r == (a@.to_set() == b@.to_set()),
{
    let mut i: usize = 0;
    while i < a.len()
        invariant
            i <= a@.len(),
            forall|j: int| 0 <= j < i as int ==> b@.contains(#[trigger] a@[j]),
        decreases a@.len() - i,
    {
        if !contains_id(b, a[i]) {
            proof {
                assert(a@.to_set().contains(a@[i as int]));
            }
            return false;
        }
        i += 1;
    }
    let mut j: usize = 0;
    while j < b.len()
        invariant
            j <= b@.len(),
            forall|k: int| 0 <= k < a@.len() ==> b@.contains(#[trigger] a@[k]),
            forall|k: int| 0 <= k < j as int ==> a@.contains(#[trigger] b@[k]),
        decreases b@.len() - j,
    {
        if !contains_id(a, b[j]) {
            proof {
                assert(b@.to_set().contains(b@[j as int]));
            }
            return false;
        }
        j += 1;
    }
    proof {
        assert(a@.to_set() =~= b@.to_set());
    }
    true
}

/// Judge a thread `PATCH` as the endpoint does: the actor must be allowed
/// to modify the thread, and the section and event id lists may only be
/// reordered, never grown or shrunk.
pub fn check_thread_patch(current: &Thread, actor: &User, data: &UpdateThread) -> (r: Result<
    (),
    Status,
>)
    ensures
        !actor.can_modify_thread_spec(Some(current@)) ==> r == Err::<(), Status>(
            Status::Unauthorized,
        ),
        actor.can_modify_thread_spec(Some(current@)) ==> r == (if (match data.sections_id {
            Some(ids) => ids@.to_set() != current.sections_id@.to_set(),
            None => false,
        }) || (match data.events_id {
            Some(ids) => ids@.to_set() != current.events_id@.to_set(),
            None => false,
        }) {
            Err::<(), Status>(Status::PreconditionFailed)
        } else {
            Ok::<(), Status>(())
        }),
{
    if !actor.can_modify_thread(Some(current)) {
        return Err(Status::Unauthorized);
    }
    match &data.sections_id {
        Option::Some(ids) => {
            if !same_id_set(ids, &current.sections_id) {
                return Err(Status::PreconditionFailed);
            }
        },
        Option::None => {},
    }
    match &data.events_id {
        Option::Some(ids) => {
            if !same_id_set(ids, &current.events_id) {
                return Err(Status::PreconditionFailed);
            }
        },
        Option::None => {},
    }
    Ok(())
}

/// The outward mirror name of a posted thread (its post id under the
/// link-kind prefix).
pub fn reddit_fullname(post_id: &str) -> (r: String)
    ensures
        r@ == "t3_"@ + post_id@,
{
    "t3_".to_owned().concat(post_id)
}

/// Judge a moderation request (approve, sticky, unsticky) as the thread
/// endpoint does: the thread must exist (`NotFound`), must have been
/// posted outward (`PreconditionFailed`), and the actor must moderate its
/// subreddit (`Unauthorized`); accepted requests name the outward post to
/// act on.
pub fn moderation_target(thread: Option<&Thread>, actor: &User) -> (r: Result<String, Status>)
    ensures
        thread is None ==> r == Err::<String, Status>(Status::NotFound),
        thread matches Some(t) ==> (match t.post_id {
            None => r == Err::<String, Status>(Status::PreconditionFailed),
            Some(pid) => if !actor.is_moderator_of_spec(t.subreddit.deep_view()) {
                r == Err::<String, Status>(Status::Unauthorized)
            } else {
                r matches Ok(s) && s@ == "t3_"@ + pid@
            },
        }),
{
    let t = match thread {
        Option::Some(t) => t,
        Option::None => {
            return Err(Status::NotFound);
        },
    };
    let pid = match &t.post_id {
        Option::Some(pid) => pid,
        Option::None => {
            return Err(Status::PreconditionFailed);
        },
    };
    let subreddit: Option<&str> = match &t.subreddit {
        Option::Some(s) => Option::Some(s.as_str()),
        Option::None => Option::None,
    };
    if !actor.is_moderator_of(subreddit) {
        return Err(Status::Unauthorized);
    }
    Ok(reddit_fullname(pid.as_str()))
}

/// The room names of a connection's join request: an object whose `join`
/// field is an array of strings.  Any other shape is no join request and
/// is ignored without closing the connection.
pub open spec fn join_names_spec(m: JsonModel) -> Option<Seq<Seq<char>>> {
    match m {
        JsonModel::Obj(entries) => match alookup_json(entries, "join"@) {
            Some(v) => match v {
                JsonModel::Arr(items) => if forall|i: int|
                    0 <= i < items.len() ==> (#[trigger] items[i]) is Str {
                    Some(items.map_values(|x: JsonModel| x->Str_0))
                } else {
                    None
                },
                _ => None,
            },
            None => None,
        },
        _ => None,
    }
}

/// First-match field look-up in a JSON object.
pub open spec fn alookup_json(s: Seq<(Seq<char>, JsonModel)>, k: Seq<char>) -> Option<JsonModel>
    decreases s.len(),
{
    if s.len() == 0 {
        None
    } else if s[0].0 == k {
        Some(s[0].1)
    } else {
        alookup_json(s.drop_first(), k)
    }
}

/// Parse a join request.
#[verifier::loop_isolation(false)]
pub fn parse_join_request(v: &JsonValue) -> (r: Option<Vec<String>>)
    ensures
        match r {
            Some(names) => join_names_spec(v@) == Some(names.deep_view()),
            None => join_names_spec(v@) is None,
        },
{
    let entries = match v {
        JsonValue::Obj(entries) => entries,
        _ => {
            return None;
        },
    };
    let ghost em = crate::json::json_model_entries(entries@);
    proof {
        crate::json::lemma_json_model_entries(entries@);
    }
    let mut i: usize = 0;
    while i < entries.len()
        invariant
            i <= entries@.len(),
            forall|j: int| 0 <= j < i as int ==> (#[trigger] em[j]).0 != "join"@,
        decreases entries@.len() - i,
    {
        if str_eq(entries[i].0.as_str(), "join") {
            proof {
                lemma_alookup_json_at(em, i as int);
            }
            let items = match &entries[i].1 {
                JsonValue::Arr(items) => items,
                _ => {
                    return None;
                },
            };
            let ghost im = crate::json::json_model_seq(items@);
            proof {
                crate::json::lemma_json_model_seq(items@);
            }
            let mut out: Vec<String> = Vec::new();
            let mut n: usize = 0;
            while n < items.len()
                invariant
                    n <= items@.len(),
                    out@.len() == n as int,
                    forall|w: int| 0 <= w < n as int ==> (#[trigger] im[w]) is Str,
                    forall|w: int| 0 <= w < n as int ==> out@[w]@ == im[w]->Str_0,
                decreases items@.len() - n,
            {
                match &items[n] {
                    JsonValue::Str(s) => {
                        out.push(s.clone());
                    },
                    _ => {
                        proof {
                            assert(im[n as int] == crate::json::json_model(items@[n as int]));
                            assert(!(im[n as int] is Str));
                            assert(join_names_spec(v@) is None);
                        }
                        return None;
                    },
                }
                n += 1;
            }
            proof {
                assert(out.deep_view() =~= im.map_values(|x: JsonModel| x->Str_0));
            }
            return Some(out);
        }
        i += 1;
    }
    proof {
        lemma_alookup_json_none(em, "join"@);
    }
    None
}

/// A field no earlier key shadows is what the object look-up finds.
proof fn lemma_alookup_json_at(s: Seq<(Seq<char>, JsonModel)>, i: int)
    requires
        0 <= i < s.len(),
        forall|j: int| 0 <= j < i ==> (#[trigger] s[j]).0 != s[i].0,
    ensures
        alookup_json(s, s[i].0) == Some(s[i].1),
    decreases s.len(),
{
    if i > 0 {
        assert(s.drop_first()[i - 1] == s[i]);
        assert forall|j: int| 0 <= j < i - 1 implies (#[trigger] s.drop_first()[j]).0
            != s.drop_first()[i - 1].0 by {
            assert(s.drop_first()[j] == s[j + 1]);
        }
        lemma_alookup_json_at(s.drop_first(), i - 1);
    }
}

/// A key no field carries is not found.
proof fn lemma_alookup_json_none(s: Seq<(Seq<char>, JsonModel)>, k: Seq<char>)
    requires
        forall|j: int| 0 <= j < s.len() ==> (#[trigger] s[j]).0 != k,
    ensures
        alookup_json(s, k) is None,
    decreases s.len(),
{
    if s.len() > 0 {
        assert forall|j: int| 0 <= j < s.drop_first().len() implies (
        #[trigger] s.drop_first()[j]).0 != k by {
            assert(s.drop_first()[j] == s[j + 1]);
        }
        lemma_alookup_json_none(s.drop_first(), k);
    }
}

/// Strip a bearer token from an authorization header: the header must
/// begin with `"bearer "` or `"Bearer "`; what follows is the token.
pub fn parse_bearer(header: &str) -> (r: Option<String>)
    ensures
        match r {
            Some(t) => header@.len() >= 7 && (header@.take(7) == "bearer "@ || header@.take(7)
                == "Bearer "@) && t@ == header@.skip(7),
            None => !(header@.len() >= 7 && (header@.take(7) == "bearer "@ || header@.take(7)
                == "Bearer "@)),
        },
{
    let len = header.unicode_len();
    if len < 7 {
        return None;
    }
    let prefix = header.substring_char(0, 7);
    proof {
        assert(prefix@ =~= header@.take(7));
    }
    if str_eq(prefix, "bearer ") || str_eq(prefix, "Bearer ") {
        let rest = header.substring_char(7, len);
        proof {
            assert(rest@ =~= header@.skip(7));
        }
        Some(rest.to_owned())
    } else {
        None
    }
}

} // verus!
