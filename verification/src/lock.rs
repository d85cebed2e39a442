//! The section-lock state machine.
//!
//! A section is either unlocked (`lock_held_by_user_id` is `None`) or
//! locked by one user since some instant (`Some(user)` together with
//! `lock_assigned_at_utc`).  A lock transition request names a desired
//! holder and is judged against the current state and the wall clock by
//! [`decide_lock_spec`]; an accepted transition is realized as a normal
//! entity update through the cache / durable-store write path and therefore
//! also emits a change event.  Rejected requests change nothing.

use vstd::prelude::*;
use crate::entity::Section;
use crate::entity::Thread;
use crate::entity::User;
use crate::pipeline::Status;

verus! {

/// How long an assignment of the lock remains valid, in seconds.  This is
/// an operational parameter, not a protocol guarantee clients may rely on
/// exactly.
pub const LOCK_DURATION_SECONDS: i64 = 600;

/// The lock fields written back to a section by an accepted transition.
#[derive(Clone, Copy, Debug)]
pub struct LockSection {
    pub lock_held_by_user_id: Option<i32>,
    pub lock_assigned_at_utc: i64,
}

/// A lock transition request as it arrives from a client: only the desired
/// holder; the assignment instant is chosen by the server.
#[derive(Clone, Copy, Debug)]
pub struct ExternalLockSection {
    pub lock_held_by_user_id: Option<i32>,
}

/// The verdict on a lock transition request.
#[derive(Clone, Copy, Debug)]
pub enum LockDecision {
    /// The transition is accepted; the section's lock fields become the
    /// carried values.
    Accept(LockSection),
    /// The transition is rejected; the state is unchanged.
    Forbidden,
}

/// Is a lock assigned at `assigned_at` stale at time `now`?
pub open spec fn lock_expired(assigned_at: i64, now: i64) -> bool {
    now as int >= assigned_at as int + LOCK_DURATION_SECONDS as int
}

/// The acceptance predicate of the lock state machine, evaluated against
/// the current state (`holder`, `assigned_at`), the requesting user
/// `actor`, the desired holder and the wall-clock time.  In order:
///
/// 1. an unlocked section may be assigned to the requester [acquire];
/// 2. the holder may release their own lock [release];
/// 3. the holder may re-assign the lock to themselves [renew];
/// 4. once a lock is stale, any requester takes it over, whatever holder
///    they asked for [steal after expiry];
///
/// and anything else is rejected.
pub open spec fn decide_lock_spec(
    holder: Option<i32>,
    assigned_at: i64,
    actor: i32,
    desired: Option<i32>,
    now: i64,
) -> LockDecision {
    if holder is None && desired == Some(actor) {
        LockDecision::Accept(
            LockSection { lock_held_by_user_id: Some(actor), lock_assigned_at_utc: now },
        )
    } else if holder == Some(actor) && desired is None {
        LockDecision::Accept(
            LockSection { lock_held_by_user_id: None, lock_assigned_at_utc: now },
        )
    } else if holder == Some(actor) && desired == Some(actor) {
        LockDecision::Accept(
            LockSection { lock_held_by_user_id: Some(actor), lock_assigned_at_utc: now },
        )
    } else if holder is Some && lock_expired(assigned_at, now) {
        LockDecision::Accept(
            LockSection { lock_held_by_user_id: Some(actor), lock_assigned_at_utc: now },
        )
    } else {
        LockDecision::Forbidden
    }
}

/// Judge a lock transition request.
pub fn decide_lock(
    holder: Option<i32>,
    assigned_at: i64,
    actor: i32,
    desired: Option<i32>,
    now: i64,
) -> (r: LockDecision)
    ensures
        r == decide_lock_spec(holder, assigned_at, actor, desired, now),
{
    let holder_is_actor = match holder {
        Some(h) => h == actor,
        None => false,
    };
    let desired_is_actor = match desired {
        Some(d) => d == actor,
        None => false,
    };
    let expired = if assigned_at <= i64::MAX - LOCK_DURATION_SECONDS {
        now >= assigned_at + LOCK_DURATION_SECONDS
    } else {
        false
    };
    if holder.is_none() && desired_is_actor {
        LockDecision::Accept(
            LockSection { lock_held_by_user_id: Some(actor), lock_assigned_at_utc: now },
        )
    } else if holder_is_actor && desired.is_none() {
        LockDecision::Accept(
            LockSection { lock_held_by_user_id: None, lock_assigned_at_utc: now },
        )
    } else if holder_is_actor && desired_is_actor {
        LockDecision::Accept(
            LockSection { lock_held_by_user_id: Some(actor), lock_assigned_at_utc: now },
        )
    } else if holder.is_some() && expired {
        LockDecision::Accept(
            LockSection { lock_held_by_user_id: Some(actor), lock_assigned_at_utc: now },
        )
    } else {
        LockDecision::Forbidden
    }
}

/// Mutual exclusion of the lock.  From an unlocked state (whatever stale
/// assignment instant it retains), a request by `a` for holder `a` at time
/// `t0` is accepted and locks the section to `a` at `t0`; a request by a
/// different user `b` for holder `b`, made while that assignment is still
/// fresh, is rejected, so the state is not rewritten.
pub proof fn lemma_lock_mutual_exclusion(
    prior_assigned_at: i64,
    a: i32,
    b: i32,
    t0: i64,
    t1: i64,
)
    requires
        a != b,
        (t1 as int) < t0 as int + LOCK_DURATION_SECONDS as int,
    ensures
        decide_lock_spec(None, prior_assigned_at, a, Some(a), t0) == LockDecision::Accept(
            LockSection { lock_held_by_user_id: Some(a), lock_assigned_at_utc: t0 },
        ),
        decide_lock_spec(Some(a), t0, b, Some(b), t1) == LockDecision::Forbidden,
{
}

/// Expiry of the lock.  A lock assigned to `a` at `t0` is supersedable
/// from `t0 + LOCK_DURATION_SECONDS` on: a request by `b` for holder `b`
/// is then accepted and locks the section to `b` at the current time.
pub proof fn lemma_lock_expiry(a: i32, b: i32, t0: i64, now: i64)
    requires
        now as int >= t0 as int + LOCK_DURATION_SECONDS as int,
    ensures
        decide_lock_spec(Some(a), t0, b, Some(b), now) == LockDecision::Accept(
            LockSection { lock_held_by_user_id: Some(b), lock_assigned_at_utc: now },
        ),
{
}

/// Judge a full lock-setting request as the section endpoint does: the
/// section must exist (`NotFound` otherwise), the actor must be allowed to
/// modify the owning thread (`Unauthorized` otherwise; `thread` is the
/// result of looking that thread up), and the transition must be accepted
/// by the state machine (`Forbidden` otherwise).  On acceptance the
/// returned lock fields are written back through the normal entity update
/// path.
pub fn set_lock(
    section: Option<&Section>,
    actor: &User,
    thread: Option<&Thread>,
    desired: Option<i32>,
    now: i64,
) -> (r: Result<LockSection, Status>)
    ensures
        section is None ==> r == Err::<LockSection, Status>(Status::NotFound),
        section matches Some(s) ==> r == (if !actor.can_modify_thread_spec(thread.deep_view()) {
            Err::<LockSection, Status>(Status::Unauthorized)
        } else {
            match decide_lock_spec(
                s.lock_held_by_user_id,
                s.lock_assigned_at_utc,
                actor.id,
                desired,
                now,
            ) {
                LockDecision::Accept(fields) => Ok::<LockSection, Status>(fields),
                LockDecision::Forbidden => Err::<LockSection, Status>(Status::Forbidden),
            }
        }),
{
    let s = match section {
        Some(s) => s,
        None => {
            return Err(Status::NotFound);
        },
    };
    if !actor.can_modify_thread(thread) {
        return Err(Status::Unauthorized);
    }
    match decide_lock(s.lock_held_by_user_id, s.lock_assigned_at_utc, actor.id, desired, now) {
        LockDecision::Accept(fields) => Ok(fields),
        LockDecision::Forbidden => Err(Status::Forbidden),
    }
}

} // verus!

