use vstd::prelude::*;

use crate::error::ValqError;
use crate::identity::ids_consistent;
use crate::pop::pop_outcome;
use crate::q_type::QType;
use crate::registry::QueueRegistry;
use crate::valq_msg::ValqMsg;
use crate::valq_type::{
    QueueInfo, ValqType, ack_state, collection_len, empty_queue, extend_state, has_msg_id, info_of,
    new_queue_error, purge_state, push_state, update_error,
};
use crate::{
    DELIVERY_ATTEMPTS_DEFAULT, RETENTION_PERIOD_DEFAULT, VISIBILITY_TIMEOUT_DEFAULT,
    VISIBILITY_TIMEOUT_MAX,
};

verus! {

// Each command works on the queue stored under its name, or on `None` when
// no queue is stored there.

/// Creates a queue unless one of that name exists (`exists`); a created
/// queue's name is registered.
pub fn create(
    exists: bool,
    registry: &mut QueueRegistry,
    name: &str,
    visibility_timeout: Option<u64>,
    max_delivery_attempts: Option<u64>,
    retention_period: Option<u64>,
) -> (r: Result<ValqType, ValqError>)
    requires
        old(registry).wf(),
    ensures
        final(registry).wf(),
        exists ==> r == Err::<ValqType, ValqError>(ValqError::QueueExists) && final(registry)@ == old(
            registry,
        )@,
        !exists ==> match new_queue_error(
            name@,
            visibility_timeout,
            max_delivery_attempts,
            retention_period,
        ) {
            Some(e) => r == Err::<ValqType, ValqError>(e) && final(registry)@ == old(registry)@,
            None => r is Ok && r->Ok_0.wf() && ids_consistent(r->Ok_0@) && r->Ok_0@.name@ == name@
                && r->Ok_0@ == empty_queue(
                r->Ok_0@.name,
                visibility_timeout.unwrap_or(VISIBILITY_TIMEOUT_DEFAULT),
                max_delivery_attempts.unwrap_or(DELIVERY_ATTEMPTS_DEFAULT),
                retention_period.unwrap_or(RETENTION_PERIOD_DEFAULT),
            ) && final(registry)@.to_set() == old(registry)@.to_set().insert(name@),
        },
{
    if exists {
        return Err(ValqError::QueueExists);
    }
    let q = ValqType::new(name, visibility_timeout, max_delivery_attempts, retention_period);
    if q.is_ok() {
        registry.register(name);
        proof {
            let o = old(registry)@;
            let n = registry@;
            if o.contains(name@) {
                assert(o.to_set().insert(name@) =~= o.to_set());
            } else {
                assert(n.to_set() =~= o.to_set().insert(name@)) by {
                    assert forall|x: Seq<char>| n.to_set().contains(x) implies o.to_set().insert(
                        name@,
                    ).contains(x) by {
                        let j = choose|j: int| 0 <= j < n.len() && n[j] == x;
                        if j < o.len() {
                            assert(o[j] == x);
                        }
                    }
                    assert forall|x: Seq<char>| o.to_set().insert(name@).contains(x) implies n.to_set().contains(x) by {
                        if x == name@ {
                            assert(n[o.len() as int] == x);
                        } else {
                            let j = choose|j: int| 0 <= j < o.len() && o[j] == x;
                            assert(n[j] == x);
                        }
                    }
                }
            }
        }
    }
    q
}

/// Changes the settings of an existing queue at once; without a retention
/// period the queue keeps the one it has.
pub fn update(
    value: Option<&mut ValqType>,
    visibility_timeout: u64,
    max_delivery_attempts: u64,
    retention_period: Option<u64>,
) -> (r: Result<(), ValqError>)
    requires
        match value {
            Some(q) => q.wf(),
            None => true,
        },
    ensures
        match value {
            Some(q) => final(q).wf() && (ids_consistent(q@) ==> ids_consistent(final(q)@)) && ({
                let rp = retention_period.unwrap_or(q@.retention_period);
                match update_error(visibility_timeout, max_delivery_attempts, rp) {
                    Some(e) => r == Err::<(), ValqError>(e) && final(q)@ == q@,
                    None => r is Ok && final(q)@ == (crate::valq_type::QueueState {
                        visibility_timeout,
                        max_delivery_attempts,
                        retention_period: rp,
                        ..q@
                    }),
                }
            }),
            None => r == Err::<(), ValqError>(ValqError::QueueNotFound),
        },
{
    match value {
        Some(q) => {
            let rp = match retention_period {
                Some(v) => v,
                None => *q.retention_period(),
            };
            q.update(visibility_timeout, max_delivery_attempts, rp)
        },
        None => Err(ValqError::QueueNotFound),
    }
}

/// Counters and settings of an existing queue.
pub fn info(value: Option<&ValqType>) -> (r: Result<QueueInfo, ValqError>)
    ensures
        match value {
            Some(q) => r == Ok::<QueueInfo, ValqError>(info_of(q@)),
            None => r == Err::<QueueInfo, ValqError>(ValqError::QueueNotFound),
        },
{
    match value {
        Some(q) => Ok(q.info()),
        None => Err(ValqError::QueueNotFound),
    }
}

/// Pushes a message at `now`; returns its id.
pub fn push(value: Option<&mut ValqType>, body: String, delay_seconds: u64, now: u64) -> (r: Result<
    u64,
    ValqError,
>)
    requires
        match value {
            Some(q) => q.wf() && q@.id_sequence < u64::MAX,
            None => true,
        },
    ensures
        match value {
            Some(q) => final(q).wf() && (ids_consistent(q@) ==> ids_consistent(final(q)@)) && r == Ok::<u64, ValqError>((q@.id_sequence + 1) as u64)
                && final(q)@ == push_state(q@, body, delay_seconds, now),
            None => r == Err::<u64, ValqError>(ValqError::QueueNotFound),
        },
{
    match value {
        Some(q) => Ok(q.push_at(body, delay_seconds, now)),
        None => Err(ValqError::QueueNotFound),
    }
}

/// Pops at `now`: the delivered message, or `None` when nothing is
/// deliverable.
pub fn pop(value: Option<&mut ValqType>, now: u64) -> (r: Result<Option<ValqMsg>, ValqError>)
    requires
        match value {
            Some(q) => q.wf(),
            None => true,
        },
    ensures
        match value {
            Some(q) => final(q).wf() && (ids_consistent(q@) ==> ids_consistent(final(q)@)) && r is Ok && (final(q)@, r->Ok_0) == pop_outcome(q@, now),
            None => r == Err::<Option<ValqMsg>, ValqError>(ValqError::QueueNotFound),
        },
{
    match value {
        Some(q) => Ok(q.pop_at(now)),
        None => Err(ValqError::QueueNotFound),
    }
}

/// Acknowledges a ready or in-flight message.
pub fn ack(value: Option<&mut ValqType>, message_id: u64) -> (r: Result<(), ValqError>)
    requires
        match value {
            Some(q) => q.wf(),
            None => true,
        },
    ensures
        match value {
            Some(q) => final(q).wf() && (ids_consistent(q@) ==> ids_consistent(final(q)@)) && if has_msg_id(q@.msgs, message_id) {
                r is Ok && final(q)@ == ack_state(q@, message_id)
            } else {
                r == Err::<(), ValqError>(ValqError::MessageNotFound(message_id)) && final(q)@
                    == q@
            },
            None => r == Err::<(), ValqError>(ValqError::QueueNotFound),
        },
{
    match value {
        Some(q) => q.ack(message_id),
        None => Err(ValqError::QueueNotFound),
    }
}

/// Extends a ready or in-flight message's invisibility from `now`.
pub fn extend(value: Option<&mut ValqType>, message_id: u64, extend_seconds: u64, now: u64) -> (r:
    Result<(), ValqError>)
    requires
        match value {
            Some(q) => q.wf(),
            None => true,
        },
    ensures
        match value {
            Some(q) => final(q).wf() && (ids_consistent(q@) ==> ids_consistent(final(q)@)) && if extend_seconds > VISIBILITY_TIMEOUT_MAX {
                r == Err::<(), ValqError>(ValqError::ExtendTimeoutOutOfRange) && final(q)@ == q@
            } else if has_msg_id(q@.msgs, message_id) {
                r is Ok && final(q)@ == extend_state(q@, message_id, extend_seconds, now)
            } else {
                r == Err::<(), ValqError>(ValqError::MessageNotFound(message_id)) && final(q)@
                    == q@
            },
            None => r == Err::<(), ValqError>(ValqError::QueueNotFound),
        },
{
    match value {
        Some(q) => q.extend_at(message_id, extend_seconds, now),
        None => Err(ValqError::QueueNotFound),
    }
}

/// Empties one collection; returns how many messages it held.
pub fn purge(value: Option<&mut ValqType>, q_type: QType) -> (r: Result<u64, ValqError>)
    requires
        match value {
            Some(q) => q.wf(),
            None => true,
        },
    ensures
        match value {
            Some(q) => final(q).wf() && (ids_consistent(q@) ==> ids_consistent(final(q)@)) && r == Ok::<u64, ValqError>(collection_len(q@, q_type) as u64)
                && final(q)@ == purge_state(q@, q_type),
            None => r == Err::<u64, ValqError>(ValqError::QueueNotFound),
        },
{
    match value {
        Some(q) => Ok(q.purge(q_type)),
        None => Err(ValqError::QueueNotFound),
    }
}

} // verus!
