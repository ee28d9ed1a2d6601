use vstd::prelude::*;

use std::collections::VecDeque;

use crate::delayed_msgs::{DelayedMsgs, entries_sorted, entry_ids_distinct, insert_sorted, without_id};
use crate::error::ValqError;
use crate::identity::{
    ids_consistent, lemma_ids_consistent_ack, lemma_ids_consistent_extend,
    lemma_ids_consistent_purge, lemma_ids_consistent_push,
};
use crate::q_type::QType;
use crate::valq_msg::ValqMsg;
use crate::{
    DELIVERY_ATTEMPTS_DEFAULT, DELIVERY_ATTEMPTS_MAX, RETENTION_PERIOD_DEFAULT,
    RETENTION_PERIOD_MAX, RETENTION_PERIOD_MIN, VISIBILITY_TIMEOUT_DEFAULT, VISIBILITY_TIMEOUT_MAX,
};

verus! {

/// The abstract state of a queue.
pub struct QueueState {
    pub name: String,
    pub id_sequence: u64,
    pub visibility_timeout: u64,
    pub max_delivery_attempts: u64,
    pub retention_period: u64,
    /// Ready and in-flight messages, in delivery order.
    pub msgs: Seq<ValqMsg>,
    /// Dead-lettered messages, oldest first.
    pub dlq_msgs: Seq<ValqMsg>,
    /// Delayed messages with their scores, in index order.
    pub delayed_msgs: Seq<(u64, ValqMsg)>,
}

/// Counters and settings of a queue, as reported by `info`.
#[derive(Debug, Clone, Copy, PartialEq, Eq, Structural)]
pub struct QueueInfo {
    pub visibility_timeout: u64,
    pub max_delivery_attempts: u64,
    pub retention_period: u64,
    pub id_sequence: u64,
    pub msgs: u64,
    pub dlq_msgs: u64,
    pub delayed_msgs: u64,
}

pub open spec fn sat_add(a: u64, b: u64) -> u64 {
    if a + b > u64::MAX {
        u64::MAX
    } else {
        (a + b) as u64
    }
}

pub open spec fn valid_visibility_timeout(v: u64) -> bool {
    1 <= v <= VISIBILITY_TIMEOUT_MAX
}

pub open spec fn valid_max_delivery_attempts(v: u64) -> bool {
    1 <= v <= DELIVERY_ATTEMPTS_MAX
}

pub open spec fn valid_retention_period(v: u64) -> bool {
    RETENTION_PERIOD_MIN <= v <= RETENTION_PERIOD_MAX
}

/// The first error among the settings of a new queue, checked in the order
/// name, visibility timeout, delivery attempts, retention period; `None`
/// when all are acceptable. An absent setting takes its default.
pub open spec fn new_queue_error(
    name: Seq<char>,
    visibility_timeout: Option<u64>,
    max_delivery_attempts: Option<u64>,
    retention_period: Option<u64>,
) -> Option<ValqError> {
    if name.len() == 0 {
        Some(ValqError::EmptyName)
    } else if visibility_timeout is Some && !valid_visibility_timeout(visibility_timeout->Some_0) {
        Some(ValqError::VisibilityTimeoutOutOfRange)
    } else if max_delivery_attempts is Some && !valid_max_delivery_attempts(
        max_delivery_attempts->Some_0,
    ) {
        Some(ValqError::MaxDeliveryAttemptsOutOfRange)
    } else if retention_period is Some && !valid_retention_period(retention_period->Some_0) {
        Some(ValqError::RetentionPeriodOutOfRange)
    } else {
        None
    }
}

/// The first error among new settings for an existing queue, or `None`.
pub open spec fn update_error(
    visibility_timeout: u64,
    max_delivery_attempts: u64,
    retention_period: u64,
) -> Option<ValqError> {
    if !valid_visibility_timeout(visibility_timeout) {
        Some(ValqError::VisibilityTimeoutOutOfRange)
    } else if !valid_max_delivery_attempts(max_delivery_attempts) {
        Some(ValqError::MaxDeliveryAttemptsOutOfRange)
    } else if !valid_retention_period(retention_period) {
        Some(ValqError::RetentionPeriodOutOfRange)
    } else {
        None
    }
}

/// An empty queue with the given name and settings.
pub open spec fn empty_queue(
    name: String,
    visibility_timeout: u64,
    max_delivery_attempts: u64,
    retention_period: u64,
) -> QueueState {
    QueueState {
        name,
        id_sequence: 0,
        visibility_timeout,
        max_delivery_attempts,
        retention_period,
        msgs: Seq::empty(),
        dlq_msgs: Seq::empty(),
        delayed_msgs: Seq::empty(),
    }
}

/// Some ready or in-flight message has this id.
pub open spec fn has_msg_id(s: Seq<ValqMsg>, id: u64) -> bool {
    exists|i: int| 0 <= i < s.len() && #[trigger] s[i].id == id
}

/// `i` is the first position of a message with this id.
pub open spec fn is_first_id(s: Seq<ValqMsg>, id: u64, i: int) -> bool {
    0 <= i < s.len() && s[i].id == id && forall|j: int| 0 <= j < i ==> #[trigger] s[j].id != id
}

/// The first position of a message with this id (when there is one).
pub open spec fn first_id_index(s: Seq<ValqMsg>, id: u64) -> int {
    choose|i: int| is_first_id(s, id, i)
}

/// The first position of a present id is well defined.
pub proof fn lemma_first_id(s: Seq<ValqMsg>, id: u64)
    requires
        has_msg_id(s, id),
    ensures
        is_first_id(s, id, first_id_index(s, id)),
{
    let w = choose|i: int| 0 <= i < s.len() && #[trigger] s[i].id == id;
    lemma_first_id_from(s, id, 0, w);
}

proof fn lemma_first_id_from(s: Seq<ValqMsg>, id: u64, i: int, w: int)
    requires
        0 <= i <= w < s.len(),
        s[w].id == id,
        forall|j: int| 0 <= j < i ==> #[trigger] s[j].id != id,
    ensures
        is_first_id(s, id, first_id_index(s, id)),
    decreases w - i,
{
    if s[i].id == id {
        assert(is_first_id(s, id, i));
    } else {
        lemma_first_id_from(s, id, i + 1, w);
    }
}

/// The message delivered by a fresh push.
pub open spec fn pushed_msg(id: u64, body: String) -> ValqMsg {
    ValqMsg { id, body, timeout_at: None, delivery_attempts: 0 }
}

/// The state after a push of `body` with `delay` at `now`.
pub open spec fn push_state(q: QueueState, body: String, delay: u64, now: u64) -> QueueState {
    let id = (q.id_sequence + 1) as u64;
    let m = pushed_msg(id, body);
    if delay == 0 {
        QueueState { id_sequence: id, msgs: q.msgs.push(m), ..q }
    } else {
        QueueState {
            id_sequence: id,
            delayed_msgs: insert_sorted(without_id(q.delayed_msgs, id), (sat_add(now, delay), m)),
            ..q
        }
    }
}

/// The state after an acknowledgement of a present id.
pub open spec fn ack_state(q: QueueState, id: u64) -> QueueState {
    QueueState { msgs: q.msgs.remove(first_id_index(q.msgs, id)), ..q }
}

/// The state after an extension of a present id.
pub open spec fn extend_state(q: QueueState, id: u64, extend_seconds: u64, now: u64) -> QueueState {
    let i = first_id_index(q.msgs, id);
    QueueState {
        msgs: q.msgs.update(i, ValqMsg { timeout_at: Some(sat_add(now, extend_seconds)), ..q.msgs[i] }),
        ..q
    }
}

/// The state after purging one collection.
pub open spec fn purge_state(q: QueueState, t: QType) -> QueueState {
    match t {
        QType::Main => QueueState { msgs: Seq::empty(), ..q },
        QType::Dlq => QueueState { dlq_msgs: Seq::empty(), ..q },
        QType::Delayed => QueueState { delayed_msgs: Seq::empty(), ..q },
    }
}

/// The size of one collection.
pub open spec fn collection_len(q: QueueState, t: QType) -> int {
    match t {
        QType::Main => q.msgs.len() as int,
        QType::Dlq => q.dlq_msgs.len() as int,
        QType::Delayed => q.delayed_msgs.len() as int,
    }
}

/// What `info` reports of a state.
pub open spec fn info_of(q: QueueState) -> QueueInfo {
    QueueInfo {
        visibility_timeout: q.visibility_timeout,
        max_delivery_attempts: q.max_delivery_attempts,
        retention_period: q.retention_period,
        id_sequence: q.id_sequence,
        msgs: q.msgs.len() as u64,
        dlq_msgs: q.dlq_msgs.len() as u64,
        delayed_msgs: q.delayed_msgs.len() as u64,
    }
}

/// Settings in bounds and a well-formed delayed index.
pub open spec fn state_wf(q: QueueState) -> bool {
    &&& valid_visibility_timeout(q.visibility_timeout)
    &&& valid_max_delivery_attempts(q.max_delivery_attempts)
    &&& valid_retention_period(q.retention_period)
    &&& entries_sorted(q.delayed_msgs)
    &&& entry_ids_distinct(q.delayed_msgs)
}

/// A queue: configuration, id counter, and its three collections.
///
/// `wf` (settings in bounds, delayed index sorted with distinct ids) holds
/// of every queue built here and is kept by every operation; so is
/// `identity::ids_consistent`, proved operation by operation there.
#[derive(Debug)]
pub struct ValqType {
    name: String,
    id_sequence: u64,
    visibility_timeout: u64,
    max_delivery_attempts: u64,
    retention_period: u64,
    msgs: VecDeque<ValqMsg>,
    dlq_msgs: VecDeque<ValqMsg>,
    delayed_msgs: DelayedMsgs,
}

impl View for ValqType {
    type V = QueueState;

    closed spec fn view(&self) -> QueueState {
        QueueState {
            name: self.name,
            id_sequence: self.id_sequence,
            visibility_timeout: self.visibility_timeout,
            max_delivery_attempts: self.max_delivery_attempts,
            retention_period: self.retention_period,
            msgs: self.msgs@,
            dlq_msgs: self.dlq_msgs@,
            delayed_msgs: self.delayed_msgs@,
        }
    }
}

impl Default for ValqType {
    /// A nameless empty queue with the default settings.
    fn default() -> (r: Self)
        ensures
            r.wf(),
            ids_consistent(r@),
            r@.name@ == Seq::<char>::empty(),
            r@ == empty_queue(
                r@.name,
                VISIBILITY_TIMEOUT_DEFAULT,
                DELIVERY_ATTEMPTS_DEFAULT,
                RETENTION_PERIOD_DEFAULT,
            ),
    {
        ValqType {
            name: String::new(),
            id_sequence: 0,
            visibility_timeout: VISIBILITY_TIMEOUT_DEFAULT,
            max_delivery_attempts: DELIVERY_ATTEMPTS_DEFAULT,
            retention_period: RETENTION_PERIOD_DEFAULT,
            msgs: VecDeque::new(),
            dlq_msgs: VecDeque::new(),
            delayed_msgs: DelayedMsgs::new(),
        }
    }
}

impl ValqType {
    pub open spec fn wf(&self) -> bool {
        state_wf(self@)
    }

    /// A new empty queue. Each setting that is given must lie in its bounds;
    /// an absent one takes its default.
    pub fn new(
        name: &str,
        visibility_timeout: Option<u64>,
        max_delivery_attempts: Option<u64>,
        retention_period: Option<u64>,
    ) -> (r: Result<Self, ValqError>)
        ensures
            match new_queue_error(
                name@,
                visibility_timeout,
                max_delivery_attempts,
                retention_period,
            ) {
                Some(e) => r == Err::<Self, ValqError>(e),
                None => r is Ok && r->Ok_0.wf() && ids_consistent(r->Ok_0@) && r->Ok_0@.name@
                    == name@ && r->Ok_0@ == empty_queue(
                    r->Ok_0@.name,
                    visibility_timeout.unwrap_or(VISIBILITY_TIMEOUT_DEFAULT),
                    max_delivery_attempts.unwrap_or(DELIVERY_ATTEMPTS_DEFAULT),
                    retention_period.unwrap_or(RETENTION_PERIOD_DEFAULT),
                ),
            },
    {
        if name.is_empty() {
            return Err(ValqError::EmptyName);
        }
        if let Some(v) = visibility_timeout {
            if v < 1 || v > VISIBILITY_TIMEOUT_MAX {
                return Err(ValqError::VisibilityTimeoutOutOfRange);
            }
        }
        if let Some(v) = max_delivery_attempts {
            if v < 1 || v > DELIVERY_ATTEMPTS_MAX {
                return Err(ValqError::MaxDeliveryAttemptsOutOfRange);
            }
        }
        if let Some(v) = retention_period {
            if v < RETENTION_PERIOD_MIN || v > RETENTION_PERIOD_MAX {
                return Err(ValqError::RetentionPeriodOutOfRange);
            }
        }
        Ok(ValqType {
            name: name.to_owned(),
            id_sequence: 0,
            visibility_timeout: match visibility_timeout {
                Some(v) => v,
                None => VISIBILITY_TIMEOUT_DEFAULT,
            },
            max_delivery_attempts: match max_delivery_attempts {
                Some(v) => v,
                None => DELIVERY_ATTEMPTS_DEFAULT,
            },
            retention_period: match retention_period {
                Some(v) => v,
                None => RETENTION_PERIOD_DEFAULT,
            },
            msgs: VecDeque::new(),
            dlq_msgs: VecDeque::new(),
            delayed_msgs: DelayedMsgs::new(),
        })
    }

    /// A queue assembled from its parts, as read back from storage.
    pub(crate) fn from_parts(
        name: String,
        id_sequence: u64,
        visibility_timeout: u64,
        max_delivery_attempts: u64,
        retention_period: u64,
        msgs: VecDeque<ValqMsg>,
        dlq_msgs: VecDeque<ValqMsg>,
        delayed_msgs: DelayedMsgs,
    ) -> (r: Self)
        ensures
            r@ == (QueueState {
                name,
                id_sequence,
                visibility_timeout,
                max_delivery_attempts,
                retention_period,
                msgs: msgs@,
                dlq_msgs: dlq_msgs@,
                delayed_msgs: delayed_msgs@,
            }),
    {
        ValqType {
            name,
            id_sequence,
            visibility_timeout,
            max_delivery_attempts,
            retention_period,
            msgs,
            dlq_msgs,
            delayed_msgs,
        }
    }

    pub fn name(&self) -> (r: &String)
        ensures
            *r == self@.name,
    {
        &self.name
    }

    pub fn id_sequence(&self) -> (r: &u64)
        ensures
            *r == self@.id_sequence,
    {
        &self.id_sequence
    }

    pub fn visibility_timeout(&self) -> (r: &u64)
        ensures
            *r == self@.visibility_timeout,
    {
        &self.visibility_timeout
    }

    pub fn max_delivery_attempts(&self) -> (r: &u64)
        ensures
            *r == self@.max_delivery_attempts,
    {
        &self.max_delivery_attempts
    }

    pub fn retention_period(&self) -> (r: &u64)
        ensures
            *r == self@.retention_period,
    {
        &self.retention_period
    }

    pub fn msgs(&self) -> (r: &VecDeque<ValqMsg>)
        ensures
            r@ == self@.msgs,
    {
        &self.msgs
    }

    pub fn dlq_msgs(&self) -> (r: &VecDeque<ValqMsg>)
        ensures
            r@ == self@.dlq_msgs,
    {
        &self.dlq_msgs
    }

    pub fn delayed_msgs(&self) -> (r: &DelayedMsgs)
        ensures
            r@ == self@.delayed_msgs,
    {
        &self.delayed_msgs
    }

    /// Direct access to the ready sequence; what is put there is the
    /// caller's to keep consistent.
    pub fn msgs_mut(&mut self) -> (r: &mut VecDeque<ValqMsg>)
        ensures
            r@ == old(self)@.msgs,
            final(self)@ == (QueueState { msgs: final(r)@, ..old(self)@ }),
    {
        &mut self.msgs
    }

    /// Direct access to the dead-letter sequence.
    pub fn dlq_msgs_mut(&mut self) -> (r: &mut VecDeque<ValqMsg>)
        ensures
            r@ == old(self)@.dlq_msgs,
            final(self)@ == (QueueState { dlq_msgs: final(r)@, ..old(self)@ }),
    {
        &mut self.dlq_msgs
    }

    /// Direct access to the delayed index, whose own methods keep it well formed.
    pub fn delayed_msgs_mut(&mut self) -> (r: &mut DelayedMsgs)
        ensures
            r@ == old(self)@.delayed_msgs,
            final(self)@ == (QueueState { delayed_msgs: final(r)@, ..old(self)@ }),
    {
        &mut self.delayed_msgs
    }

    pub fn set_id_sequence(&mut self, id_sequence: u64)
        ensures
            final(self)@ == (QueueState { id_sequence, ..old(self)@ }),
    {
        self.id_sequence = id_sequence;
    }

    pub fn set_visibility_timeout(&mut self, visibility_timeout: u64) -> (r: Result<(), ValqError>)
        ensures
            valid_visibility_timeout(visibility_timeout) ==> r is Ok && final(self)@ == (QueueState {
                visibility_timeout,
                ..old(self)@
            }),
            !valid_visibility_timeout(visibility_timeout) ==> r == Err::<(), ValqError>(
                ValqError::VisibilityTimeoutOutOfRange,
            ) && final(self)@ == old(self)@,
    {
        if visibility_timeout < 1 || visibility_timeout > VISIBILITY_TIMEOUT_MAX {
            Err(ValqError::VisibilityTimeoutOutOfRange)
        } else {
            self.visibility_timeout = visibility_timeout;
            Ok(())
        }
    }

    pub fn set_max_delivery_attempts(&mut self, max_delivery_attempts: u64) -> (r: Result<
        (),
        ValqError,
    >)
        ensures
            valid_max_delivery_attempts(max_delivery_attempts) ==> r is Ok && final(self)@ == (
            QueueState { max_delivery_attempts, ..old(self)@ }),
            !valid_max_delivery_attempts(max_delivery_attempts) ==> r == Err::<(), ValqError>(
                ValqError::MaxDeliveryAttemptsOutOfRange,
            ) && final(self)@ == old(self)@,
    {
        if max_delivery_attempts < 1 || max_delivery_attempts > DELIVERY_ATTEMPTS_MAX {
            Err(ValqError::MaxDeliveryAttemptsOutOfRange)
        } else {
            self.max_delivery_attempts = max_delivery_attempts;
            Ok(())
        }
    }

    pub fn set_retention_period(&mut self, retention_period: u64) -> (r: Result<(), ValqError>)
        ensures
            valid_retention_period(retention_period) ==> r is Ok && final(self)@ == (QueueState {
                retention_period,
                ..old(self)@
            }),
            !valid_retention_period(retention_period) ==> r == Err::<(), ValqError>(
                ValqError::RetentionPeriodOutOfRange,
            ) && final(self)@ == old(self)@,
    {
        if retention_period < RETENTION_PERIOD_MIN || retention_period > RETENTION_PERIOD_MAX {
            Err(ValqError::RetentionPeriodOutOfRange)
        } else {
            self.retention_period = retention_period;
            Ok(())
        }
    }

    /// Replaces the three settings at once, or none of them when one is out
    /// of bounds. Messages and the id counter stay as they are.
    pub fn update(&mut self, visibility_timeout: u64, max_delivery_attempts: u64, retention_period: u64) -> (r: Result<(), ValqError>)
        ensures
            match update_error(visibility_timeout, max_delivery_attempts, retention_period) {
                Some(e) => r == Err::<(), ValqError>(e) && final(self)@ == old(self)@,
                None => r is Ok && final(self)@ == (QueueState {
                    visibility_timeout,
                    max_delivery_attempts,
                    retention_period,
                    ..old(self)@
                }),
            },
    {
        if visibility_timeout < 1 || visibility_timeout > VISIBILITY_TIMEOUT_MAX {
            return Err(ValqError::VisibilityTimeoutOutOfRange);
        }
        if max_delivery_attempts < 1 || max_delivery_attempts > DELIVERY_ATTEMPTS_MAX {
            return Err(ValqError::MaxDeliveryAttemptsOutOfRange);
        }
        if retention_period < RETENTION_PERIOD_MIN || retention_period > RETENTION_PERIOD_MAX {
            return Err(ValqError::RetentionPeriodOutOfRange);
        }
        self.visibility_timeout = visibility_timeout;
        self.max_delivery_attempts = max_delivery_attempts;
        self.retention_period = retention_period;
        Ok(())
    }

    /// Counters and settings.
    pub fn info(&self) -> (r: QueueInfo)
        ensures
            r == info_of(self@),
    {
        QueueInfo {
            visibility_timeout: self.visibility_timeout,
            max_delivery_attempts: self.max_delivery_attempts,
            retention_period: self.retention_period,
            id_sequence: self.id_sequence,
            msgs: self.msgs.len() as u64,
            dlq_msgs: self.dlq_msgs.len() as u64,
            delayed_msgs: self.delayed_msgs.len(),
        }
    }

    /// Adds a message with the next id: at the tail of the ready sequence
    /// when `delay_seconds` is zero, else under the score `now + delay_seconds`
    /// in the delayed index. Returns the new id.
    pub fn push_at(&mut self, body: String, delay_seconds: u64, now: u64) -> (r: u64)
        requires
            old(self).wf(),
            old(self)@.id_sequence < u64::MAX,
        ensures
            final(self).wf(),
            r == old(self)@.id_sequence + 1,
            final(self)@ == push_state(old(self)@, body, delay_seconds, now),
            ids_consistent(old(self)@) ==> ids_consistent(final(self)@),
    {
        proof {
            if ids_consistent(old(self)@) {
                lemma_ids_consistent_push(old(self)@, body, delay_seconds, now);
            }
        }
        let id = self.id_sequence + 1;
        self.id_sequence = id;
        let msg = ValqMsg::new(id, body, None, 0);
        if delay_seconds == 0 {
            self.msgs.push_back(msg);
        } else {
            self.delayed_msgs.insert(msg, now.saturating_add(delay_seconds));
        }
        id
    }

    /// Position of the first ready or in-flight message with this id.
    fn find_msg(&self, message_id: u64) -> (r: Option<usize>)
        ensures
            match r {
                Some(i) => is_first_id(self@.msgs, message_id, i as int) && first_id_index(
                    self@.msgs,
                    message_id,
                ) == i,
                None => !has_msg_id(self@.msgs, message_id),
            },
    {
        let mut i: usize = 0;
        while i < self.msgs.len()
            invariant
                i <= self@.msgs.len(),
                self@.msgs == self.msgs@,
                forall|j: int| 0 <= j < i ==> #[trigger] self@.msgs[j].id != message_id,
            decreases self@.msgs.len() - i,
        {
            if self.msgs[i].id == message_id {
                proof {
                    let s = self@.msgs;
                    assert(is_first_id(s, message_id, i as int));
                    let c = first_id_index(s, message_id);
                    assert(is_first_id(s, message_id, c));
                    if c < i {
                        assert(s[c].id != message_id);
                    } else if c > i {
                        assert(s[i as int].id != message_id);
                    }
                }
                return Some(i);
            }
            i = i + 1;
        }
        None
    }

    /// Removes for good the first ready or in-flight message with this id;
    /// dead-lettered and delayed messages are not looked at.
    pub fn ack(&mut self, message_id: u64) -> (r: Result<(), ValqError>)
        requires
            old(self).wf(),
        ensures
            final(self).wf(),
            has_msg_id(old(self)@.msgs, message_id) ==> r is Ok && final(self)@ == ack_state(
                old(self)@,
                message_id,
            ),
            !has_msg_id(old(self)@.msgs, message_id) ==> r == Err::<(), ValqError>(
                ValqError::MessageNotFound(message_id),
            ) && final(self)@ == old(self)@,
            ids_consistent(old(self)@) ==> ids_consistent(final(self)@),
    {
        match self.find_msg(message_id) {
            Some(i) => {
                proof {
                    if ids_consistent(old(self)@) {
                        lemma_ids_consistent_ack(old(self)@, message_id);
                    }
                }
                self.msgs.remove(i);
                Ok(())
            },
            None => Err(ValqError::MessageNotFound(message_id)),
        }
    }

    /// Makes the first ready or in-flight message with this id invisible
    /// until `now + extend_seconds`, whatever its timeout was.
    pub fn extend_at(&mut self, message_id: u64, extend_seconds: u64, now: u64) -> (r: Result<
        (),
        ValqError,
    >)
        requires
            old(self).wf(),
        ensures
            final(self).wf(),
            extend_seconds > VISIBILITY_TIMEOUT_MAX ==> r == Err::<(), ValqError>(
                ValqError::ExtendTimeoutOutOfRange,
            ) && final(self)@ == old(self)@,
            extend_seconds <= VISIBILITY_TIMEOUT_MAX && has_msg_id(old(self)@.msgs, message_id)
                ==> r is Ok && final(self)@ == extend_state(old(self)@, message_id, extend_seconds, now),
            extend_seconds <= VISIBILITY_TIMEOUT_MAX && !has_msg_id(old(self)@.msgs, message_id)
                ==> r == Err::<(), ValqError>(ValqError::MessageNotFound(message_id))
                && final(self)@ == old(self)@,
            ids_consistent(old(self)@) ==> ids_consistent(final(self)@),
    {
        if extend_seconds > VISIBILITY_TIMEOUT_MAX {
            return Err(ValqError::ExtendTimeoutOutOfRange);
        }
        match self.find_msg(message_id) {
            Some(i) => {
                proof {
                    if ids_consistent(old(self)@) {
                        lemma_ids_consistent_extend(old(self)@, message_id, extend_seconds, now);
                    }
                }
                let ghost s = self.msgs@;
                let m = self.msgs.remove(i);
                match m {
                    Some(mut m) => {
                        m.set_timeout_at(Some(now.saturating_add(extend_seconds)));
                        self.msgs.insert(i, m);
                        assert(self.msgs@ =~= s.update(i as int, m));
                    },
                    None => {},
                }
                Ok(())
            },
            None => Err(ValqError::MessageNotFound(message_id)),
        }
    }

    /// Empties one collection and returns how many messages it held.
    pub fn purge(&mut self, q_type: QType) -> (r: u64)
        requires
            old(self).wf(),
        ensures
            final(self).wf(),
            r == collection_len(old(self)@, q_type),
            final(self)@ == purge_state(old(self)@, q_type),
            ids_consistent(old(self)@) ==> ids_consistent(final(self)@),
    {
        proof {
            if ids_consistent(old(self)@) {
                lemma_ids_consistent_purge(old(self)@, q_type);
            }
        }
        match q_type {
            QType::Main => {
                let n = self.msgs.len() as u64;
                self.msgs.clear();
                n
            },
            QType::Dlq => {
                let n = self.dlq_msgs.len() as u64;
                self.dlq_msgs.clear();
                n
            },
            QType::Delayed => {
                let n = self.delayed_msgs.len();
                self.delayed_msgs.clear();
                n
            },
        }
    }
}

} // verus!
