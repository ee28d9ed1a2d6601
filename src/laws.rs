use vstd::prelude::*;

use crate::delayed_msgs::{
    due_count, entries_sorted, entry_before, has_entry_id, lemma_insert_sorted_wf, rank,
    without_id,
};
use crate::pop::{
    deliverable, delivered, dies, exhausted, first_deliverable, is_first_deliverable, lemma_first_deliverable,
    lemma_promoted_front_index, lemma_select_all, lemma_select_none, pop_outcome, promote,
    promoted_front, scanned_msgs, select,
};
use crate::identity::{
    id_present, ids_consistent, kept_in, lemma_pop_adds_no_id, lemma_select_from, lemma_select_keeps,
};
use crate::q_type::QType;
use crate::valq_msg::ValqMsg;
use crate::valq_type::{
    QueueState, ack_state, collection_len, empty_queue, extend_state, first_id_index, has_msg_id,
    info_of, lemma_first_id, purge_state, push_state, pushed_msg, sat_add, state_wf,
};

verus! {

/// A freshly created queue reports an id counter of zero, three empty
/// collections, and the settings it was created with.
pub proof fn law_create_then_info(
    name: String,
    visibility_timeout: u64,
    max_delivery_attempts: u64,
    retention_period: u64,
)
    ensures
        ({
            let i = info_of(
                empty_queue(name, visibility_timeout, max_delivery_attempts, retention_period),
            );
            &&& i.id_sequence == 0
            &&& i.msgs == 0
            &&& i.dlq_msgs == 0
            &&& i.delayed_msgs == 0
            &&& i.visibility_timeout == visibility_timeout
            &&& i.max_delivery_attempts == max_delivery_attempts
            &&& i.retention_period == retention_period
        }),
{
}

/// Purging a collection empties exactly that collection; the size reported
/// is the one it had, and the other two collections are untouched.
pub proof fn law_purge_empties_one_collection(q: QueueState, t: QType)
    ensures
        collection_len(purge_state(q, t), t) == 0,
        t != QType::Main ==> purge_state(q, t).msgs == q.msgs,
        t != QType::Dlq ==> purge_state(q, t).dlq_msgs == q.dlq_msgs,
        t != QType::Delayed ==> purge_state(q, t).delayed_msgs == q.delayed_msgs,
        purge_state(q, t).id_sequence == q.id_sequence,
{
}

/// Extending a message sets its timeout to `now + extend_seconds` whatever
/// it was before: it is invisible before that instant and visible from it on.
pub proof fn law_extend_replaces_timeout(q: QueueState, id: u64, extend_seconds: u64, now: u64)
    requires
        has_msg_id(q.msgs, id),
    ensures
        ({
            let i = first_id_index(q.msgs, id);
            let m = extend_state(q, id, extend_seconds, now).msgs[i];
            &&& m.id == id
            &&& m.timeout_at == Some(sat_add(now, extend_seconds))
            &&& forall|t: u64| #[trigger] m.visible_at(t) <==> t >= sat_add(now, extend_seconds)
            &&& m.body == q.msgs[i].body
            &&& m.delivery_attempts == q.msgs[i].delivery_attempts
        }),
{
    lemma_first_id(q.msgs, id);
}

/// An acknowledged message is gone for good: no collection holds its id
/// any more, and a later pop does not bring it back. An id that is not in
/// the ready sequence, such as a dead-lettered one, cannot be acknowledged.
pub proof fn law_ack_removes_for_good(q: QueueState, id: u64)
    requires
        ids_consistent(q),
    ensures
        has_msg_id(q.msgs, id) ==> !id_present(ack_state(q, id), id),
        has_msg_id(q.msgs, id) ==> forall|t: u64|
            !id_present(#[trigger] pop_outcome(ack_state(q, id), t).0, id),
        has_msg_id(q.msgs, id) ==> ack_state(q, id).msgs.len() == q.msgs.len() - 1,
        has_msg_id(q.msgs, id) ==> ack_state(q, id).dlq_msgs == q.dlq_msgs,
        (exists|j: int| 0 <= j < q.dlq_msgs.len() && #[trigger] q.dlq_msgs[j].id == id) ==> !has_msg_id(
            q.msgs,
            id,
        ),
{
    if has_msg_id(q.msgs, id) {
        lemma_first_id(q.msgs, id);
        let k = first_id_index(q.msgs, id);
        let a = ack_state(q, id);
        let s = a.msgs;
        if has_msg_id(s, id) {
            let j = choose|j: int| 0 <= j < s.len() && #[trigger] s[j].id == id;
            if j < k {
                assert(s[j] == q.msgs[j]);
            } else {
                assert(s[j] == q.msgs[j + 1]);
                assert(q.msgs[j + 1].id != q.msgs[k].id);
            }
        }
        if has_msg_id(a.dlq_msgs, id) {
            let j = choose|j: int| 0 <= j < a.dlq_msgs.len() && #[trigger] a.dlq_msgs[j].id == id;
            assert(q.msgs[k].id != q.dlq_msgs[j].id);
        }
        if has_entry_id(a.delayed_msgs, id) {
            let j = choose|j: int|
                0 <= j < a.delayed_msgs.len() && #[trigger] a.delayed_msgs[j].1.id == id;
            assert(q.msgs[k].id != q.delayed_msgs[j].1.id);
        }
        assert forall|t: u64| !id_present(#[trigger] pop_outcome(a, t).0, id) by {
            if id_present(pop_outcome(a, t).0, id) {
                lemma_pop_adds_no_id(a, t, id);
            }
        }
    }
    if exists|j: int| 0 <= j < q.dlq_msgs.len() && #[trigger] q.dlq_msgs[j].id == id {
        let j = choose|j: int| 0 <= j < q.dlq_msgs.len() && #[trigger] q.dlq_msgs[j].id == id;
        if has_msg_id(q.msgs, id) {
            let i = choose|i: int| 0 <= i < q.msgs.len() && #[trigger] q.msgs[i].id == id;
            assert(q.msgs[i].id != q.dlq_msgs[j].id);
        }
    }
}

/// With no delayed entry due at `now`, promotion changes nothing.
proof fn lemma_promote_nothing_due(q: QueueState, now: u64)
    requires
        forall|i: int| 0 <= i < q.delayed_msgs.len() ==> (#[trigger] q.delayed_msgs[i]).0 > now,
    ensures
        promote(q, now) == q,
{
    crate::seq_facts::lemma_filter_prefix(q.delayed_msgs, |x: (u64, ValqMsg)| x.0 <= now, 0);
    assert(due_count(q.delayed_msgs, now) == 0);
    assert(q.delayed_msgs.take(0) =~= Seq::<(u64, crate::valq_msg::ValqMsg)>::empty());
    assert(promoted_front(q.delayed_msgs.take(0)) + q.msgs =~= q.msgs);
    assert(q.delayed_msgs.skip(0) =~= q.delayed_msgs);
}

proof fn lemma_first_deliverable_is(s: Seq<ValqMsg>, now: u64, max: u64, k: int)
    requires
        is_first_deliverable(s, now, max, k),
    ensures
        first_deliverable(s, now, max) == k,
{
    lemma_first_deliverable(s, now, max);
    let c = first_deliverable(s, now, max);
    if c < k {
        assert(!deliverable(s[c], now, max));
    } else if c > k {
        assert(!deliverable(s[k], now, max));
    }
}

/// A pop on a queue with nothing delayed, whose messages before position
/// `i` are all invisible and whose message at `i` is deliverable, delivers
/// that message in place and changes nothing else.
proof fn lemma_pop_delivers_at(q: QueueState, now: u64, i: int)
    requires
        q.delayed_msgs.len() == 0,
        0 <= i < q.msgs.len(),
        forall|j: int| 0 <= j < i ==> !(#[trigger] q.msgs[j]).visible_at(now),
        deliverable(q.msgs[i], now, q.max_delivery_attempts),
    ensures
        pop_outcome(q, now) == (
            QueueState {
                msgs: q.msgs.update(i, delivered(q.msgs[i], now, q.visibility_timeout)),
                ..q
            },
            Some(delivered(q.msgs[i], now, q.visibility_timeout)),
        ),
{
    let max = q.max_delivery_attempts;
    lemma_promote_nothing_due(q, now);
    assert(is_first_deliverable(q.msgs, now, max, i));
    lemma_first_deliverable_is(q.msgs, now, max, i);
    let s2 = scanned_msgs(q.msgs, now, q);
    assert forall|j: int| 0 <= j < s2.len() implies !#[trigger] dies(q.msgs, now, max, j) by {
        if j < i {
            assert(!q.msgs[j].visible_at(now));
        }
    }
    lemma_select_all(s2, |j: int| !dies(q.msgs, now, max, j));
    lemma_select_none(q.msgs, |j: int| dies(q.msgs, now, max, j));
    assert(q.dlq_msgs + Seq::<ValqMsg>::empty() =~= q.dlq_msgs);
}

/// A pop on a queue with nothing delayed and no visible message changes
/// nothing and delivers nothing.
proof fn lemma_pop_finds_nothing(q: QueueState, now: u64)
    requires
        q.delayed_msgs.len() == 0,
        forall|j: int| 0 <= j < q.msgs.len() ==> !(#[trigger] q.msgs[j]).visible_at(now),
    ensures
        pop_outcome(q, now) == (q, None::<ValqMsg>),
{
    let max = q.max_delivery_attempts;
    lemma_promote_nothing_due(q, now);
    assert(is_first_deliverable(q.msgs, now, max, q.msgs.len() as int));
    lemma_first_deliverable_is(q.msgs, now, max, q.msgs.len() as int);
    assert forall|j: int| 0 <= j < q.msgs.len() implies !#[trigger] dies(q.msgs, now, max, j) by {
        assert(!q.msgs[j].visible_at(now));
    }
    lemma_select_all(q.msgs, |j: int| !dies(q.msgs, now, max, j));
    lemma_select_none(q.msgs, |j: int| dies(q.msgs, now, max, j));
    assert(q.dlq_msgs + Seq::<ValqMsg>::empty() =~= q.dlq_msgs);
    assert(pop_outcome(q, now).0 =~= q);
}

/// A message delivered by a pop at `now` is the first deliverable one after
/// promotion, with one more attempt counted; its stored copy stays in the
/// ready sequence, invisible at every instant before `now + visibility_timeout`.
pub proof fn law_delivered_message_invisible(q: QueueState, now: u64)
    requires
        pop_outcome(q, now).1 is Some,
    ensures
        ({
            let s = promote(q, now).msgs;
            let k = first_deliverable(s, now, q.max_delivery_attempts);
            let d = pop_outcome(q, now).1->Some_0;
            let q2 = pop_outcome(q, now).0;
            &&& 0 <= k < s.len()
            &&& d.id == s[k].id
            &&& d.body == s[k].body
            &&& d.delivery_attempts == s[k].delivery_attempts + 1
            &&& d.timeout_at == Some(sat_add(now, q.visibility_timeout))
            &&& exists|j: int| 0 <= j < q2.msgs.len() && #[trigger] q2.msgs[j] == d
            &&& forall|t: u64| t < sat_add(now, q.visibility_timeout) ==> !#[trigger] d.visible_at(t)
        }),
{
    let p = promote(q, now);
    let s = p.msgs;
    let max = q.max_delivery_attempts;
    lemma_first_deliverable(s, now, max);
    let k = first_deliverable(s, now, max);
    let s2 = scanned_msgs(s, now, p);
    assert(k < s.len());
    let d = delivered(s[k], now, q.visibility_timeout);
    assert(pop_outcome(q, now).1 == Some(d));
    assert(s2[k] == d);
    assert(!dies(s, now, max, k));
    lemma_select_keeps(s2, |i: int| !dies(s, now, max, i), k);
    assert(pop_outcome(q, now).0.msgs == select(s2, |i: int| !dies(s, now, max, i)));
}

/// A popped message stays invisible for the visibility timeout: when it was
/// the queue's only message, popping again before `now + visibility_timeout`
/// returns nothing and changes nothing.
pub proof fn law_popped_message_stays_invisible(q: QueueState, m: ValqMsg, now: u64, t: u64)
    requires
        state_wf(q),
        q.delayed_msgs.len() == 0,
        q.msgs == seq![m],
        deliverable(m, now, q.max_delivery_attempts),
        t < sat_add(now, q.visibility_timeout),
    ensures
        pop_outcome(q, now).1 == Some(delivered(m, now, q.visibility_timeout)),
        pop_outcome(pop_outcome(q, now).0, t) == (pop_outcome(q, now).0, None::<ValqMsg>),
{
    lemma_pop_delivers_at(q, now, 0);
    let q1 = pop_outcome(q, now).0;
    assert(q1.msgs[0] == delivered(m, now, q.visibility_timeout));
    lemma_pop_finds_nothing(q1, t);
}

/// Once the visibility timeout has passed, a popped and unacknowledged
/// message is delivered again, with one more delivery attempt counted.
pub proof fn law_redelivered_after_timeout(q: QueueState, m: ValqMsg, now: u64, t: u64)
    requires
        state_wf(q),
        q.delayed_msgs.len() == 0,
        q.msgs == seq![m],
        m.visible_at(now),
        m.delivery_attempts + 1 < q.max_delivery_attempts,
        t >= sat_add(now, q.visibility_timeout),
    ensures
        ({
            let first = pop_outcome(q, now).1;
            let second = pop_outcome(pop_outcome(q, now).0, t).1;
            &&& first is Some && second is Some
            &&& second->Some_0.id == m.id
            &&& second->Some_0.body == m.body
            &&& first->Some_0.delivery_attempts == m.delivery_attempts + 1
            &&& second->Some_0.delivery_attempts == first->Some_0.delivery_attempts + 1
            &&& second->Some_0.timeout_at == Some(sat_add(t, q.visibility_timeout))
        }),
{
    lemma_pop_delivers_at(q, now, 0);
    let q1 = pop_outcome(q, now).0;
    let m1 = delivered(m, now, q.visibility_timeout);
    assert(q1.msgs[0] == m1);
    lemma_pop_delivers_at(q1, t, 0);
}

/// A visible message that has used up its delivery attempts, with no
/// deliverable message before it and no delayed entry due, is not returned
/// by the next pop: it goes, with the other exhausted messages met before
/// the delivered one, in order, to the tail of the dead-letter sequence, and
/// no ready message keeps its id, so it can no longer be acknowledged.
pub proof fn law_exhausted_message_dead_lettered(q: QueueState, j: int, now: u64)
    requires
        ids_consistent(q),
        forall|i: int| 0 <= i < q.delayed_msgs.len() ==> (#[trigger] q.delayed_msgs[i]).0 > now,
        0 <= j < q.msgs.len(),
        exhausted(q.msgs[j], now, q.max_delivery_attempts),
        forall|i: int| 0 <= i < j ==> !deliverable(#[trigger] q.msgs[i], now, q.max_delivery_attempts),
    ensures
        ({
            let m = q.msgs[j];
            let (q2, r) = pop_outcome(q, now);
            let gone = select(q.msgs, |i: int| dies(q.msgs, now, q.max_delivery_attempts, i));
            &&& r is None || r->Some_0.id != m.id
            &&& q2.dlq_msgs == q.dlq_msgs + gone
            &&& exists|x: int| 0 <= x < gone.len() && #[trigger] gone[x] == m
            &&& !has_msg_id(q2.msgs, m.id)
        }),
{
    let s = q.msgs;
    let max = q.max_delivery_attempts;
    lemma_promote_nothing_due(q, now);
    lemma_first_deliverable(s, now, max);
    let k = first_deliverable(s, now, max);
    if k <= j {
        assert(!deliverable(s[k], now, max));
    }
    assert(dies(s, now, max, j));
    let keep = |i: int| !dies(s, now, max, i);
    let dead = |i: int| dies(s, now, max, i);
    lemma_select_keeps(s, dead, j);
    let s2 = scanned_msgs(s, now, q);
    lemma_select_from(s2, keep);
    let q2 = pop_outcome(q, now).0;
    if k < s.len() {
        assert(s[k].id != s[j].id);
    }
    if has_msg_id(q2.msgs, s[j].id) {
        let x = choose|x: int| 0 <= x < q2.msgs.len() && #[trigger] q2.msgs[x].id == s[j].id;
        assert(kept_in(s2, keep, q2.msgs[x]));
        let a = choose|a: int| 0 <= a < s2.len() && keep(a) && q2.msgs[x] == #[trigger] s2[a];
        assert(a != j);
        assert(s2[a].id == s[a].id);
        assert(s[a].id != s[j].id);
    }
}

/// The state after pushing each body in turn, without delay, at `now`.
pub open spec fn push_all(q: QueueState, bodies: Seq<String>, now: u64) -> QueueState
    decreases bodies.len(),
{
    if bodies.len() == 0 {
        q
    } else {
        push_state(push_all(q, bodies.drop_last(), now), bodies.last(), 0, now)
    }
}

/// The state after one pop at each instant of `ts` in turn, and what each
/// pop returned.
pub open spec fn pop_at_times(q: QueueState, ts: Seq<u64>) -> (QueueState, Seq<Option<ValqMsg>>)
    decreases ts.len(),
{
    if ts.len() == 0 {
        (q, Seq::empty())
    } else {
        let (q1, rs) = pop_at_times(q, ts.drop_last());
        let (q2, r) = pop_outcome(q1, ts.last());
        (q2, rs.push(r))
    }
}

/// Each pop of `ts` comes before the visibility timeout of every earlier one
/// has run out.
pub open spec fn within_timeouts(ts: Seq<u64>, visibility_timeout: u64) -> bool {
    forall|j: int, i: int|
        0 <= j < i < ts.len() ==> #[trigger] ts[i] < sat_add(#[trigger] ts[j], visibility_timeout)
}

proof fn lemma_push_all_shape(q: QueueState, bodies: Seq<String>, now: u64)
    requires
        q.id_sequence == 0,
        q.msgs.len() == 0,
        bodies.len() < u64::MAX,
    ensures
        ({
            let p = push_all(q, bodies, now);
            &&& p.id_sequence == bodies.len()
            &&& p.msgs.len() == bodies.len()
            &&& forall|i: int| 0 <= i < bodies.len() ==> #[trigger] p.msgs[i] == pushed_msg(
                (i + 1) as u64,
                bodies[i],
            )
            &&& p == (QueueState { id_sequence: p.id_sequence, msgs: p.msgs, ..q })
        }),
    decreases bodies.len(),
{
    if bodies.len() > 0 {
        let b = bodies.drop_last();
        lemma_push_all_shape(q, b, now);
        let before = push_all(q, b, now);
        let p = push_all(q, bodies, now);
        assert(p.msgs == before.msgs.push(pushed_msg((b.len() + 1) as u64, bodies.last())));
        assert forall|i: int| 0 <= i < bodies.len() implies #[trigger] p.msgs[i] == pushed_msg(
            (i + 1) as u64,
            bodies[i],
        ) by {
            if i < b.len() {
                assert(p.msgs[i] == before.msgs[i]);
                assert(b[i] == bodies[i]);
            }
        }
    }
}

proof fn lemma_pop_times_shape(p: QueueState, ts: Seq<u64>)
    requires
        p.delayed_msgs.len() == 0,
        valid_settings(p),
        ts.len() <= p.msgs.len(),
        within_timeouts(ts, p.visibility_timeout),
        forall|j: int| 0 <= j < p.msgs.len() ==> (#[trigger] p.msgs[j]).timeout_at is None
            && p.msgs[j].delivery_attempts == 0,
    ensures
        ({
            let (s, rs) = pop_at_times(p, ts);
            let k = ts.len() as int;
            &&& rs.len() == k
            &&& s.msgs.len() == p.msgs.len()
            &&& s == (QueueState { msgs: s.msgs, ..p })
            &&& forall|j: int| 0 <= j < k ==> #[trigger] s.msgs[j] == delivered(
                p.msgs[j],
                ts[j],
                p.visibility_timeout,
            )
            &&& forall|j: int| k <= j < p.msgs.len() ==> #[trigger] s.msgs[j] == p.msgs[j]
            &&& forall|j: int| 0 <= j < k ==> #[trigger] rs[j] == Some(
                delivered(p.msgs[j], ts[j], p.visibility_timeout),
            )
        }),
    decreases ts.len(),
{
    if ts.len() > 0 {
        let us = ts.drop_last();
        assert(within_timeouts(us, p.visibility_timeout)) by {
            assert forall|j: int, i: int| 0 <= j < i < us.len() implies #[trigger] us[i] < sat_add(
                #[trigger] us[j],
                p.visibility_timeout,
            ) by {
                assert(ts[i] < sat_add(ts[j], p.visibility_timeout));
            }
        }
        lemma_pop_times_shape(p, us);
        let (s, rs) = pop_at_times(p, us);
        let i = us.len() as int;
        let t = ts.last();
        assert forall|j: int| 0 <= j < i implies !(#[trigger] s.msgs[j]).visible_at(t) by {
            assert(s.msgs[j] == delivered(p.msgs[j], us[j], p.visibility_timeout));
            assert(ts[i] < sat_add(ts[j], p.visibility_timeout));
        }
        assert(s.msgs[i] == p.msgs[i]);
        lemma_pop_delivers_at(s, t, i);
        let (s2, r) = pop_outcome(s, t);
        assert forall|j: int| 0 <= j < i + 1 implies #[trigger] s2.msgs[j] == delivered(
            p.msgs[j],
            ts[j],
            p.visibility_timeout,
        ) by {
            if j < i {
                assert(s2.msgs[j] == s.msgs[j]);
            }
        }
        assert forall|j: int| i + 1 <= j < p.msgs.len() implies #[trigger] s2.msgs[j] == p.msgs[j] by {
            assert(s2.msgs[j] == s.msgs[j]);
        }
        assert forall|j: int| 0 <= j < i + 1 implies #[trigger] rs.push(r)[j] == Some(
            delivered(p.msgs[j], ts[j], p.visibility_timeout),
        ) by {
            if j < i {
                assert(rs.push(r)[j] == rs[j]);
            }
        }
    }
}

/// Settings within their bounds.
pub open spec fn valid_settings(q: QueueState) -> bool {
    &&& crate::valq_type::valid_visibility_timeout(q.visibility_timeout)
    &&& crate::valq_type::valid_max_delivery_attempts(q.max_delivery_attempts)
}

/// Pushing n bodies without delay into an empty queue gives them the ids
/// 1..n in order; n pops, each before the visibility timeout of the earlier
/// ones has run out, then return them in that same order, each delivered once.
pub proof fn law_push_then_pop_in_order(q: QueueState, bodies: Seq<String>, now: u64, ts: Seq<u64>)
    requires
        state_wf(q),
        q.id_sequence == 0,
        q.msgs.len() == 0,
        q.delayed_msgs.len() == 0,
        bodies.len() < u64::MAX,
        ts.len() == bodies.len(),
        within_timeouts(ts, q.visibility_timeout),
    ensures
        ({
            let p = push_all(q, bodies, now);
            let (s, rs) = pop_at_times(p, ts);
            &&& p.id_sequence == bodies.len()
            &&& p.msgs.len() == bodies.len()
            &&& forall|i: int| 0 <= i < bodies.len() ==> (#[trigger] p.msgs[i]) == pushed_msg(
                (i + 1) as u64,
                bodies[i],
            )
            &&& rs.len() == bodies.len()
            &&& forall|i: int| 0 <= i < bodies.len() ==> (#[trigger] rs[i]) is Some && rs[i]->Some_0.id
                == i + 1 && rs[i]->Some_0.body == bodies[i]
            &&& forall|i: int| 0 <= i < bodies.len() ==> (#[trigger] s.msgs[i]).id == i + 1
                && s.msgs[i].delivery_attempts == 1
            &&& s.dlq_msgs == q.dlq_msgs
        }),
{
    lemma_push_all_shape(q, bodies, now);
    let p = push_all(q, bodies, now);
    assert forall|j: int| 0 <= j < p.msgs.len() implies (#[trigger] p.msgs[j]).timeout_at is None
        && p.msgs[j].delivery_attempts == 0 by {
        assert(p.msgs[j] == pushed_msg((j + 1) as u64, bodies[j]));
    }
    lemma_pop_times_shape(p, ts);
    let (s, rs) = pop_at_times(p, ts);
    assert forall|i: int| 0 <= i < bodies.len() implies (#[trigger] rs[i]) is Some && rs[i]->Some_0.id
        == i + 1 && rs[i]->Some_0.body == bodies[i] by {
        assert(p.msgs[i] == pushed_msg((i + 1) as u64, bodies[i]));
    }
    assert forall|i: int| 0 <= i < bodies.len() implies (#[trigger] s.msgs[i]).id == i + 1
        && s.msgs[i].delivery_attempts == 1 by {
        assert(p.msgs[i] == pushed_msg((i + 1) as u64, bodies[i]));
    }
}

proof fn lemma_due_prefix_from(d: Seq<(u64, ValqMsg)>, t: u64, i: int)
    requires
        entries_sorted(d),
        0 <= i <= d.len(),
        forall|j: int| 0 <= j < i ==> (#[trigger] d[j]).0 <= t,
    ensures
        0 <= due_count(d, t) <= d.len(),
        forall|j: int| 0 <= j < due_count(d, t) ==> (#[trigger] d[j]).0 <= t,
        forall|j: int| due_count(d, t) <= j < d.len() ==> (#[trigger] d[j]).0 > t,
    decreases d.len() - i,
{
    if i < d.len() && d[i].0 <= t {
        lemma_due_prefix_from(d, t, i + 1);
    } else {
        assert forall|j: int| i <= j < d.len() implies (#[trigger] d[j]).0 > t by {
            if j > i {
                assert(entry_before(d[i], d[j]));
            }
        }
        crate::seq_facts::lemma_filter_prefix(d, |x: (u64, ValqMsg)| x.0 <= t, i);
        assert(d.take(i).len() == i);
    }
}

/// A message pushed with a delay is not delivered before the delay has
/// passed: the push adds one delayed entry under the score `now + delay`
/// and leaves the ready sequence as it was; a pop at any earlier instant
/// returns some other message or nothing, leaves no ready message with its
/// id, and the entry stays in the delayed index under the same score.
pub proof fn law_delayed_push_waits(q: QueueState, body: String, delay: u64, now: u64, t: u64)
    requires
        state_wf(q),
        ids_consistent(q),
        q.id_sequence < u64::MAX,
        delay > 0,
        t < sat_add(now, delay),
    ensures
        ({
            let id = (q.id_sequence + 1) as u64;
            let q1 = push_state(q, body, delay, now);
            let (q2, r) = pop_outcome(q1, t);
            let e = (sat_add(now, delay), pushed_msg(id, body));
            &&& q1.msgs == q.msgs
            &&& q1.dlq_msgs == q.dlq_msgs
            &&& q1.delayed_msgs.len() == q.delayed_msgs.len() + 1
            &&& exists|j: int| 0 <= j < q1.delayed_msgs.len() && #[trigger] q1.delayed_msgs[j] == e
            &&& r is None || r->Some_0.id != id
            &&& !has_msg_id(q2.msgs, id)
            &&& exists|j: int| 0 <= j < q2.delayed_msgs.len() && #[trigger] q2.delayed_msgs[j] == e
        }),
{
    let id = (q.id_sequence + 1) as u64;
    let q1 = push_state(q, body, delay, now);
    let e = (sat_add(now, delay), pushed_msg(id, body));
    let d0 = q.delayed_msgs;
    assert(!has_entry_id(d0, id)) by {
        if has_entry_id(d0, id) {
            let i = choose|i: int| 0 <= i < d0.len() && #[trigger] d0[i].1.id == id;
            assert(d0[i].1.id <= q.id_sequence);
        }
    }
    assert(without_id(d0, id) == d0);
    lemma_insert_sorted_wf(d0, e);
    let r0 = rank(d0, e);
    d0.lemma_filter_len(|x: (u64, ValqMsg)| entry_before(x, e));
    let d = q1.delayed_msgs;
    assert(d == d0.insert(r0, e));
    assert(0 <= r0 <= d0.len());
    assert(d.len() == d0.len() + 1);
    assert(d[r0] == e);
    assert(d[r0].1.id == id);
    assert(has_entry_id(d, id));
    let c = due_count(d, t);
    lemma_due_prefix_from(d, t, 0);
    assert(r0 >= c);
    let p = promote(q1, t);
    assert(p.delayed_msgs == d.skip(c));
    assert(d.skip(c)[r0 - c] == e);
    let max = q1.max_delivery_attempts;
    lemma_first_deliverable(p.msgs, t, max);
    let k = first_deliverable(p.msgs, t, max);
    lemma_promoted_front_index(d.take(c));
    let s = p.msgs;
    assert forall|a: int| 0 <= a < s.len() implies (#[trigger] s[a]).id != id by {
        if a < c {
            assert(s[a] == promoted_front(d.take(c))[a]);
            assert(s[a] == d[c - 1 - a].1);
            assert(d[c - 1 - a].1.id != d[r0].1.id);
        } else {
            assert(s[a] == q.msgs[a - c]);
            assert(q.msgs[a - c].id <= q.id_sequence);
        }
    }
    let (q2, r) = pop_outcome(q1, t);
    assert(q2.delayed_msgs == d.skip(c));
    assert(q2.delayed_msgs[r0 - c] == e);
    let s2 = scanned_msgs(s, t, p);
    let keep = |i: int| !dies(s, t, max, i);
    lemma_select_from(s2, keep);
    assert(q2.msgs == select(s2, keep));
    if has_msg_id(q2.msgs, id) {
        let x = choose|x: int| 0 <= x < q2.msgs.len() && #[trigger] q2.msgs[x].id == id;
        assert(kept_in(s2, keep, q2.msgs[x]));
        let a = choose|a: int| 0 <= a < s2.len() && keep(a) && q2.msgs[x] == #[trigger] s2[a];
        assert(s2[a].id == s[a].id);
    }
    if k < s.len() {
        assert(s[k].id != id);
    }
}

} // verus!
