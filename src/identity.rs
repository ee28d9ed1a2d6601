use vstd::prelude::*;

use crate::delayed_msgs::{
    due_count, entry_before, entry_ids_distinct, has_entry_id, rank, without_id,
};
use crate::pop::{
    dies, lemma_first_deliverable, lemma_promoted_front_index, pop_outcome, promote,
    promoted_front, scan_outcome, scanned_msgs, select,
};
use crate::q_type::QType;
use crate::retention::swept;
use crate::valq_msg::ValqMsg;
use crate::valq_type::{
    QueueState, ack_state, empty_queue, extend_state, first_id_index, has_msg_id, lemma_first_id,
    purge_state, push_state, pushed_msg, sat_add,
};

verus! {

/// No two messages of `s` share an id.
pub open spec fn msg_ids_distinct(s: Seq<ValqMsg>) -> bool {
    forall|i: int, j: int|
        0 <= i < s.len() && 0 <= j < s.len() && i != j ==> #[trigger] s[i].id != #[trigger] s[j].id
}

/// No message of `a` shares an id with a message of `b`.
pub open spec fn msg_ids_apart(a: Seq<ValqMsg>, b: Seq<ValqMsg>) -> bool {
    forall|i: int, j: int| 0 <= i < a.len() && 0 <= j < b.len() ==> #[trigger] a[i].id != #[trigger] b[j].id
}

/// No message of `a` shares an id with a delayed entry of `d`.
pub open spec fn msg_entry_ids_apart(a: Seq<ValqMsg>, d: Seq<(u64, ValqMsg)>) -> bool {
    forall|i: int, j: int| 0 <= i < a.len() && 0 <= j < d.len() ==> #[trigger] a[i].id != #[trigger] d[j].1.id
}

/// Every id of `s` was handed out by a counter that stands at `n`.
pub open spec fn msg_ids_issued(s: Seq<ValqMsg>, n: u64) -> bool {
    forall|i: int| 0 <= i < s.len() ==> #[trigger] s[i].id <= n
}

/// Each message id occurs at most once in the whole queue: in one of the
/// three collections and only once there, and never above the id counter.
pub open spec fn ids_consistent(q: QueueState) -> bool {
    &&& msg_ids_distinct(q.msgs)
    &&& msg_ids_distinct(q.dlq_msgs)
    &&& entry_ids_distinct(q.delayed_msgs)
    &&& msg_ids_apart(q.msgs, q.dlq_msgs)
    &&& msg_entry_ids_apart(q.msgs, q.delayed_msgs)
    &&& msg_entry_ids_apart(q.dlq_msgs, q.delayed_msgs)
    &&& msg_ids_issued(q.msgs, q.id_sequence)
    &&& msg_ids_issued(q.dlq_msgs, q.id_sequence)
    &&& forall|i: int|
        0 <= i < q.delayed_msgs.len() ==> #[trigger] q.delayed_msgs[i].1.id <= q.id_sequence
}

/// `x` is the message of `s` at some position where `keep` holds.
pub open spec fn kept_in(s: Seq<ValqMsg>, keep: spec_fn(int) -> bool, x: ValqMsg) -> bool {
    exists|i: int| 0 <= i < s.len() && keep(i) && x == #[trigger] s[i]
}

/// Each selected message is a message of `s` at a kept position.
pub proof fn lemma_select_from(s: Seq<ValqMsg>, keep: spec_fn(int) -> bool)
    ensures
        select(s, keep).len() <= s.len(),
        forall|j: int|
            0 <= j < select(s, keep).len() ==> kept_in(s, keep, #[trigger] select(s, keep)[j]),
    decreases s.len(),
{
    if s.len() > 0 {
        let t = s.drop_last();
        lemma_select_from(t, keep);
        let r = select(s, keep);
        let rt = select(t, keep);
        assert forall|j: int| 0 <= j < r.len() implies kept_in(s, keep, #[trigger] r[j]) by {
            if j < rt.len() {
                assert(kept_in(t, keep, rt[j]));
                let i = choose|i: int| 0 <= i < t.len() && keep(i) && rt[j] == #[trigger] t[i];
                assert(r[j] == rt[j]);
                assert(s[i] == t[i]);
            } else {
                assert(keep(s.len() - 1));
                assert(r[j] == s[s.len() - 1]);
            }
            assert(kept_in(s, keep, r[j]));
        }
    }
}

/// The message at a kept position is among the selected ones.
pub proof fn lemma_select_keeps(s: Seq<ValqMsg>, keep: spec_fn(int) -> bool, i: int)
    requires
        0 <= i < s.len(),
        keep(i),
    ensures
        exists|x: int| 0 <= x < select(s, keep).len() && #[trigger] select(s, keep)[x] == s[i],
    decreases s.len(),
{
    let t = s.drop_last();
    if i == s.len() - 1 {
        let x = select(t, keep).len() as int;
        assert(select(s, keep)[x] == s[i]);
    } else {
        lemma_select_keeps(t, keep, i);
        let x = choose|x: int| 0 <= x < select(t, keep).len() && #[trigger] select(t, keep)[x] == t[i];
        assert(select(s, keep)[x] == s[i]);
    }
}

/// Selecting from messages with distinct ids keeps them distinct.
pub proof fn lemma_select_distinct(s: Seq<ValqMsg>, keep: spec_fn(int) -> bool)
    requires
        msg_ids_distinct(s),
    ensures
        msg_ids_distinct(select(s, keep)),
    decreases s.len(),
{
    if s.len() > 0 {
        let t = s.drop_last();
        assert(msg_ids_distinct(t)) by {
            assert forall|i: int, j: int|
                0 <= i < t.len() && 0 <= j < t.len() && i != j implies #[trigger] t[i].id
                != #[trigger] t[j].id by {
                assert(t[i] == s[i] && t[j] == s[j]);
            }
        }
        lemma_select_distinct(t, keep);
        lemma_select_from(t, keep);
        let r = select(s, keep);
        let rt = select(t, keep);
        if keep(s.len() - 1) {
            assert forall|a: int, b: int|
                0 <= a < r.len() && 0 <= b < r.len() && a != b implies #[trigger] r[a].id
                != #[trigger] r[b].id by {
                if a < rt.len() && b < rt.len() {
                    assert(r[a] == rt[a] && r[b] == rt[b]);
                } else if a < rt.len() {
                    assert(kept_in(t, keep, rt[a]));
                    let i = choose|i: int| 0 <= i < t.len() && keep(i) && rt[a] == #[trigger] t[i];
                    assert(r[a] == rt[a]);
                    assert(s[i] == t[i]);
                    assert(s[i].id != s[s.len() - 1].id);
                } else {
                    assert(kept_in(t, keep, rt[b]));
                    let i = choose|i: int| 0 <= i < t.len() && keep(i) && rt[b] == #[trigger] t[i];
                    assert(r[b] == rt[b]);
                    assert(s[i] == t[i]);
                    assert(s[i].id != s[s.len() - 1].id);
                }
            }
        }
    }
}

/// An empty queue is consistent.
pub proof fn lemma_ids_consistent_empty(
    name: String,
    visibility_timeout: u64,
    max_delivery_attempts: u64,
    retention_period: u64,
)
    ensures
        ids_consistent(empty_queue(name, visibility_timeout, max_delivery_attempts, retention_period)),
{
}

/// A push hands out a fresh id and keeps the queue consistent.
pub proof fn lemma_ids_consistent_push(q: QueueState, body: String, delay: u64, now: u64)
    requires
        ids_consistent(q),
        q.id_sequence < u64::MAX,
    ensures
        ids_consistent(push_state(q, body, delay, now)),
{
    let id = (q.id_sequence + 1) as u64;
    let m = pushed_msg(id, body);
    let q1 = push_state(q, body, delay, now);
    if delay == 0 {
        let t = q1.msgs;
        assert(t == q.msgs.push(m));
        assert forall|i: int, j: int|
            0 <= i < t.len() && 0 <= j < t.len() && i != j implies #[trigger] t[i].id
            != #[trigger] t[j].id by {
            if i < q.msgs.len() && j < q.msgs.len() {
                assert(t[i] == q.msgs[i] && t[j] == q.msgs[j]);
            } else if i < q.msgs.len() {
                assert(t[i] == q.msgs[i]);
            } else {
                assert(t[j] == q.msgs[j]);
            }
        }
        assert forall|i: int, j: int| 0 <= i < t.len() && 0 <= j < q.dlq_msgs.len() implies #[trigger] t[i].id
            != #[trigger] q.dlq_msgs[j].id by {
            if i < q.msgs.len() {
                assert(t[i] == q.msgs[i]);
            }
        }
        assert forall|i: int, j: int| 0 <= i < t.len() && 0 <= j < q.delayed_msgs.len() implies #[trigger] t[i].id
            != #[trigger] q.delayed_msgs[j].1.id by {
            if i < q.msgs.len() {
                assert(t[i] == q.msgs[i]);
            }
        }
        assert forall|i: int| 0 <= i < t.len() implies #[trigger] t[i].id <= id by {
            if i < q.msgs.len() {
                assert(t[i] == q.msgs[i]);
            }
        }
    } else {
        let d0 = q.delayed_msgs;
        let e = (sat_add(now, delay), m);
        assert(!has_entry_id(d0, id)) by {
            if has_entry_id(d0, id) {
                let i = choose|i: int| 0 <= i < d0.len() && #[trigger] d0[i].1.id == id;
                assert(d0[i].1.id <= q.id_sequence);
            }
        }
        assert(without_id(d0, id) == d0);
        let r = rank(d0, e);
        d0.lemma_filter_len(|x: (u64, ValqMsg)| entry_before(x, e));
        let d = q1.delayed_msgs;
        assert(d == d0.insert(r, e));
        assert forall|i: int| 0 <= i < d.len() implies (#[trigger] d[i]).1.id == id || exists|j: int|
            0 <= j < d0.len() && d[i] == #[trigger] d0[j] by {
            if i < r {
                assert(d[i] == d0[i]);
            } else if i > r {
                assert(d[i] == d0[i - 1]);
            }
        }
        assert forall|i: int, j: int|
            0 <= i < d.len() && 0 <= j < d.len() && i != j implies #[trigger] d[i].1.id
            != #[trigger] d[j].1.id by {
            let oi = if i < r { i } else { i - 1 };
            let oj = if j < r { j } else { j - 1 };
            assert(d[r] == e);
            if i != r && j != r {
                assert(d[i] == d0[oi] && d[j] == d0[oj]);
                assert(d0[oi].1.id != d0[oj].1.id);
            } else if i != r {
                assert(d[i] == d0[oi]);
                assert(d0[oi].1.id <= q.id_sequence);
            } else {
                assert(d[j] == d0[oj]);
                assert(d0[oj].1.id <= q.id_sequence);
            }
        }
        assert forall|i: int, j: int| 0 <= i < q.msgs.len() && 0 <= j < d.len() implies #[trigger] q.msgs[i].id
            != #[trigger] d[j].1.id by {
            assert(d[r] == e);
            assert(q.msgs[i].id <= q.id_sequence);
            if j < r {
                assert(d[j] == d0[j]);
                assert(q.msgs[i].id != d0[j].1.id);
            } else if j > r {
                assert(d[j] == d0[j - 1]);
                assert(q.msgs[i].id != d0[j - 1].1.id);
            }
        }
        assert forall|i: int, j: int| 0 <= i < q.dlq_msgs.len() && 0 <= j < d.len() implies #[trigger] q.dlq_msgs[i].id
            != #[trigger] d[j].1.id by {
            assert(d[r] == e);
            assert(q.dlq_msgs[i].id <= q.id_sequence);
            if j < r {
                assert(d[j] == d0[j]);
                assert(q.dlq_msgs[i].id != d0[j].1.id);
            } else if j > r {
                assert(d[j] == d0[j - 1]);
                assert(q.dlq_msgs[i].id != d0[j - 1].1.id);
            }
        }
        assert forall|i: int| 0 <= i < d.len() implies #[trigger] d[i].1.id <= id by {
            if i < r {
                assert(d[i] == d0[i]);
            } else if i > r {
                assert(d[i] == d0[i - 1]);
            }
        }
    }
}

/// Taking a message out of the ready sequence keeps the queue consistent.
pub proof fn lemma_ids_consistent_ack(q: QueueState, id: u64)
    requires
        ids_consistent(q),
        has_msg_id(q.msgs, id),
    ensures
        ids_consistent(ack_state(q, id)),
{
    lemma_first_id(q.msgs, id);
    let k = first_id_index(q.msgs, id);
    let s = q.msgs;
    let t = ack_state(q, id).msgs;
    assert(t == s.remove(k));
    assert forall|i: int| 0 <= i < t.len() implies #[trigger] t[i] == s[if i < k { i } else { i + 1 }] by {
    }
    assert forall|i: int, j: int|
        0 <= i < t.len() && 0 <= j < t.len() && i != j implies #[trigger] t[i].id
        != #[trigger] t[j].id by {
        let oi = if i < k { i } else { i + 1 };
        let oj = if j < k { j } else { j + 1 };
        assert(t[i] == s[oi] && t[j] == s[oj]);
    }
    assert forall|i: int, j: int| 0 <= i < t.len() && 0 <= j < q.dlq_msgs.len() implies #[trigger] t[i].id
        != #[trigger] q.dlq_msgs[j].id by {
        assert(t[i] == s[if i < k { i } else { i + 1 }]);
    }
    assert forall|i: int, j: int| 0 <= i < t.len() && 0 <= j < q.delayed_msgs.len() implies #[trigger] t[i].id
        != #[trigger] q.delayed_msgs[j].1.id by {
        assert(t[i] == s[if i < k { i } else { i + 1 }]);
    }
    assert forall|i: int| 0 <= i < t.len() implies #[trigger] t[i].id <= q.id_sequence by {
        assert(t[i] == s[if i < k { i } else { i + 1 }]);
    }
}

/// Changing a message's timeout keeps the queue consistent.
pub proof fn lemma_ids_consistent_extend(q: QueueState, id: u64, extend_seconds: u64, now: u64)
    requires
        ids_consistent(q),
        has_msg_id(q.msgs, id),
    ensures
        ids_consistent(extend_state(q, id, extend_seconds, now)),
{
    lemma_first_id(q.msgs, id);
    let k = first_id_index(q.msgs, id);
    let t = extend_state(q, id, extend_seconds, now).msgs;
    assert forall|i: int| 0 <= i < t.len() implies (#[trigger] t[i]).id == q.msgs[i].id by {
    }
}

/// Purging keeps the queue consistent.
pub proof fn lemma_ids_consistent_purge(q: QueueState, t: QType)
    requires
        ids_consistent(q),
    ensures
        ids_consistent(purge_state(q, t)),
{
}

proof fn lemma_filter_from(s: Seq<ValqMsg>, p: spec_fn(ValqMsg) -> bool)
    ensures
        s.filter(p) == select(s, |i: int| p(s[i])),
    decreases s.len(),
{
    reveal(Seq::filter);
    if s.len() > 0 {
        let t = s.drop_last();
        lemma_filter_from(t, p);
        crate::pop::lemma_select_agree(
            t,
            t,
            |i: int| p(t[i]),
            |i: int| p(s[i]),
        );
    }
}

/// A retention sweep keeps the queue consistent.
pub proof fn lemma_ids_consistent_sweep(q: QueueState, now: u64)
    requires
        ids_consistent(q),
    ensures
        ids_consistent(QueueState { dlq_msgs: swept(q.dlq_msgs, now, q.retention_period), ..q }),
{
    let s = q.dlq_msgs;
    let keep = |i: int| !crate::retention::evictable(s[i], now, q.retention_period);
    let p = |m: ValqMsg| !crate::retention::evictable(m, now, q.retention_period);
    lemma_filter_from(s, p);
    crate::pop::lemma_select_agree(s, s, |i: int| p(s[i]), keep);
    let t = swept(s, now, q.retention_period);
    assert(t == select(s, keep));
    lemma_select_distinct(s, keep);
    lemma_select_from(s, keep);
    assert forall|i: int, j: int| 0 <= i < q.msgs.len() && 0 <= j < t.len() implies #[trigger] q.msgs[i].id
        != #[trigger] t[j].id by {
        assert(kept_in(s, keep, t[j]));
    }
    assert forall|i: int, j: int| 0 <= i < t.len() && 0 <= j < q.delayed_msgs.len() implies #[trigger] t[i].id
        != #[trigger] q.delayed_msgs[j].1.id by {
        assert(kept_in(s, keep, t[i]));
    }
    assert forall|i: int| 0 <= i < t.len() implies #[trigger] t[i].id <= q.id_sequence by {
        assert(kept_in(s, keep, t[i]));
    }
}

proof fn lemma_ids_consistent_promote(q: QueueState, now: u64)
    requires
        ids_consistent(q),
    ensures
        ids_consistent(promote(q, now)),
{
    let d = q.delayed_msgs;
    let c = due_count(d, now);
    d.lemma_filter_len(|x: (u64, ValqMsg)| x.0 <= now);
    let pf = promoted_front(d.take(c));
    lemma_promoted_front_index(d.take(c));
    let ms = q.msgs;
    let p = promote(q, now);
    let t = p.msgs;
    let rest = p.delayed_msgs;
    assert(t == pf + ms);
    assert(rest == d.skip(c));
    assert forall|x: int| 0 <= x < t.len() implies (x < c ==> #[trigger] t[x] == d[c - 1 - x].1) && (
    x >= c ==> t[x] == ms[x - c]) by {
        if x < c {
            assert(t[x] == pf[x]);
            assert(d.take(c)[c - 1 - x] == d[c - 1 - x]);
        }
    }
    assert forall|y: int| 0 <= y < rest.len() implies #[trigger] rest[y] == d[c + y] by {
    }
    assert forall|i: int, j: int|
        0 <= i < t.len() && 0 <= j < t.len() && i != j implies #[trigger] t[i].id
        != #[trigger] t[j].id by {
        if i < c && j < c {
            assert(d[c - 1 - i].1.id != d[c - 1 - j].1.id);
        } else if i < c {
            assert(ms[j - c].id != d[c - 1 - i].1.id);
        } else if j < c {
            assert(ms[i - c].id != d[c - 1 - j].1.id);
        } else {
            assert(ms[i - c].id != ms[j - c].id);
        }
    }
    assert forall|i: int, j: int| 0 <= i < t.len() && 0 <= j < q.dlq_msgs.len() implies #[trigger] t[i].id
        != #[trigger] q.dlq_msgs[j].id by {
        if i < c {
            assert(q.dlq_msgs[j].id != d[c - 1 - i].1.id);
        } else {
            assert(ms[i - c].id != q.dlq_msgs[j].id);
        }
    }
    assert forall|i: int, j: int| 0 <= i < t.len() && 0 <= j < rest.len() implies #[trigger] t[i].id
        != #[trigger] rest[j].1.id by {
        assert(rest[j] == d[c + j]);
        if i < c {
            assert(d[c - 1 - i].1.id != d[c + j].1.id);
        } else {
            assert(ms[i - c].id != d[c + j].1.id);
        }
    }
    assert forall|i: int, j: int|
        0 <= i < rest.len() && 0 <= j < rest.len() && i != j implies #[trigger] rest[i].1.id
        != #[trigger] rest[j].1.id by {
        assert(rest[i] == d[c + i] && rest[j] == d[c + j]);
    }
    assert forall|i: int, j: int| 0 <= i < q.dlq_msgs.len() && 0 <= j < rest.len() implies #[trigger] q.dlq_msgs[i].id
        != #[trigger] rest[j].1.id by {
        assert(rest[j] == d[c + j]);
    }
    assert forall|i: int| 0 <= i < t.len() implies #[trigger] t[i].id <= q.id_sequence by {
        if i < c {
            assert(d[c - 1 - i].1.id <= q.id_sequence);
        } else {
            assert(ms[i - c].id <= q.id_sequence);
        }
    }
    assert forall|i: int| 0 <= i < rest.len() implies #[trigger] rest[i].1.id <= q.id_sequence by {
        assert(rest[i] == d[c + i]);
    }
}

proof fn lemma_ids_consistent_scan(q: QueueState, now: u64)
    requires
        ids_consistent(q),
    ensures
        ids_consistent(scan_outcome(q, now).0),
{
    let s = q.msgs;
    let max = q.max_delivery_attempts;
    lemma_first_deliverable(s, now, max);
    let s2 = scanned_msgs(s, now, q);
    assert(s2.len() == s.len());
    assert forall|i: int| 0 <= i < s2.len() implies (#[trigger] s2[i]).id == s[i].id by {
    }
    let keep = |i: int| !dies(s, now, max, i);
    let dead = |i: int| dies(s, now, max, i);
    let kept = select(s2, keep);
    let gone = select(s, dead);
    assert(msg_ids_distinct(s2)) by {
        assert forall|i: int, j: int|
            0 <= i < s2.len() && 0 <= j < s2.len() && i != j implies #[trigger] s2[i].id
            != #[trigger] s2[j].id by {
            assert(s[i].id != s[j].id);
        }
    }
    lemma_select_distinct(s2, keep);
    lemma_select_distinct(s, dead);
    lemma_select_from(s2, keep);
    lemma_select_from(s, dead);
    let out = scan_outcome(q, now).0;
    assert(out.msgs == kept);
    assert(out.dlq_msgs == q.dlq_msgs + gone);
    let dl = out.dlq_msgs;
    let n = q.dlq_msgs.len();
    assert forall|y: int| 0 <= y < dl.len() implies (y < n ==> #[trigger] dl[y] == q.dlq_msgs[y]) && (y
        >= n ==> dl[y] == gone[y - n]) by {
    }
    assert forall|i: int, j: int|
        0 <= i < dl.len() && 0 <= j < dl.len() && i != j implies #[trigger] dl[i].id
        != #[trigger] dl[j].id by {
        if i < n && j < n {
            assert(q.dlq_msgs[i].id != q.dlq_msgs[j].id);
        } else if i < n {
            assert(kept_in(s, dead, gone[j - n]));
        } else if j < n {
            assert(kept_in(s, dead, gone[i - n]));
        } else {
            assert(gone[i - n].id != gone[j - n].id);
        }
    }
    assert forall|i: int, j: int| 0 <= i < kept.len() && 0 <= j < dl.len() implies #[trigger] kept[i].id
        != #[trigger] dl[j].id by {
        assert(kept_in(s2, keep, kept[i]));
        let a = choose|a: int| 0 <= a < s2.len() && keep(a) && kept[i] == #[trigger] s2[a];
        if j < n {
            assert(s[a].id != q.dlq_msgs[j].id);
        } else {
            assert(kept_in(s, dead, gone[j - n]));
            let b = choose|b: int| 0 <= b < s.len() && dead(b) && gone[j - n] == #[trigger] s[b];
            assert(a != b);
            assert(s[a].id != s[b].id);
        }
    }
    assert forall|i: int, j: int| 0 <= i < kept.len() && 0 <= j < q.delayed_msgs.len() implies #[trigger] kept[i].id
        != #[trigger] q.delayed_msgs[j].1.id by {
        assert(kept_in(s2, keep, kept[i]));
        let a = choose|a: int| 0 <= a < s2.len() && keep(a) && kept[i] == #[trigger] s2[a];
        assert(s[a].id != q.delayed_msgs[j].1.id);
    }
    assert forall|i: int, j: int| 0 <= i < dl.len() && 0 <= j < q.delayed_msgs.len() implies #[trigger] dl[i].id
        != #[trigger] q.delayed_msgs[j].1.id by {
        if i >= n {
            assert(kept_in(s, dead, gone[i - n]));
        }
    }
    assert forall|i: int| 0 <= i < kept.len() implies #[trigger] kept[i].id <= q.id_sequence by {
        assert(kept_in(s2, keep, kept[i]));
        let a = choose|a: int| 0 <= a < s2.len() && keep(a) && kept[i] == #[trigger] s2[a];
        assert(s[a].id <= q.id_sequence);
    }
    assert forall|i: int| 0 <= i < dl.len() implies #[trigger] dl[i].id <= q.id_sequence by {
        if i >= n {
            assert(kept_in(s, dead, gone[i - n]));
        }
    }
}

/// A pop keeps the queue consistent.
pub proof fn lemma_ids_consistent_pop(q: QueueState, now: u64)
    requires
        ids_consistent(q),
    ensures
        ids_consistent(pop_outcome(q, now).0),
{
    lemma_ids_consistent_promote(q, now);
    lemma_ids_consistent_scan(promote(q, now), now);
}

/// Some collection of the queue holds a message with this id.
pub open spec fn id_present(q: QueueState, x: u64) -> bool {
    has_msg_id(q.msgs, x) || has_msg_id(q.dlq_msgs, x) || has_entry_id(q.delayed_msgs, x)
}

/// A pop only moves messages: every id it leaves was there before.
pub proof fn lemma_pop_adds_no_id(q: QueueState, now: u64, x: u64)
    requires
        id_present(pop_outcome(q, now).0, x),
    ensures
        id_present(q, x),
{
    let d = q.delayed_msgs;
    let c = due_count(d, now);
    d.lemma_filter_len(|y: (u64, ValqMsg)| y.0 <= now);
    lemma_promoted_front_index(d.take(c));
    let p = promote(q, now);
    let s = p.msgs;
    let max = p.max_delivery_attempts;
    lemma_first_deliverable(s, now, max);
    let s2 = scanned_msgs(s, now, p);
    let keep = |i: int| !dies(s, now, max, i);
    let dead = |i: int| dies(s, now, max, i);
    lemma_select_from(s2, keep);
    lemma_select_from(s, dead);
    let out = pop_outcome(q, now).0;
    assert(out.msgs == select(s2, keep));
    assert(out.dlq_msgs == q.dlq_msgs + select(s, dead));
    assert(out.delayed_msgs == d.skip(c));
    // A message of the promoted ready sequence was delayed or ready before.
    assert forall|i: int| 0 <= i < s.len() implies has_msg_id(q.msgs, (#[trigger] s[i]).id)
        || has_entry_id(d, s[i].id) by {
        if i < c {
            assert(s[i] == promoted_front(d.take(c))[i]);
            assert(d.take(c)[c - 1 - i] == d[c - 1 - i]);
            assert(d[c - 1 - i].1.id == s[i].id);
        } else {
            assert(s[i] == q.msgs[i - c]);
        }
    }
    if has_msg_id(out.msgs, x) {
        let j = choose|j: int| 0 <= j < out.msgs.len() && #[trigger] out.msgs[j].id == x;
        assert(kept_in(s2, keep, out.msgs[j]));
        let a = choose|a: int| 0 <= a < s2.len() && keep(a) && out.msgs[j] == #[trigger] s2[a];
        assert(s2[a].id == s[a].id);
        assert(has_msg_id(q.msgs, s[a].id) || has_entry_id(d, s[a].id));
    } else if has_msg_id(out.dlq_msgs, x) {
        let j = choose|j: int| 0 <= j < out.dlq_msgs.len() && #[trigger] out.dlq_msgs[j].id == x;
        let n = q.dlq_msgs.len() as int;
        if j < n {
            assert(out.dlq_msgs[j] == q.dlq_msgs[j]);
        } else {
            let g = select(s, dead);
            assert(out.dlq_msgs[j] == g[j - n]);
            assert(kept_in(s, dead, g[j - n]));
            let a = choose|a: int| 0 <= a < s.len() && dead(a) && g[j - n] == #[trigger] s[a];
            assert(has_msg_id(q.msgs, s[a].id) || has_entry_id(d, s[a].id));
        }
    } else {
        let j = choose|j: int|
            0 <= j < out.delayed_msgs.len() && #[trigger] out.delayed_msgs[j].1.id == x;
        assert(out.delayed_msgs[j] == d[c + j]);
    }
}

} // verus!
