use vstd::prelude::*;

use std::collections::VecDeque;

use crate::clock::now_as_seconds;
use crate::identity::{ids_consistent, lemma_ids_consistent_pop};
use crate::delayed_msgs::{due_count, entry_ids_distinct, has_entry_id, without_id};
use crate::valq_msg::ValqMsg;
use crate::valq_type::{QueueState, ValqType, sat_add};

verus! {

/// Visible at `now` and still under the attempt limit.
pub open spec fn deliverable(m: ValqMsg, now: u64, max: u64) -> bool {
    m.visible_at(now) && m.within_limit(max)
}

/// Visible at `now` but out of delivery attempts.
pub open spec fn exhausted(m: ValqMsg, now: u64, max: u64) -> bool {
    m.visible_at(now) && !m.within_limit(max)
}

/// The messages of delayed entries after each was pushed, in turn, to the
/// front of a sequence: the last entry ends up first.
pub open spec fn promoted_front(s: Seq<(u64, ValqMsg)>) -> Seq<ValqMsg>
    decreases s.len(),
{
    if s.len() == 0 {
        Seq::empty()
    } else {
        seq![s.last().1] + promoted_front(s.drop_last())
    }
}

/// The state after the due delayed messages were moved to the front of the
/// ready sequence.
pub open spec fn promote(q: QueueState, now: u64) -> QueueState {
    let c = due_count(q.delayed_msgs, now);
    QueueState {
        msgs: promoted_front(q.delayed_msgs.take(c)) + q.msgs,
        delayed_msgs: q.delayed_msgs.skip(c),
        ..q
    }
}

/// `k` is the position of the first deliverable message, or the length
/// when there is none.
pub open spec fn is_first_deliverable(s: Seq<ValqMsg>, now: u64, max: u64, k: int) -> bool {
    &&& 0 <= k <= s.len()
    &&& forall|j: int| 0 <= j < k ==> !deliverable(#[trigger] s[j], now, max)
    &&& k < s.len() ==> deliverable(s[k], now, max)
}

pub open spec fn first_deliverable(s: Seq<ValqMsg>, now: u64, max: u64) -> int {
    choose|k: int| is_first_deliverable(s, now, max, k)
}

/// The messages of `s` at the positions where `keep` holds, in order.
pub open spec fn select(s: Seq<ValqMsg>, keep: spec_fn(int) -> bool) -> Seq<ValqMsg>
    decreases s.len(),
{
    if s.len() == 0 {
        s
    } else {
        let rest = select(s.drop_last(), keep);
        if keep(s.len() - 1) {
            rest.push(s.last())
        } else {
            rest
        }
    }
}

/// A message as it is handed out by a delivery at `now`.
pub open spec fn delivered(m: ValqMsg, now: u64, visibility_timeout: u64) -> ValqMsg {
    ValqMsg {
        timeout_at: Some(sat_add(now, visibility_timeout)),
        delivery_attempts: (m.delivery_attempts + 1) as u64,
        ..m
    }
}

/// The ready sequence after the delivery scan: the first deliverable
/// message (if any) updated in place.
pub open spec fn scanned_msgs(s: Seq<ValqMsg>, now: u64, q: QueueState) -> Seq<ValqMsg> {
    let k = first_deliverable(s, now, q.max_delivery_attempts);
    if k < s.len() {
        s.update(k, delivered(s[k], now, q.visibility_timeout))
    } else {
        s
    }
}

/// Position `i` is dead-lettered by a scan: exhausted, and before the
/// delivered message.
pub open spec fn dies(s: Seq<ValqMsg>, now: u64, max: u64, i: int) -> bool {
    i < first_deliverable(s, now, max) && exhausted(s[i], now, max)
}

/// The delivery scan and the dead-letter migration on a promoted state.
pub open spec fn scan_outcome(q: QueueState, now: u64) -> (QueueState, Option<ValqMsg>) {
    let s = q.msgs;
    let max = q.max_delivery_attempts;
    let k = first_deliverable(s, now, max);
    (
        QueueState {
            msgs: select(scanned_msgs(s, now, q), |i: int| !dies(s, now, max, i)),
            dlq_msgs: q.dlq_msgs + select(s, |i: int| dies(s, now, max, i)),
            ..q
        },
        if k < s.len() {
            Some(delivered(s[k], now, q.visibility_timeout))
        } else {
            None
        },
    )
}

/// What a pop at `now` does to a queue, and what it returns.
pub open spec fn pop_outcome(q: QueueState, now: u64) -> (QueueState, Option<ValqMsg>) {
    scan_outcome(promote(q, now), now)
}

/// Some record of `r` names position `i`.
pub open spec fn recorded_at(r: Seq<(usize, ValqMsg)>, i: int) -> bool {
    exists|p: int| 0 <= p < r.len() && #[trigger] r[p].0 == i
}

/// Record positions strictly ascending and below `n`.
pub open spec fn records_ascending(r: Seq<(usize, ValqMsg)>, n: int) -> bool {
    &&& forall|p: int| 0 <= p < r.len() ==> #[trigger] r[p].0 < n
    &&& forall|p: int, q: int| 0 <= p < q < r.len() ==> #[trigger] r[p].0 < #[trigger] r[q].0
}

/// The promoted messages, position by position: the last entry first.
pub proof fn lemma_promoted_front_index(x: Seq<(u64, ValqMsg)>)
    ensures
        promoted_front(x).len() == x.len(),
        forall|j: int| 0 <= j < x.len() ==> #[trigger] promoted_front(x)[j] == x[x.len() - 1 - j].1,
    decreases x.len(),
{
    if x.len() > 0 {
        let y = x.drop_last();
        lemma_promoted_front_index(y);
        assert forall|j: int| 0 <= j < x.len() implies #[trigger] promoted_front(x)[j] == x[x.len()
            - 1 - j].1 by {
            if j > 0 {
                assert(promoted_front(x)[j] == promoted_front(y)[j - 1]);
                assert(y[y.len() - 1 - (j - 1)] == x[x.len() - 1 - j]);
            }
        }
    }
}

/// Scanning from `i` on finds the first deliverable position.
proof fn lemma_first_deliverable_from(s: Seq<ValqMsg>, now: u64, max: u64, i: int)
    requires
        0 <= i <= s.len(),
        forall|j: int| 0 <= j < i ==> !deliverable(#[trigger] s[j], now, max),
    ensures
        is_first_deliverable(s, now, max, first_deliverable(s, now, max)),
    decreases s.len() - i,
{
    if i == s.len() {
        assert(is_first_deliverable(s, now, max, i));
    } else if deliverable(s[i], now, max) {
        assert(is_first_deliverable(s, now, max, i));
    } else {
        lemma_first_deliverable_from(s, now, max, i + 1);
    }
}

/// The first deliverable position is well defined.
pub proof fn lemma_first_deliverable(s: Seq<ValqMsg>, now: u64, max: u64)
    ensures
        is_first_deliverable(s, now, max, first_deliverable(s, now, max)),
{
    lemma_first_deliverable_from(s, now, max, 0);
}

/// Selection depends only on the kept positions and their messages.
pub proof fn lemma_select_agree(
    s1: Seq<ValqMsg>,
    s2: Seq<ValqMsg>,
    k1: spec_fn(int) -> bool,
    k2: spec_fn(int) -> bool,
)
    requires
        s1.len() == s2.len(),
        forall|i: int| 0 <= i < s1.len() ==> #[trigger] k1(i) == k2(i),
        forall|i: int| 0 <= i < s1.len() && k1(i) ==> #[trigger] s1[i] == s2[i],
    ensures
        select(s1, k1) == select(s2, k2),
    decreases s1.len(),
{
    if s1.len() > 0 {
        lemma_select_agree(s1.drop_last(), s2.drop_last(), k1, k2);
    }
}

/// Selecting every position keeps the whole sequence.
pub proof fn lemma_select_all(s: Seq<ValqMsg>, keep: spec_fn(int) -> bool)
    requires
        forall|i: int| 0 <= i < s.len() ==> #[trigger] keep(i),
    ensures
        select(s, keep) == s,
    decreases s.len(),
{
    if s.len() > 0 {
        lemma_select_all(s.drop_last(), keep);
        assert(s.drop_last().push(s.last()) =~= s);
    }
}

/// Selecting no position keeps nothing.
pub proof fn lemma_select_none(s: Seq<ValqMsg>, keep: spec_fn(int) -> bool)
    requires
        forall|i: int| 0 <= i < s.len() ==> !#[trigger] keep(i),
    ensures
        select(s, keep) == Seq::<ValqMsg>::empty(),
    decreases s.len(),
{
    if s.len() > 0 {
        lemma_select_none(s.drop_last(), keep);
    }
}

/// Moves every delayed message that is due at `now` to the front of the
/// ready sequence, one by one in index order.
pub fn move_delayed_msgs_to_main_q(valq: &mut ValqType, now: u64)
    requires
        old(valq).wf(),
    ensures
        final(valq).wf(),
        final(valq)@ == promote(old(valq)@, now),
{
    let ready = valq.delayed_msgs().ready_at(now);
    let ghost d = old(valq)@.delayed_msgs;
    let ghost c = due_count(d, now);
    let ghost m0 = old(valq)@.msgs;
    assert(ready@.len() == c) by {
        d.lemma_filter_len(|x: (u64, ValqMsg)| x.0 <= now);
    }
    proof {
        assert(d.take(0) =~= Seq::<(u64, ValqMsg)>::empty());
        assert(promoted_front(d.take(0)) + m0 =~= m0);
        assert(d.skip(0) =~= d);
        assert(valq@ =~= (QueueState {
            msgs: promoted_front(d.take(0)) + m0,
            delayed_msgs: d.skip(0),
            ..old(valq)@
        }));
    }
    let mut i: usize = 0;
    while i < ready.len()
        invariant
            0 <= c <= d.len(),
            ready@ == d.take(c),
            i <= ready@.len(),
            valq.wf(),
            entry_ids_distinct(d),
            valq@ == (QueueState {
                msgs: promoted_front(d.take(i as int)) + m0,
                delayed_msgs: d.skip(i as int),
                ..old(valq)@
            }),
        decreases ready@.len() - i,
    {
        let ghost before = valq@;
        let m = &ready[i].1;
        valq.delayed_msgs_mut().remove(m);
        proof {
            let t = d.skip(i as int);
            assert(t[0] == d[i as int]);
            assert(has_entry_id(t, m.id));
            let w = choose|w: int| 0 <= w < t.len() && #[trigger] t[w].1.id == m.id;
            if w != 0 {
                assert(t[w] == d[i + w]);
                assert(d[i + w].1.id != d[i as int].1.id);
            }
            assert(without_id(t, m.id) =~= d.skip(i + 1));
        }
        valq.msgs_mut().push_front(m.clone());
        proof {
            let tk = d.take(i + 1);
            assert(tk.drop_last() =~= d.take(i as int));
            assert(tk.last() == d[i as int]);
            assert(seq![d[i as int].1] + (promoted_front(d.take(i as int)) + m0) =~= promoted_front(
                tk,
            ) + m0);
        }
        i = i + 1;
    }
    assert(valq@ =~= promote(old(valq)@, now));
}

/// The delivery scan: walks the ready sequence in order; the first visible
/// message under the attempt limit is delivered in place (new timeout, one
/// more attempt) and returned, and the scan stops there. Visible messages out
/// of attempts met on the way are recorded with their positions.
pub fn process_main_q(valq: &mut ValqType, now: u64) -> (r: (Option<ValqMsg>, Vec<(usize, ValqMsg)>))
    requires
        old(valq).wf(),
    ensures
        final(valq).wf(),
        final(valq)@ == (QueueState {
            msgs: scanned_msgs(old(valq)@.msgs, now, old(valq)@),
            ..old(valq)@
        }),
        r.0 == scan_outcome(old(valq)@, now).1,
        records_ascending(r.1@, old(valq)@.msgs.len() as int),
        forall|p: int| 0 <= p < r.1@.len() ==> #[trigger] r.1@[p].1 == old(valq)@.msgs[r.1@[p].0 as int],
        forall|i: int|
            0 <= i < old(valq)@.msgs.len() ==> (recorded_at(r.1@, i) <==> dies(
                old(valq)@.msgs,
                now,
                old(valq)@.max_delivery_attempts,
                i,
            )),
{
    let visibility_timeout = *valq.visibility_timeout();
    let max_delivery_attempts = *valq.max_delivery_attempts();
    let ghost s = old(valq)@.msgs;
    let mut recorded: Vec<(usize, ValqMsg)> = Vec::new();
    let mut i: usize = 0;
    while i < valq.msgs().len()
        invariant
            valq@ == old(valq)@,
            valq.wf(),
            s == valq@.msgs,
            visibility_timeout == valq@.visibility_timeout,
            max_delivery_attempts == valq@.max_delivery_attempts,
            i <= s.len(),
            forall|j: int| 0 <= j < i ==> !deliverable(#[trigger] s[j], now, max_delivery_attempts),
            records_ascending(recorded@, i as int),
            forall|p: int| 0 <= p < recorded@.len() ==> #[trigger] recorded@[p].1 == s[recorded@[p].0 as int],
            forall|j: int|
                0 <= j < s.len() ==> (recorded_at(recorded@, j) <==> (j < i && exhausted(
                    #[trigger] s[j],
                    now,
                    max_delivery_attempts,
                ))),
        decreases s.len() - i,
    {
        let visible = valq.msgs()[i].is_visible_at(now);
        if visible {
            if !valq.msgs()[i].check_max_delivery_attempts(max_delivery_attempts) {
                let ghost before = recorded@;
                let m = valq.msgs()[i].clone();
                recorded.push((i, m));
                proof {
                    let r = recorded@;
                    assert(r[before.len() as int].0 == i);
                    assert(r[before.len() as int].1 == s[i as int]);
                    assert forall|p: int| 0 <= p < r.len() implies #[trigger] r[p].1 == s[r[p].0 as int] by {
                        if p < before.len() {
                            assert(r[p] == before[p]);
                        }
                    }
                    assert forall|j: int| 0 <= j < s.len() implies (recorded_at(r, j) <==> (j < i + 1
                        && exhausted(#[trigger] s[j], now, max_delivery_attempts))) by {
                        if recorded_at(r, j) {
                            let p = choose|p: int| 0 <= p < r.len() && #[trigger] r[p].0 == j;
                            if p < before.len() {
                                assert(before[p].0 == j);
                                assert(recorded_at(before, j));
                            }
                        }
                        if j < i + 1 && exhausted(s[j], now, max_delivery_attempts) {
                            if j < i {
                                assert(recorded_at(before, j));
                                let p = choose|p: int|
                                    0 <= p < before.len() && #[trigger] before[p].0 == j;
                                assert(r[p] == before[p]);
                            } else {
                                assert(r[before.len() as int].0 == j);
                            }
                        }
                    }
                    assert forall|p: int, q: int| 0 <= p < q < r.len() implies #[trigger] r[p].0
                        < #[trigger] r[q].0 by {
                        if q < before.len() {
                            assert(r[p] == before[p] && r[q] == before[q]);
                        } else {
                            assert(r[p] == before[p]);
                        }
                    }
                    assert forall|p: int| 0 <= p < r.len() implies #[trigger] r[p].0 < i + 1 by {
                        if p < before.len() {
                            assert(r[p] == before[p]);
                        }
                    }
                }
            } else {
                let mut m = match valq.msgs_mut().remove(i) {
                    Some(m) => m,
                    None => {
                        return (None, recorded);
                    },
                };
                let attempts = m.delivery_attempts + 1;
                m.set_timeout_at(Some(now.saturating_add(visibility_timeout)));
                m.set_delivery_attempts(attempts);
                let out = m.clone();
                valq.msgs_mut().insert(i, m);
                proof {
                    assert(is_first_deliverable(s, now, max_delivery_attempts, i as int));
                    let k = first_deliverable(s, now, max_delivery_attempts);
                    assert(is_first_deliverable(s, now, max_delivery_attempts, k));
                    if k < i {
                        assert(!deliverable(s[k], now, max_delivery_attempts));
                    } else if k > i {
                        assert(!deliverable(s[i as int], now, max_delivery_attempts));
                    }
                    assert(valq@.msgs =~= scanned_msgs(s, now, old(valq)@));
                    assert(valq@ =~= (QueueState {
                        msgs: scanned_msgs(old(valq)@.msgs, now, old(valq)@),
                        ..old(valq)@
                    }));
                    assert forall|j: int| 0 <= j < s.len() implies (recorded_at(recorded@, j)
                        <==> dies(s, now, max_delivery_attempts, j)) by {
                        if recorded_at(recorded@, j) {
                            assert(j < i && exhausted(s[j], now, max_delivery_attempts));
                        }
                    }
                }
                return (Some(out), recorded);
            }
        }
        i = i + 1;
    }
    proof {
        assert(is_first_deliverable(s, now, max_delivery_attempts, s.len() as int));
        let k = first_deliverable(s, now, max_delivery_attempts);
        assert(is_first_deliverable(s, now, max_delivery_attempts, k));
        if k < s.len() {
            assert(!deliverable(s[k], now, max_delivery_attempts));
        }
        assert(valq@ =~= (QueueState {
            msgs: scanned_msgs(old(valq)@.msgs, now, old(valq)@),
            ..old(valq)@
        }));
    }
    (None, recorded)
}

/// Moves the ready messages at the recorded positions to the tail of the
/// dead-letter sequence, keeping their order; the others stay in order.
pub fn move_max_delivery_msgs_to_dlq(valq: &mut ValqType, max_delivery_attempts_msgs: &Vec<(usize, ValqMsg)>)
    requires
        old(valq).wf(),
        records_ascending(max_delivery_attempts_msgs@, old(valq)@.msgs.len() as int),
    ensures
        final(valq).wf(),
        final(valq)@ == (QueueState {
            msgs: select(
                old(valq)@.msgs,
                |i: int| !recorded_at(max_delivery_attempts_msgs@, i),
            ),
            dlq_msgs: old(valq)@.dlq_msgs + select(
                old(valq)@.msgs,
                |i: int| recorded_at(max_delivery_attempts_msgs@, i),
            ),
            ..old(valq)@
        }),
{
    let ghost s = old(valq)@.msgs;
    let ghost d = old(valq)@.dlq_msgs;
    let ghost rec = max_delivery_attempts_msgs@;
    let ghost keep = |i: int| !recorded_at(rec, i);
    let ghost dead = |i: int| recorded_at(rec, i);
    let n = valq.msgs().len();
    let mut kept: VecDeque<ValqMsg> = VecDeque::new();
    let mut p: usize = 0;
    let mut j: usize = 0;
    proof {
        assert(s.take(0) =~= Seq::<ValqMsg>::empty());
        assert(d + select(s.take(0), dead) =~= d);
        assert(s.skip(0) =~= s);
    }
    while j < n
        invariant
            n == s.len(),
            j <= n,
            p <= rec.len(),
            rec == max_delivery_attempts_msgs@,
            keep == (|i: int| !recorded_at(rec, i)),
            dead == (|i: int| recorded_at(rec, i)),
            records_ascending(rec, n as int),
            forall|q: int| 0 <= q < p ==> #[trigger] rec[q].0 < j,
            forall|q: int| p <= q < rec.len() ==> #[trigger] rec[q].0 >= j,
            valq.wf(),
            valq@ == (QueueState {
                msgs: s.skip(j as int),
                dlq_msgs: d + select(s.take(j as int), dead),
                ..old(valq)@
            }),
            kept@ == select(s.take(j as int), keep),
        decreases n - j,
    {
        let ghost before_valq = valq@;
        let m = match valq.msgs_mut().pop_front() {
            Some(m) => m,
            None => {
                proof {
                    assert(false);
                }
                return;
            },
        };
        let hit = p < max_delivery_attempts_msgs.len() && max_delivery_attempts_msgs[p].0 == j;
        proof {
            assert(m == s[j as int]);
            let tk = s.take(j + 1);
            assert(tk.drop_last() =~= s.take(j as int));
            assert(tk.last() == s[j as int]);
            assert(s.skip(j as int).subrange(1, s.skip(j as int).len() as int) =~= s.skip(j + 1));
            if hit {
                assert(recorded_at(rec, j as int));
            } else {
                assert(!recorded_at(rec, j as int)) by {
                    if recorded_at(rec, j as int) {
                        let q = choose|q: int| 0 <= q < rec.len() && #[trigger] rec[q].0 == j;
                        if q > p {
                            assert(rec[p as int].0 < rec[q].0);
                        }
                    }
                }
            }
        }
        proof {
            let tk = s.take(j + 1);
            assert(dead(j as int) == hit);
            assert(keep(j as int) == !hit);
            assert(tk.len() - 1 == j);
            assert(select(tk, dead) == if dead(j as int) {
                select(tk.drop_last(), dead).push(tk.last())
            } else {
                select(tk.drop_last(), dead)
            });
            assert(select(tk, keep) == if keep(j as int) {
                select(tk.drop_last(), keep).push(tk.last())
            } else {
                select(tk.drop_last(), keep)
            });
        }
        if hit {
            valq.dlq_msgs_mut().push_back(m);
            p = p + 1;
        } else {
            kept.push_back(m);
        }
        proof {
            assert(d + select(s.take(j + 1), dead) =~= valq@.dlq_msgs);
            assert(valq@ =~= (QueueState {
                msgs: s.skip(j + 1),
                dlq_msgs: d + select(s.take(j + 1), dead),
                ..old(valq)@
            }));
        }
        j = j + 1;
        proof {
            assert forall|q: int| p <= q < rec.len() implies #[trigger] rec[q].0 >= j by {
                if q > 0 && hit {
                    assert(rec[q - 1].0 < rec[q].0);
                    assert(rec[q - 1].0 >= j - 1 || q - 1 < p - 1);
                }
                if !hit {
                    assert(rec[q].0 >= j - 1);
                    if rec[q].0 == j - 1 {
                        assert(recorded_at(rec, j - 1));
                    }
                }
            }
        }
    }
    *valq.msgs_mut() = kept;
    proof {
        assert(s.take(n as int) =~= s);
        assert(valq@ =~= (QueueState {
            msgs: select(s, keep),
            dlq_msgs: d + select(s, dead),
            ..old(valq)@
        }));
    }
}

impl ValqType {
    /// One pop at `now`: promotes the due delayed messages, delivers the
    /// first deliverable message (if any), and dead-letters the exhausted
    /// messages met before it.
    pub fn pop_at(&mut self, now: u64) -> (r: Option<ValqMsg>)
        requires
            old(self).wf(),
        ensures
            final(self).wf(),
            (final(self)@, r) == pop_outcome(old(self)@, now),
            ids_consistent(old(self)@) ==> ids_consistent(final(self)@),
    {
        proof {
            if ids_consistent(old(self)@) {
                lemma_ids_consistent_pop(old(self)@, now);
            }
        }
        move_delayed_msgs_to_main_q(self, now);
        let ghost q = self@;
        let (res, recorded) = process_main_q(self, now);
        let ghost q2 = self@;
        proof {
            lemma_first_deliverable(q.msgs, now, q.max_delivery_attempts);
        }
        move_max_delivery_msgs_to_dlq(self, &recorded);
        proof {
            let s = q.msgs;
            let max = q.max_delivery_attempts;
            let s2 = q2.msgs;
            let rec = recorded@;
            let k = first_deliverable(s, now, max);
            assert(s2 == scanned_msgs(s, now, q));
            assert forall|i: int| 0 <= i < s2.len() && dies(s, now, max, i) implies #[trigger] s2[i]
                == s[i] by {
                assert(i < k);
            }
            lemma_select_agree(
                s2,
                s2,
                |i: int| !recorded_at(rec, i),
                |i: int| !dies(s, now, max, i),
            );
            lemma_select_agree(
                s2,
                s,
                |i: int| recorded_at(rec, i),
                |i: int| dies(s, now, max, i),
            );
            assert(self@ =~= scan_outcome(q, now).0);
        }
        res
    }

    /// One pop now, by the wall clock.
    pub fn pop(&mut self) -> (r: Option<ValqMsg>)
        requires
            old(self).wf(),
        ensures
            final(self).wf(),
            exists|now: u64| (final(self)@, r) == #[trigger] pop_outcome(old(self)@, now),
            ids_consistent(old(self)@) ==> ids_consistent(final(self)@),
    {
        let now = now_as_seconds();
        self.pop_at(now)
    }
}

} // verus!
