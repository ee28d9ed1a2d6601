use vstd::prelude::*;

use std::collections::VecDeque;

use crate::identity::{ids_consistent, lemma_ids_consistent_sweep};
use crate::valq_msg::ValqMsg;
use crate::valq_type::{QueueState, ValqType};

verus! {

pub open spec fn sat_sub(a: u64, b: u64) -> u64 {
    if a < b {
        0
    } else {
        (a - b) as u64
    }
}

/// The sweep's eviction test on a dead-lettered message: its stored
/// timestamp (zero when absent) lies after `now - retention_period`.
pub open spec fn evictable(m: ValqMsg, now: u64, retention_period: u64) -> bool {
    (match m.timeout_at {
        Some(t) => t,
        None => 0,
    }) > sat_sub(now, retention_period)
}

/// The dead-letter sequence after a sweep at `now`: the messages that pass
/// the eviction test are gone, the others keep their order.
pub open spec fn swept(s: Seq<ValqMsg>, now: u64, retention_period: u64) -> Seq<ValqMsg> {
    s.filter(|m: ValqMsg| !evictable(m, now, retention_period))
}

/// One retention sweep of a queue's dead-letter sequence at `now`.
pub fn reclaim_at(valq: &mut ValqType, now: u64)
    requires
        old(valq).wf(),
    ensures
        final(valq).wf(),
        final(valq)@ == (QueueState {
            dlq_msgs: swept(old(valq)@.dlq_msgs, now, old(valq)@.retention_period),
            ..old(valq)@
        }),
        ids_consistent(old(valq)@) ==> ids_consistent(final(valq)@),
{
    proof {
        if ids_consistent(old(valq)@) {
            lemma_ids_consistent_sweep(old(valq)@, now);
        }
    }
    let retention_period = *valq.retention_period();
    let threshold = now.saturating_sub(retention_period);
    let ghost s = old(valq)@.dlq_msgs;
    let ghost keep = |m: ValqMsg| !evictable(m, now, retention_period);
    let n = valq.dlq_msgs().len();
    let mut kept: VecDeque<ValqMsg> = VecDeque::new();
    let mut j: usize = 0;
    proof {
        reveal(Seq::filter);
        assert(s.take(0) =~= Seq::<ValqMsg>::empty());
        assert(s.skip(0) =~= s);
    }
    while j < n
        invariant
            n == s.len(),
            j <= n,
            threshold == sat_sub(now, retention_period),
            retention_period == old(valq)@.retention_period,
            keep == (|m: ValqMsg| !evictable(m, now, retention_period)),
            valq.wf(),
            valq@ == (QueueState { dlq_msgs: s.skip(j as int), ..old(valq)@ }),
            kept@ == s.take(j as int).filter(keep),
        decreases n - j,
    {
        let m = match valq.dlq_msgs_mut().pop_front() {
            Some(m) => m,
            None => {
                proof {
                    assert(false);
                }
                return;
            },
        };
        let stamp = match m.timeout_at {
            Some(t) => t,
            None => 0,
        };
        proof {
            reveal(Seq::filter);
            let tk = s.take(j + 1);
            assert(m == s[j as int]);
            assert(tk.drop_last() =~= s.take(j as int));
            assert(tk.last() == s[j as int]);
            assert(s.skip(j as int).subrange(1, s.skip(j as int).len() as int) =~= s.skip(j + 1));
        }
        if stamp <= threshold {
            kept.push_back(m);
        }
        j = j + 1;
    }
    *valq.dlq_msgs_mut() = kept;
    proof {
        assert(s.take(n as int) =~= s);
        assert(valq@ =~= (QueueState {
            dlq_msgs: swept(s, now, retention_period),
            ..old(valq)@
        }));
    }
}

} // verus!
