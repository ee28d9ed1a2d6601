use vstd::prelude::*;

use std::collections::VecDeque;

use crate::delayed_msgs::{DelayedMsgs, insert_sorted, without_id};
use crate::valq_msg::ValqMsg;
use crate::valq_type::{
    QueueState, ValqType, state_wf, valid_max_delivery_attempts, valid_retention_period,
    valid_visibility_timeout,
};
use crate::{DELIVERY_ATTEMPTS_MAX, RETENTION_PERIOD_MAX, RETENTION_PERIOD_MIN, VISIBILITY_TIMEOUT_MAX};

verus! {

/// One value of a stored queue record.
#[derive(Debug, PartialEq, Eq)]
pub enum Field {
    Unsigned(u64),
    Text(String),
}

/// The kind of a stored value.
#[derive(Debug, Clone, Copy, PartialEq, Eq, Structural)]
pub enum FieldKind {
    Unsigned,
    Text,
}

/// A timeout as stored: zero stands for "none".
pub open spec fn stamp(t: Option<u64>) -> u64 {
    match t {
        Some(v) => v,
        None => 0,
    }
}

/// A stored timeout read back.
pub open spec fn unstamp(v: u64) -> Option<u64> {
    if v == 0 {
        None
    } else {
        Some(v)
    }
}

/// A message as stored: id, body, timeout (zero for none), attempts.
pub open spec fn msg_fields(m: ValqMsg) -> Seq<Field> {
    seq![
        Field::Unsigned(m.id),
        Field::Text(m.body),
        Field::Unsigned(stamp(m.timeout_at)),
        Field::Unsigned(m.delivery_attempts),
    ]
}

pub open spec fn msgs_fields(s: Seq<ValqMsg>) -> Seq<Field>
    decreases s.len(),
{
    if s.len() == 0 {
        Seq::empty()
    } else {
        msgs_fields(s.drop_last()) + msg_fields(s.last())
    }
}

/// A delayed entry as stored: its score, then its message.
pub open spec fn entry_fields(e: (u64, ValqMsg)) -> Seq<Field> {
    seq![Field::Unsigned(e.0)] + msg_fields(e.1)
}

pub open spec fn entries_fields(s: Seq<(u64, ValqMsg)>) -> Seq<Field>
    decreases s.len(),
{
    if s.len() == 0 {
        Seq::empty()
    } else {
        entries_fields(s.drop_last()) + entry_fields(s.last())
    }
}

/// A whole queue as stored: name, id counter, the three settings, then each
/// collection as a count followed by its records.
pub open spec fn queue_fields(q: QueueState) -> Seq<Field> {
    seq![
        Field::Text(q.name),
        Field::Unsigned(q.id_sequence),
        Field::Unsigned(q.visibility_timeout),
        Field::Unsigned(q.max_delivery_attempts),
        Field::Unsigned(q.retention_period),
        Field::Unsigned(q.msgs.len() as u64),
    ] + msgs_fields(q.msgs) + seq![Field::Unsigned(q.dlq_msgs.len() as u64)] + msgs_fields(
        q.dlq_msgs,
    ) + seq![Field::Unsigned(q.delayed_msgs.len() as u64)] + entries_fields(q.delayed_msgs)
}

pub open spec fn field_u64(f: Seq<Field>, i: int) -> Option<u64> {
    if 0 <= i < f.len() && f[i] is Unsigned {
        Some(f[i]->Unsigned_0)
    } else {
        None
    }
}

pub open spec fn field_text(f: Seq<Field>, i: int) -> Option<String> {
    if 0 <= i < f.len() && f[i] is Text {
        Some(f[i]->Text_0)
    } else {
        None
    }
}

/// The message stored at `pos`, if the four values there have its shape.
pub open spec fn decode_msg(f: Seq<Field>, pos: int) -> Option<ValqMsg> {
    if field_u64(f, pos) is Some && field_text(f, pos + 1) is Some && field_u64(f, pos + 2) is Some
        && field_u64(f, pos + 3) is Some {
        Some(
            ValqMsg {
                id: field_u64(f, pos)->Some_0,
                body: field_text(f, pos + 1)->Some_0,
                timeout_at: unstamp(field_u64(f, pos + 2)->Some_0),
                delivery_attempts: field_u64(f, pos + 3)->Some_0,
            },
        )
    } else {
        None
    }
}

/// `n` messages stored from `pos` on.
pub open spec fn decode_msgs(f: Seq<Field>, pos: int, n: nat) -> Option<Seq<ValqMsg>>
    decreases n,
{
    if n == 0 {
        Some(Seq::empty())
    } else {
        match decode_msgs(f, pos, (n - 1) as nat) {
            Some(ms) => match decode_msg(f, pos + 4 * (n - 1)) {
                Some(m) => Some(ms.push(m)),
                None => None,
            },
            None => None,
        }
    }
}

/// The delayed entry stored at `pos`.
pub open spec fn decode_entry(f: Seq<Field>, pos: int) -> Option<(u64, ValqMsg)> {
    if field_u64(f, pos) is Some && decode_msg(f, pos + 1) is Some {
        Some((field_u64(f, pos)->Some_0, decode_msg(f, pos + 1)->Some_0))
    } else {
        None
    }
}

/// `n` delayed entries stored from `pos` on, each put into the index in turn.
pub open spec fn decode_entries(f: Seq<Field>, pos: int, n: nat) -> Option<Seq<(u64, ValqMsg)>>
    decreases n,
{
    if n == 0 {
        Some(Seq::empty())
    } else {
        match decode_entries(f, pos, (n - 1) as nat) {
            Some(ds) => match decode_entry(f, pos + 5 * (n - 1)) {
                Some(e) => Some(insert_sorted(without_id(ds, e.1.id), e)),
                None => None,
            },
            None => None,
        }
    }
}

/// The queue that a stored record describes: `None` when the values do not
/// have the record's shape, a setting is out of bounds, or values are left over.
pub open spec fn decode_queue(f: Seq<Field>) -> Option<QueueState> {
    let n1 = field_u64(f, 5);
    if field_text(f, 0) is Some && field_u64(f, 1) is Some && field_u64(f, 2) is Some && field_u64(
        f,
        3,
    ) is Some && field_u64(f, 4) is Some && n1 is Some && valid_visibility_timeout(
        field_u64(f, 2)->Some_0,
    ) && valid_max_delivery_attempts(field_u64(f, 3)->Some_0) && valid_retention_period(
        field_u64(f, 4)->Some_0,
    ) {
        let msgs = decode_msgs(f, 6, n1->Some_0 as nat);
        let dlq_pos = 6 + 4 * n1->Some_0;
        let n2 = field_u64(f, dlq_pos);
        if msgs is Some && n2 is Some {
            let dlq = decode_msgs(f, dlq_pos + 1, n2->Some_0 as nat);
            let delayed_pos = dlq_pos + 1 + 4 * n2->Some_0;
            let n3 = field_u64(f, delayed_pos);
            if dlq is Some && n3 is Some {
                let delayed = decode_entries(f, delayed_pos + 1, n3->Some_0 as nat);
                if delayed is Some && delayed_pos + 1 + 5 * n3->Some_0 == f.len() {
                    Some(
                        QueueState {
                            name: field_text(f, 0)->Some_0,
                            id_sequence: field_u64(f, 1)->Some_0,
                            visibility_timeout: field_u64(f, 2)->Some_0,
                            max_delivery_attempts: field_u64(f, 3)->Some_0,
                            retention_period: field_u64(f, 4)->Some_0,
                            msgs: msgs->Some_0,
                            dlq_msgs: dlq->Some_0,
                            delayed_msgs: delayed->Some_0,
                        },
                    )
                } else {
                    None
                }
            } else {
                None
            }
        } else {
            None
        }
    } else {
        None
    }
}

fn read_u64(fields: &Vec<Field>, pos: usize) -> (r: Option<u64>)
    ensures
        r == field_u64(fields@, pos as int),
{
    if pos < fields.len() {
        match &fields[pos] {
            Field::Unsigned(v) => Some(*v),
            Field::Text(_) => None,
        }
    } else {
        None
    }
}

fn read_text(fields: &Vec<Field>, pos: usize) -> (r: Option<String>)
    ensures
        r == field_text(fields@, pos as int),
{
    if pos < fields.len() {
        match &fields[pos] {
            Field::Unsigned(_) => None,
            Field::Text(s) => Some(s.clone()),
        }
    } else {
        None
    }
}

fn read_msg(fields: &Vec<Field>, pos: usize) -> (r: Option<ValqMsg>)
    requires
        pos <= fields@.len(),
    ensures
        r == decode_msg(fields@, pos as int),
{
    if fields.len() - pos < 4 {
        return None;
    }
    let id = read_u64(fields, pos);
    let body = read_text(fields, pos + 1);
    let stamp = read_u64(fields, pos + 2);
    let attempts = read_u64(fields, pos + 3);
    match (id, body, stamp, attempts) {
        (Some(id), Some(body), Some(stamp), Some(attempts)) => {
            let timeout_at = if stamp == 0 {
                None
            } else {
                Some(stamp)
            };
            Some(ValqMsg::new(id, body, timeout_at, attempts))
        },
        _ => None,
    }
}

proof fn lemma_decode_msgs_stays_none(f: Seq<Field>, pos: int, m: nat, n: nat)
    requires
        m <= n,
        decode_msgs(f, pos, m) is None,
    ensures
        decode_msgs(f, pos, n) is None,
    decreases n - m,
{
    if m < n {
        lemma_decode_msgs_stays_none(f, pos, m, (n - 1) as nat);
    }
}

proof fn lemma_decode_entries_stays_none(f: Seq<Field>, pos: int, m: nat, n: nat)
    requires
        m <= n,
        decode_entries(f, pos, m) is None,
    ensures
        decode_entries(f, pos, n) is None,
    decreases n - m,
{
    if m < n {
        lemma_decode_entries_stays_none(f, pos, m, (n - 1) as nat);
    }
}

/// Reads `n` stored messages from `pos` on; returns them and the position
/// after them.
fn read_msgs(fields: &Vec<Field>, pos: usize, n: u64) -> (r: Option<(VecDeque<ValqMsg>, usize)>)
    requires
        pos <= fields@.len(),
    ensures
        match decode_msgs(fields@, pos as int, n as nat) {
            Some(ms) => r is Some && r->Some_0.0@ == ms && r->Some_0.1 == pos + 4 * n,
            None => r is None,
        },
{
    let mut out: VecDeque<ValqMsg> = VecDeque::new();
    let mut cur: usize = pos;
    let mut i: u64 = 0;
    while i < n
        invariant
            pos <= fields@.len(),
            i <= n,
            cur == pos + 4 * i,
            cur <= fields@.len(),
            decode_msgs(fields@, pos as int, i as nat) == Some(out@),
        decreases n - i,
    {
        match read_msg(fields, cur) {
            Some(m) => {
                assert(field_u64(fields@, cur + 3) is Some);
                assert(cur + 4 <= fields.len());
                out.push_back(m);
                cur = cur + 4;
                i = i + 1;
            },
            None => {
                proof {
                    lemma_decode_msgs_stays_none(fields@, pos as int, (i + 1) as nat, n as nat);
                }
                return None;
            },
        }
    }
    Some((out, cur))
}

/// Reads `n` stored delayed entries from `pos` on into a fresh index.
fn read_entries(fields: &Vec<Field>, pos: usize, n: u64) -> (r: Option<(DelayedMsgs, usize)>)
    requires
        pos <= fields@.len(),
    ensures
        match decode_entries(fields@, pos as int, n as nat) {
            Some(ds) => r is Some && r->Some_0.0@ == ds && r->Some_0.0.wf() && r->Some_0.1 == pos
                + 5 * n,
            None => r is None,
        },
{
    let mut out = DelayedMsgs::new();
    let mut cur: usize = pos;
    let mut i: u64 = 0;
    while i < n
        invariant
            pos <= fields@.len(),
            i <= n,
            cur == pos + 5 * i,
            cur <= fields@.len(),
            out.wf(),
            decode_entries(fields@, pos as int, i as nat) == Some(out@),
        decreases n - i,
    {
        let score = read_u64(fields, cur);
        let m = if cur < fields.len() {
            read_msg(fields, cur + 1)
        } else {
            None
        };
        match (score, m) {
            (Some(score), Some(m)) => {
                assert(field_u64(fields@, cur + 4) is Some);
                assert(cur + 5 <= fields.len());
                out.insert(m, score);
                cur = cur + 5;
                i = i + 1;
            },
            _ => {
                proof {
                    lemma_decode_entries_stays_none(fields@, pos as int, (i + 1) as nat, n as nat);
                }
                return None;
            },
        }
    }
    Some((out, cur))
}

fn push_msg_fields(out: &mut Vec<Field>, m: &ValqMsg)
    ensures
        final(out)@ == old(out)@ + msg_fields(*m),
{
    out.push(Field::Unsigned(m.id));
    out.push(Field::Text(m.body.clone()));
    let stamp = match m.timeout_at {
        Some(t) => t,
        None => 0,
    };
    out.push(Field::Unsigned(stamp));
    out.push(Field::Unsigned(m.delivery_attempts));
    assert(final(out)@ =~= old(out)@ + msg_fields(*m));
}

fn push_msgs_fields(out: &mut Vec<Field>, s: &VecDeque<ValqMsg>)
    ensures
        final(out)@ == old(out)@ + msgs_fields(s@),
{
    let ghost start = out@;
    let mut i: usize = 0;
    proof {
        assert(s@.take(0) =~= Seq::<ValqMsg>::empty());
        assert(start + msgs_fields(s@.take(0)) =~= start);
    }
    while i < s.len()
        invariant
            i <= s@.len(),
            start == old(out)@,
            out@ == start + msgs_fields(s@.take(i as int)),
        decreases s@.len() - i,
    {
        push_msg_fields(out, &s[i]);
        proof {
            let tk = s@.take(i + 1);
            assert(tk.drop_last() =~= s@.take(i as int));
            assert(tk.last() == s@[i as int]);
            assert(out@ =~= start + msgs_fields(tk));
        }
        i = i + 1;
    }
    assert(s@.take(i as int) =~= s@);
}

fn push_entries_fields(out: &mut Vec<Field>, s: &Vec<(u64, ValqMsg)>)
    ensures
        final(out)@ == old(out)@ + entries_fields(s@),
{
    let ghost start = out@;
    let mut i: usize = 0;
    proof {
        assert(s@.take(0) =~= Seq::<(u64, ValqMsg)>::empty());
        assert(start + entries_fields(s@.take(0)) =~= start);
    }
    while i < s.len()
        invariant
            i <= s@.len(),
            start == old(out)@,
            out@ == start + entries_fields(s@.take(i as int)),
        decreases s@.len() - i,
    {
        out.push(Field::Unsigned(s[i].0));
        push_msg_fields(out, &s[i].1);
        proof {
            let tk = s@.take(i + 1);
            assert(tk.drop_last() =~= s@.take(i as int));
            assert(tk.last() == s@[i as int]);
            assert(out@ =~= start + entries_fields(tk));
        }
        i = i + 1;
    }
    assert(s@.take(i as int) =~= s@);
}

impl ValqType {
    /// The queue as a stored record.
    pub fn to_fields(&self) -> (r: Vec<Field>)
        ensures
            r@ == queue_fields(self@),
    {
        let mut out: Vec<Field> = Vec::new();
        out.push(Field::Text(self.name().clone()));
        out.push(Field::Unsigned(*self.id_sequence()));
        out.push(Field::Unsigned(*self.visibility_timeout()));
        out.push(Field::Unsigned(*self.max_delivery_attempts()));
        out.push(Field::Unsigned(*self.retention_period()));
        out.push(Field::Unsigned(self.msgs().len() as u64));
        push_msgs_fields(&mut out, self.msgs());
        out.push(Field::Unsigned(self.dlq_msgs().len() as u64));
        push_msgs_fields(&mut out, self.dlq_msgs());
        out.push(Field::Unsigned(self.delayed_msgs().len()));
        push_entries_fields(&mut out, self.delayed_msgs().entries());
        assert(out@ =~= queue_fields(self@));
        out
    }

    /// The queue that a stored record describes, or `None` when the record
    /// is malformed (see `decode_queue`).
    pub fn from_fields(fields: &Vec<Field>) -> (r: Option<ValqType>)
        ensures
            match decode_queue(fields@) {
                Some(q) => r is Some && r->Some_0@ == q && r->Some_0.wf(),
                None => r is None,
            },
    {
        let header = (
            read_text(fields, 0),
            read_u64(fields, 1),
            read_u64(fields, 2),
            read_u64(fields, 3),
            read_u64(fields, 4),
            read_u64(fields, 5),
        );
        let (name, id_sequence, visibility_timeout, max_delivery_attempts, retention_period, n1) =
            match header {
            (Some(a), Some(b), Some(c), Some(d), Some(e), Some(f)) => (a, b, c, d, e, f),
            _ => {
                return None;
            },
        };
        if visibility_timeout < 1 || visibility_timeout > VISIBILITY_TIMEOUT_MAX
            || max_delivery_attempts < 1 || max_delivery_attempts > DELIVERY_ATTEMPTS_MAX
            || retention_period < RETENTION_PERIOD_MIN || retention_period > RETENTION_PERIOD_MAX {
            return None;
        }
        let (msgs, dlq_pos) = match read_msgs(fields, 6, n1) {
            Some(x) => x,
            None => {
                return None;
            },
        };
        let n2 = match read_u64(fields, dlq_pos) {
            Some(v) => v,
            None => {
                return None;
            },
        };
        assert(dlq_pos < fields.len());
        let (dlq_msgs, delayed_pos) = match read_msgs(fields, dlq_pos + 1, n2) {
            Some(x) => x,
            None => {
                return None;
            },
        };
        let n3 = match read_u64(fields, delayed_pos) {
            Some(v) => v,
            None => {
                return None;
            },
        };
        assert(delayed_pos < fields.len());
        let (delayed_msgs, end) = match read_entries(fields, delayed_pos + 1, n3) {
            Some(x) => x,
            None => {
                return None;
            },
        };
        if end != fields.len() {
            return None;
        }
        Some(
            ValqType::from_parts(
                name,
                id_sequence,
                visibility_timeout,
                max_delivery_attempts,
                retention_period,
                msgs,
                dlq_msgs,
                delayed_msgs,
            ),
        )
    }
}

/// No message carries the timeout zero, which storage could not tell from
/// "none".
pub open spec fn stamps_nonzero(s: Seq<ValqMsg>) -> bool {
    forall|i: int| 0 <= i < s.len() ==> #[trigger] s[i].timeout_at != Some(0u64)
}

pub open spec fn entry_stamps_nonzero(s: Seq<(u64, ValqMsg)>) -> bool {
    forall|i: int| 0 <= i < s.len() ==> #[trigger] s[i].1.timeout_at != Some(0u64)
}

/// A state that storage can hold: well formed, no zero timeout, and counts
/// that fit the stored integers.
pub open spec fn storable(q: QueueState) -> bool {
    &&& state_wf(q)
    &&& stamps_nonzero(q.msgs)
    &&& stamps_nonzero(q.dlq_msgs)
    &&& entry_stamps_nonzero(q.delayed_msgs)
    &&& q.msgs.len() <= u64::MAX
    &&& q.dlq_msgs.len() <= u64::MAX
    &&& q.delayed_msgs.len() <= u64::MAX
}

proof fn lemma_msgs_fields_len(s: Seq<ValqMsg>)
    ensures
        msgs_fields(s).len() == 4 * s.len(),
    decreases s.len(),
{
    if s.len() > 0 {
        lemma_msgs_fields_len(s.drop_last());
    }
}

proof fn lemma_entries_fields_len(s: Seq<(u64, ValqMsg)>)
    ensures
        entries_fields(s).len() == 5 * s.len(),
    decreases s.len(),
{
    if s.len() > 0 {
        lemma_entries_fields_len(s.drop_last());
    }
}

proof fn lemma_decode_msg_of(f: Seq<Field>, pos: int, m: ValqMsg)
    requires
        0 <= pos,
        pos + 4 <= f.len(),
        f.subrange(pos, pos + 4) == msg_fields(m),
        m.timeout_at != Some(0u64),
    ensures
        decode_msg(f, pos) == Some(m),
{
    let g = f.subrange(pos, pos + 4);
    assert(f[pos] == g[0]);
    assert(f[pos + 1] == g[1]);
    assert(f[pos + 2] == g[2]);
    assert(f[pos + 3] == g[3]);
}

proof fn lemma_decode_msgs_of(f: Seq<Field>, pos: int, s: Seq<ValqMsg>)
    requires
        0 <= pos,
        pos + 4 * s.len() <= f.len(),
        f.subrange(pos, pos + 4 * s.len()) == msgs_fields(s),
        stamps_nonzero(s),
    ensures
        decode_msgs(f, pos, s.len()) == Some(s),
    decreases s.len(),
{
    if s.len() > 0 {
        let n = s.len() as int;
        let t = s.drop_last();
        lemma_msgs_fields_len(t);
        let g = f.subrange(pos, pos + 4 * n);
        assert(g == msgs_fields(t) + msg_fields(s.last()));
        assert(f.subrange(pos, pos + 4 * (n - 1)) =~= msgs_fields(t)) by {
            assert forall|j: int| 0 <= j < 4 * (n - 1) implies f.subrange(pos, pos + 4 * (n - 1))[j]
                == msgs_fields(t)[j] by {
                assert(g[j] == f[pos + j]);
            }
        }
        assert(f.subrange(pos + 4 * (n - 1), pos + 4 * (n - 1) + 4) =~= msg_fields(s.last())) by {
            assert forall|j: int| 0 <= j < 4 implies f.subrange(
                pos + 4 * (n - 1),
                pos + 4 * (n - 1) + 4,
            )[j] == msg_fields(s.last())[j] by {
                assert(g[4 * (n - 1) + j] == f[pos + 4 * (n - 1) + j]);
            }
        }
        assert(stamps_nonzero(t)) by {
            assert forall|i: int| 0 <= i < t.len() implies #[trigger] t[i].timeout_at != Some(
                0u64,
            ) by {
                assert(t[i] == s[i]);
            }
        }
        lemma_decode_msgs_of(f, pos, t);
        lemma_decode_msg_of(f, pos + 4 * (n - 1), s.last());
        assert(t.push(s.last()) =~= s);
    }
}

proof fn lemma_decode_entries_of(f: Seq<Field>, pos: int, s: Seq<(u64, ValqMsg)>)
    requires
        0 <= pos,
        pos + 5 * s.len() <= f.len(),
        f.subrange(pos, pos + 5 * s.len()) == entries_fields(s),
        entry_stamps_nonzero(s),
        crate::delayed_msgs::entries_sorted(s),
        crate::delayed_msgs::entry_ids_distinct(s),
    ensures
        decode_entries(f, pos, s.len()) == Some(s),
    decreases s.len(),
{
    if s.len() > 0 {
        let n = s.len() as int;
        let t = s.drop_last();
        let e = s.last();
        lemma_entries_fields_len(t);
        let g = f.subrange(pos, pos + 5 * n);
        assert(g == entries_fields(t) + entry_fields(e));
        assert(f.subrange(pos, pos + 5 * (n - 1)) =~= entries_fields(t)) by {
            assert forall|j: int| 0 <= j < 5 * (n - 1) implies f.subrange(pos, pos + 5 * (n - 1))[j]
                == entries_fields(t)[j] by {
                assert(g[j] == f[pos + j]);
            }
        }
        let q = pos + 5 * (n - 1);
        assert(f[q] == g[5 * (n - 1)]);
        assert(f.subrange(q + 1, q + 1 + 4) =~= msg_fields(e.1)) by {
            assert forall|j: int| 0 <= j < 4 implies f.subrange(q + 1, q + 1 + 4)[j] == msg_fields(
                e.1,
            )[j] by {
                assert(g[5 * (n - 1) + 1 + j] == f[q + 1 + j]);
            }
        }
        assert(t.len() == n - 1);
        assert(forall|i: int| 0 <= i < t.len() ==> #[trigger] t[i] == s[i]);
        lemma_decode_entries_of(f, pos, t);
        lemma_decode_msg_of(f, q + 1, e.1);
        assert(decode_entry(f, q) == Some(e));
        assert(!crate::delayed_msgs::has_entry_id(t, e.1.id)) by {
            if crate::delayed_msgs::has_entry_id(t, e.1.id) {
                let i = choose|i: int| 0 <= i < t.len() && #[trigger] t[i].1.id == e.1.id;
                assert(s[i].1.id != s[n - 1].1.id);
            }
        }
        assert(without_id(t, e.1.id) == t);
        assert forall|i: int| 0 <= i < t.len() implies crate::delayed_msgs::entry_before(
            #[trigger] t[i],
            e,
        ) by {
            assert(crate::delayed_msgs::entry_before(s[i], s[n - 1]));
        }
        crate::seq_facts::lemma_filter_prefix(
            t,
            |x: (u64, ValqMsg)| crate::delayed_msgs::entry_before(x, e),
            t.len() as int,
        );
        assert(t.take(t.len() as int) =~= t);
        assert(insert_sorted(t, e) =~= s);
    }
}

/// Storing a queue and reading the record back gives the same queue.
pub proof fn lemma_record_round_trip(q: QueueState)
    requires
        storable(q),
    ensures
        decode_queue(queue_fields(q)) == Some(q),
{
    let f = queue_fields(q);
    let n1 = q.msgs.len() as int;
    let n2 = q.dlq_msgs.len() as int;
    let n3 = q.delayed_msgs.len() as int;
    lemma_msgs_fields_len(q.msgs);
    lemma_msgs_fields_len(q.dlq_msgs);
    lemma_entries_fields_len(q.delayed_msgs);
    let h = seq![
        Field::Text(q.name),
        Field::Unsigned(q.id_sequence),
        Field::Unsigned(q.visibility_timeout),
        Field::Unsigned(q.max_delivery_attempts),
        Field::Unsigned(q.retention_period),
        Field::Unsigned(q.msgs.len() as u64),
    ];
    let a = h + msgs_fields(q.msgs);
    let b = a + seq![Field::Unsigned(q.dlq_msgs.len() as u64)];
    let c = b + msgs_fields(q.dlq_msgs);
    let d = c + seq![Field::Unsigned(q.delayed_msgs.len() as u64)];
    assert(f == d + entries_fields(q.delayed_msgs));
    let dlq_pos = 6 + 4 * n1;
    let delayed_pos = dlq_pos + 1 + 4 * n2;
    assert(f.len() == delayed_pos + 1 + 5 * n3);
    assert(f[0] == h[0]);
    assert(f[1] == h[1]);
    assert(f[2] == h[2]);
    assert(f[3] == h[3]);
    assert(f[4] == h[4]);
    assert(f[5] == h[5]);
    assert(f.subrange(6, 6 + 4 * n1) =~= msgs_fields(q.msgs)) by {
        assert forall|j: int| 0 <= j < 4 * n1 implies f.subrange(6, 6 + 4 * n1)[j] == msgs_fields(
            q.msgs,
        )[j] by {
            assert(f[6 + j] == a[6 + j]);
        }
    }
    assert(f[dlq_pos] == b[dlq_pos]);
    assert(f.subrange(dlq_pos + 1, dlq_pos + 1 + 4 * n2) =~= msgs_fields(q.dlq_msgs)) by {
        assert forall|j: int| 0 <= j < 4 * n2 implies f.subrange(dlq_pos + 1, dlq_pos + 1 + 4 * n2)[j]
            == msgs_fields(q.dlq_msgs)[j] by {
            assert(f[dlq_pos + 1 + j] == c[dlq_pos + 1 + j]);
        }
    }
    assert(f[delayed_pos] == d[delayed_pos]);
    assert(f.subrange(delayed_pos + 1, delayed_pos + 1 + 5 * n3) =~= entries_fields(q.delayed_msgs)) by {
        assert forall|j: int| 0 <= j < 5 * n3 implies f.subrange(delayed_pos + 1, delayed_pos + 1 + 5 * n3)[j]
            == entries_fields(q.delayed_msgs)[j] by {
            assert(f[delayed_pos + 1 + j] == entries_fields(q.delayed_msgs)[j]);
        }
    }
    lemma_decode_msgs_of(f, 6, q.msgs);
    lemma_decode_msgs_of(f, dlq_pos + 1, q.dlq_msgs);
    lemma_decode_entries_of(f, delayed_pos + 1, q.delayed_msgs);
    assert(decode_queue(f) =~= Some(q));
}

} // verus!
