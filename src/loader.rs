use vstd::prelude::*;

use crate::record::{
    Field, FieldKind, decode_queue, entries_fields, entry_fields, msg_fields, msgs_fields, queue_fields,
    storable,
};
use crate::valq_msg::ValqMsg;
use crate::valq_type::QueueState;
use crate::valq_type::ValqType;

verus! {

/// Which part of a stored queue record comes next.
#[derive(Debug, Clone, Copy, PartialEq, Eq, Structural)]
pub enum LoadStage {
    Header,
    Msgs,
    DlqCount,
    Dlq,
    DelayedCount,
    Delayed,
    Done,
    Failed,
}

/// Where a loader stands: the part, the value's place within its record
/// (or within the header), and the records left in the part.
#[derive(Debug, Clone, Copy, PartialEq, Eq, Structural)]
pub struct LoaderState {
    pub stage: LoadStage,
    pub slot: u64,
    pub left: u64,
}

pub open spec fn kind_of(f: Field) -> FieldKind {
    match f {
        Field::Unsigned(_) => FieldKind::Unsigned,
        Field::Text(_) => FieldKind::Text,
    }
}

/// The kind of value a record holds next at this point, `None` once it is
/// complete or broken. A message record is id, body, timeout, attempts; a
/// delayed one has its score in front.
pub open spec fn expected_kind(s: LoaderState) -> Option<FieldKind> {
    match s.stage {
        LoadStage::Header => if s.slot == 0 {
            Some(FieldKind::Text)
        } else {
            Some(FieldKind::Unsigned)
        },
        LoadStage::Msgs | LoadStage::Dlq => if s.slot == 1 {
            Some(FieldKind::Text)
        } else {
            Some(FieldKind::Unsigned)
        },
        LoadStage::Delayed => if s.slot == 2 {
            Some(FieldKind::Text)
        } else {
            Some(FieldKind::Unsigned)
        },
        LoadStage::DlqCount | LoadStage::DelayedCount => Some(FieldKind::Unsigned),
        LoadStage::Done | LoadStage::Failed => None,
    }
}

/// One more value of a record of `size` values in a part that is followed
/// by `next`.
pub open spec fn record_step(s: LoaderState, size: u64, next: LoadStage) -> LoaderState {
    if s.slot + 1 < size {
        LoaderState { slot: (s.slot + 1) as u64, ..s }
    } else if s.left <= 1 {
        LoaderState { stage: next, slot: 0, left: 0 }
    } else {
        LoaderState { slot: 0, left: (s.left - 1) as u64, ..s }
    }
}

/// A count opens part `part`, or goes on to `next` when it is zero.
pub open spec fn count_step(n: u64, part: LoadStage, next: LoadStage) -> LoaderState {
    if n == 0 {
        LoaderState { stage: next, slot: 0, left: 0 }
    } else {
        LoaderState { stage: part, slot: 0, left: n }
    }
}

/// Where a loader stands after one more value.
pub open spec fn load_step(s: LoaderState, f: Field) -> LoaderState {
    if expected_kind(s) != Some(kind_of(f)) {
        LoaderState { stage: LoadStage::Failed, ..s }
    } else {
        match s.stage {
            LoadStage::Header => if s.slot < 5 {
                LoaderState { slot: (s.slot + 1) as u64, ..s }
            } else {
                count_step(f->Unsigned_0, LoadStage::Msgs, LoadStage::DlqCount)
            },
            LoadStage::Msgs => record_step(s, 4, LoadStage::DlqCount),
            LoadStage::DlqCount => count_step(f->Unsigned_0, LoadStage::Dlq, LoadStage::DelayedCount),
            LoadStage::Dlq => record_step(s, 4, LoadStage::DelayedCount),
            LoadStage::DelayedCount => count_step(f->Unsigned_0, LoadStage::Delayed, LoadStage::Done),
            LoadStage::Delayed => record_step(s, 5, LoadStage::Done),
            LoadStage::Done | LoadStage::Failed => s,
        }
    }
}

/// Reads a stored queue record value by value: it says which kind of value
/// comes next, collects what it is given, and decodes the whole at the end.
#[derive(Debug)]
pub struct QueueLoader {
    fields: Vec<Field>,
    state: LoaderState,
}

impl QueueLoader {
    pub closed spec fn fed(&self) -> Seq<Field> {
        self.fields@
    }

    pub closed spec fn at(&self) -> LoaderState {
        self.state
    }

    pub fn new() -> (r: Self)
        ensures
            r.fed() == Seq::<Field>::empty(),
            r.at() == (LoaderState { stage: LoadStage::Header, slot: 0, left: 0 }),
    {
        QueueLoader {
            fields: Vec::new(),
            state: LoaderState { stage: LoadStage::Header, slot: 0, left: 0 },
        }
    }

    /// The kind of the value to read next; `None` when there is nothing
    /// more to read.
    pub fn next_kind(&self) -> (r: Option<FieldKind>)
        ensures
            r == expected_kind(self.at()),
    {
        let s = self.state;
        match s.stage {
            LoadStage::Header => if s.slot == 0 {
                Some(FieldKind::Text)
            } else {
                Some(FieldKind::Unsigned)
            },
            LoadStage::Msgs | LoadStage::Dlq => if s.slot == 1 {
                Some(FieldKind::Text)
            } else {
                Some(FieldKind::Unsigned)
            },
            LoadStage::Delayed => if s.slot == 2 {
                Some(FieldKind::Text)
            } else {
                Some(FieldKind::Unsigned)
            },
            LoadStage::DlqCount | LoadStage::DelayedCount => Some(FieldKind::Unsigned),
            LoadStage::Done | LoadStage::Failed => None,
        }
    }

    /// Takes the next value.
    pub fn feed(&mut self, f: Field)
        ensures
            final(self).fed() == old(self).fed().push(f),
            final(self).at() == load_step(old(self).at(), f),
    {
        let s = self.state;
        let expected = self.next_kind();
        let kind = match &f {
            Field::Unsigned(_) => FieldKind::Unsigned,
            Field::Text(_) => FieldKind::Text,
        };
        let next = if expected != Some(kind) {
            LoaderState { stage: LoadStage::Failed, ..s }
        } else {
            let n = match &f {
                Field::Unsigned(v) => *v,
                Field::Text(_) => 0,
            };
            match s.stage {
                LoadStage::Header => if s.slot < 5 {
                    LoaderState { slot: s.slot + 1, ..s }
                } else {
                    count_step_exec(n, LoadStage::Msgs, LoadStage::DlqCount)
                },
                LoadStage::Msgs => record_step_exec(s, 4, LoadStage::DlqCount),
                LoadStage::DlqCount => count_step_exec(n, LoadStage::Dlq, LoadStage::DelayedCount),
                LoadStage::Dlq => record_step_exec(s, 4, LoadStage::DelayedCount),
                LoadStage::DelayedCount => count_step_exec(n, LoadStage::Delayed, LoadStage::Done),
                LoadStage::Delayed => record_step_exec(s, 5, LoadStage::Done),
                LoadStage::Done | LoadStage::Failed => s,
            }
        };
        self.fields.push(f);
        self.state = next;
    }

    /// The queue that the values read so far describe (see `decode_queue`).
    pub fn finish(&self) -> (r: Option<ValqType>)
        ensures
            match decode_queue(self.fed()) {
                Some(q) => r is Some && r->Some_0@ == q && r->Some_0.wf(),
                None => r is None,
            },
    {
        ValqType::from_fields(&self.fields)
    }
}

fn record_step_exec(s: LoaderState, size: u64, next: LoadStage) -> (r: LoaderState)
    requires
        size >= 1,
    ensures
        r == record_step(s, size, next),
{
    if s.slot < size - 1 {
        LoaderState { slot: s.slot + 1, ..s }
    } else if s.left <= 1 {
        LoaderState { stage: next, slot: 0, left: 0 }
    } else {
        LoaderState { slot: 0, left: s.left - 1, ..s }
    }
}

fn count_step_exec(n: u64, part: LoadStage, next: LoadStage) -> (r: LoaderState)
    ensures
        r == count_step(n, part, next),
{
    if n == 0 {
        LoaderState { stage: next, slot: 0, left: 0 }
    } else {
        LoaderState { stage: part, slot: 0, left: n }
    }
}

/// Where a loader stands after the values `f`, starting from `s`.
pub open spec fn run_loader(s: LoaderState, f: Seq<Field>) -> LoaderState
    decreases f.len(),
{
    if f.len() == 0 {
        s
    } else {
        load_step(run_loader(s, f.drop_last()), f.last())
    }
}

/// Fed the values `f` one by one from `s`, the loader asks each time for
/// the kind of the value that comes.
pub open spec fn kinds_match(s: LoaderState, f: Seq<Field>) -> bool {
    forall|i: int|
        0 <= i < f.len() ==> expected_kind(#[trigger] run_loader(s, f.take(i))) == Some(
            kind_of(f[i]),
        )
}

pub open spec fn loader_start() -> LoaderState {
    LoaderState { stage: LoadStage::Header, slot: 0, left: 0 }
}

proof fn lemma_run_concat(s: LoaderState, a: Seq<Field>, b: Seq<Field>)
    ensures
        run_loader(s, a + b) == run_loader(run_loader(s, a), b),
    decreases b.len(),
{
    if b.len() == 0 {
        assert(a + b =~= a);
    } else {
        lemma_run_concat(s, a, b.drop_last());
        assert((a + b).drop_last() =~= a + b.drop_last());
        assert((a + b).last() == b.last());
    }
}

proof fn lemma_kinds_concat(s: LoaderState, a: Seq<Field>, b: Seq<Field>)
    requires
        kinds_match(s, a),
        kinds_match(run_loader(s, a), b),
    ensures
        kinds_match(s, a + b),
{
    let f = a + b;
    assert forall|i: int| 0 <= i < f.len() implies expected_kind(
        #[trigger] run_loader(s, f.take(i)),
    ) == Some(kind_of(f[i])) by {
        if i < a.len() {
            assert(f.take(i) =~= a.take(i));
        } else {
            let j = i - a.len();
            assert(f.take(i) =~= a + b.take(j));
            lemma_run_concat(s, a, b.take(j));
            assert(expected_kind(run_loader(run_loader(s, a), b.take(j))) == Some(kind_of(b[j])));
        }
    }
}

proof fn lemma_run_step(s: LoaderState, f: Seq<Field>, k: int)
    requires
        0 <= k < f.len(),
    ensures
        run_loader(s, f.take(k + 1)) == load_step(run_loader(s, f.take(k)), f[k]),
{
    assert(f.take(k + 1).drop_last() =~= f.take(k));
}

proof fn lemma_run_empty(s: LoaderState, f: Seq<Field>)
    ensures
        run_loader(s, f.take(0)) == s,
{
    assert(f.take(0) =~= Seq::<Field>::empty());
}

/// One stored message in part `st` (messages or dead letters) with `left`
/// records still to come.
proof fn lemma_load_msg(s: LoaderState, m: ValqMsg, next: LoadStage)
    requires
        s.stage == LoadStage::Msgs || s.stage == LoadStage::Dlq,
        s.slot == 0,
        s.left >= 1,
        next == (if s.stage == LoadStage::Msgs {
            LoadStage::DlqCount
        } else {
            LoadStage::DelayedCount
        }),
    ensures
        kinds_match(s, msg_fields(m)),
        run_loader(s, msg_fields(m)) == record_step(LoaderState { slot: 3, ..s }, 4, next),
{
    let f = msg_fields(m);
    lemma_run_empty(s, f);
    lemma_run_step(s, f, 0);
    lemma_run_step(s, f, 1);
    lemma_run_step(s, f, 2);
    lemma_run_step(s, f, 3);
    assert(f.take(4) =~= f);
}

/// One stored delayed entry with `left` entries still to come.
proof fn lemma_load_entry(s: LoaderState, e: (u64, ValqMsg))
    requires
        s.stage == LoadStage::Delayed,
        s.slot == 0,
        s.left >= 1,
    ensures
        kinds_match(s, entry_fields(e)),
        run_loader(s, entry_fields(e)) == record_step(LoaderState { slot: 4, ..s }, 5, LoadStage::Done),
{
    let f = entry_fields(e);
    lemma_run_empty(s, f);
    lemma_run_step(s, f, 0);
    lemma_run_step(s, f, 1);
    lemma_run_step(s, f, 2);
    lemma_run_step(s, f, 3);
    lemma_run_step(s, f, 4);
    assert(f.take(5) =~= f);
}

/// The first `j` of `n` stored messages of a part.
proof fn lemma_load_msgs(st: LoadStage, next: LoadStage, ms: Seq<ValqMsg>, j: int)
    requires
        st == LoadStage::Msgs || st == LoadStage::Dlq,
        next == (if st == LoadStage::Msgs {
            LoadStage::DlqCount
        } else {
            LoadStage::DelayedCount
        }),
        1 <= ms.len() <= u64::MAX,
        0 <= j <= ms.len(),
    ensures
        ({
            let s = LoaderState { stage: st, slot: 0, left: ms.len() as u64 };
            &&& kinds_match(s, msgs_fields(ms.take(j)))
            &&& run_loader(s, msgs_fields(ms.take(j))) == if j < ms.len() {
                LoaderState { stage: st, slot: 0, left: (ms.len() - j) as u64 }
            } else {
                LoaderState { stage: next, slot: 0, left: 0 }
            }
        }),
    decreases j,
{
    let s = LoaderState { stage: st, slot: 0, left: ms.len() as u64 };
    if j == 0 {
        assert(ms.take(0) =~= Seq::<ValqMsg>::empty());
        assert(msgs_fields(ms.take(0)) =~= Seq::<Field>::empty());
    } else {
        lemma_load_msgs(st, next, ms, j - 1);
        let t = ms.take(j);
        assert(t.drop_last() =~= ms.take(j - 1));
        assert(t.last() == ms[j - 1]);
        assert(msgs_fields(t) == msgs_fields(ms.take(j - 1)) + msg_fields(ms[j - 1]));
        let mid = run_loader(s, msgs_fields(ms.take(j - 1)));
        lemma_load_msg(mid, ms[j - 1], next);
        lemma_kinds_concat(s, msgs_fields(ms.take(j - 1)), msg_fields(ms[j - 1]));
        lemma_run_concat(s, msgs_fields(ms.take(j - 1)), msg_fields(ms[j - 1]));
    }
}

/// The first `j` of `n` stored delayed entries.
proof fn lemma_load_entries(es: Seq<(u64, ValqMsg)>, j: int)
    requires
        1 <= es.len() <= u64::MAX,
        0 <= j <= es.len(),
    ensures
        ({
            let s = LoaderState { stage: LoadStage::Delayed, slot: 0, left: es.len() as u64 };
            &&& kinds_match(s, entries_fields(es.take(j)))
            &&& run_loader(s, entries_fields(es.take(j))) == if j < es.len() {
                LoaderState { stage: LoadStage::Delayed, slot: 0, left: (es.len() - j) as u64 }
            } else {
                LoaderState { stage: LoadStage::Done, slot: 0, left: 0 }
            }
        }),
    decreases j,
{
    let s = LoaderState { stage: LoadStage::Delayed, slot: 0, left: es.len() as u64 };
    if j == 0 {
        assert(es.take(0) =~= Seq::<(u64, ValqMsg)>::empty());
        assert(entries_fields(es.take(0)) =~= Seq::<Field>::empty());
    } else {
        lemma_load_entries(es, j - 1);
        let t = es.take(j);
        assert(t.drop_last() =~= es.take(j - 1));
        assert(t.last() == es[j - 1]);
        assert(entries_fields(t) == entries_fields(es.take(j - 1)) + entry_fields(es[j - 1]));
        let mid = run_loader(s, entries_fields(es.take(j - 1)));
        lemma_load_entry(mid, es[j - 1]);
        lemma_kinds_concat(s, entries_fields(es.take(j - 1)), entry_fields(es[j - 1]));
        lemma_run_concat(s, entries_fields(es.take(j - 1)), entry_fields(es[j - 1]));
    }
}

/// A part of stored messages, opened by its count.
proof fn lemma_load_part(st: LoadStage, next: LoadStage, ms: Seq<ValqMsg>)
    requires
        st == LoadStage::Msgs || st == LoadStage::Dlq,
        next == (if st == LoadStage::Msgs {
            LoadStage::DlqCount
        } else {
            LoadStage::DelayedCount
        }),
        ms.len() <= u64::MAX,
    ensures
        kinds_match(count_step(ms.len() as u64, st, next), msgs_fields(ms)),
        run_loader(count_step(ms.len() as u64, st, next), msgs_fields(ms)) == (LoaderState {
            stage: next,
            slot: 0,
            left: 0,
        }),
{
    if ms.len() == 0 {
        assert(msgs_fields(ms) =~= Seq::<Field>::empty());
    } else {
        lemma_load_msgs(st, next, ms, ms.len() as int);
        assert(ms.take(ms.len() as int) =~= ms);
    }
}

/// A count value read in `s`, which expects one.
proof fn lemma_load_count(s: LoaderState, n: u64)
    requires
        s.stage == LoadStage::DlqCount || s.stage == LoadStage::DelayedCount,
    ensures
        kinds_match(s, seq![Field::Unsigned(n)]),
        run_loader(s, seq![Field::Unsigned(n)]) == if s.stage == LoadStage::DlqCount {
            count_step(n, LoadStage::Dlq, LoadStage::DelayedCount)
        } else {
            count_step(n, LoadStage::Delayed, LoadStage::Done)
        },
{
    let f = seq![Field::Unsigned(n)];
    lemma_run_empty(s, f);
    lemma_run_step(s, f, 0);
    assert(f.take(1) =~= f);
}

/// Fed the stored record of a queue, the loader asks for the kind of every
/// value in turn and then for nothing more.
pub proof fn lemma_loader_reads_record(q: QueueState)
    requires
        storable(q),
    ensures
        kinds_match(loader_start(), queue_fields(q)),
        expected_kind(run_loader(loader_start(), queue_fields(q))) is None,
{
    let s0 = loader_start();
    let n1 = q.msgs.len() as u64;
    let n2 = q.dlq_msgs.len() as u64;
    let n3 = q.delayed_msgs.len() as u64;
    let h = seq![
        Field::Text(q.name),
        Field::Unsigned(q.id_sequence),
        Field::Unsigned(q.visibility_timeout),
        Field::Unsigned(q.max_delivery_attempts),
        Field::Unsigned(q.retention_period),
        Field::Unsigned(n1),
    ];
    lemma_run_empty(s0, h);
    lemma_run_step(s0, h, 0);
    lemma_run_step(s0, h, 1);
    lemma_run_step(s0, h, 2);
    lemma_run_step(s0, h, 3);
    lemma_run_step(s0, h, 4);
    lemma_run_step(s0, h, 5);
    assert(h.take(6) =~= h);
    let s1 = run_loader(s0, h);
    assert(s1 == count_step(n1, LoadStage::Msgs, LoadStage::DlqCount));
    assert(kinds_match(s0, h));
    let m = msgs_fields(q.msgs);
    lemma_load_part(LoadStage::Msgs, LoadStage::DlqCount, q.msgs);
    lemma_kinds_concat(s0, h, m);
    lemma_run_concat(s0, h, m);
    let a = h + m;
    let s2 = run_loader(s0, a);
    let c2 = seq![Field::Unsigned(n2)];
    lemma_load_count(s2, n2);
    lemma_kinds_concat(s0, a, c2);
    lemma_run_concat(s0, a, c2);
    let b = a + c2;
    let d = msgs_fields(q.dlq_msgs);
    lemma_load_part(LoadStage::Dlq, LoadStage::DelayedCount, q.dlq_msgs);
    lemma_kinds_concat(s0, b, d);
    lemma_run_concat(s0, b, d);
    let c = b + d;
    let s3 = run_loader(s0, c);
    let c3 = seq![Field::Unsigned(n3)];
    lemma_load_count(s3, n3);
    lemma_kinds_concat(s0, c, c3);
    lemma_run_concat(s0, c, c3);
    let dd = c + c3;
    let e = entries_fields(q.delayed_msgs);
    let s4 = run_loader(s0, dd);
    if n3 == 0 {
        assert(e =~= Seq::<Field>::empty());
        assert(dd + e =~= dd);
    } else {
        lemma_load_entries(q.delayed_msgs, q.delayed_msgs.len() as int);
        assert(q.delayed_msgs.take(q.delayed_msgs.len() as int) =~= q.delayed_msgs);
        lemma_kinds_concat(s0, dd, e);
        lemma_run_concat(s0, dd, e);
    }
    assert(queue_fields(q) == dd + e);
}

} // verus!
