use vstd::prelude::*;

use crate::clock::now_as_seconds;
use crate::seq_facts::lemma_filter_prefix;
use crate::valq_msg::ValqMsg;

verus! {

/// `a` comes before `b` in the index: by score, then by message id.
pub open spec fn entry_before(a: (u64, ValqMsg), b: (u64, ValqMsg)) -> bool {
    a.0 < b.0 || (a.0 == b.0 && a.1.id < b.1.id)
}

/// Entries strictly ascending by (score, id).
pub open spec fn entries_sorted(s: Seq<(u64, ValqMsg)>) -> bool {
    forall|i: int, j: int| 0 <= i < j < s.len() ==> entry_before(#[trigger] s[i], #[trigger] s[j])
}

/// No two entries hold messages with the same id.
pub open spec fn entry_ids_distinct(s: Seq<(u64, ValqMsg)>) -> bool {
    forall|i: int, j: int|
        0 <= i < s.len() && 0 <= j < s.len() && i != j ==> #[trigger] s[i].1.id != #[trigger] s[j].1.id
}

/// Some entry holds a message with this id.
pub open spec fn has_entry_id(s: Seq<(u64, ValqMsg)>, id: u64) -> bool {
    exists|i: int| 0 <= i < s.len() && #[trigger] s[i].1.id == id
}

/// The entries without the one whose message has this id.
pub open spec fn without_id(s: Seq<(u64, ValqMsg)>, id: u64) -> Seq<(u64, ValqMsg)> {
    if has_entry_id(s, id) {
        s.remove(choose|i: int| 0 <= i < s.len() && #[trigger] s[i].1.id == id)
    } else {
        s
    }
}

/// The place of `e` among sorted entries: the number of entries before it.
pub open spec fn rank(s: Seq<(u64, ValqMsg)>, e: (u64, ValqMsg)) -> int {
    s.filter(|x: (u64, ValqMsg)| entry_before(x, e)).len() as int
}

/// Sorted entries with `e` put in its place.
pub open spec fn insert_sorted(s: Seq<(u64, ValqMsg)>, e: (u64, ValqMsg)) -> Seq<(u64, ValqMsg)> {
    s.insert(rank(s, e), e)
}

proof fn lemma_rank_from(s: Seq<(u64, ValqMsg)>, e: (u64, ValqMsg), i: int)
    requires
        entries_sorted(s),
        !has_entry_id(s, e.1.id),
        0 <= i <= s.len(),
        forall|j: int| 0 <= j < i ==> entry_before(#[trigger] s[j], e),
    ensures
        0 <= rank(s, e) <= s.len(),
        forall|j: int| 0 <= j < rank(s, e) ==> entry_before(#[trigger] s[j], e),
        forall|j: int| rank(s, e) <= j < s.len() ==> entry_before(e, #[trigger] s[j]),
    decreases s.len() - i,
{
    if i < s.len() && entry_before(s[i], e) {
        lemma_rank_from(s, e, i + 1);
    } else {
        assert forall|j: int| i <= j < s.len() implies entry_before(e, #[trigger] s[j]) by {
            assert(s[j].1.id != e.1.id);
            assert(s[i].1.id != e.1.id);
            if j > i {
                assert(entry_before(s[i], s[j]));
            }
        }
        lemma_filter_prefix(s, |x: (u64, ValqMsg)| entry_before(x, e), i);
        assert(s.take(i).len() == i);
    }
}

/// Putting an entry with a new id in its place keeps the index sorted and
/// its ids distinct.
pub proof fn lemma_insert_sorted_wf(s: Seq<(u64, ValqMsg)>, e: (u64, ValqMsg))
    requires
        entries_sorted(s),
        entry_ids_distinct(s),
        !has_entry_id(s, e.1.id),
    ensures
        0 <= rank(s, e) <= s.len(),
        entries_sorted(insert_sorted(s, e)),
        entry_ids_distinct(insert_sorted(s, e)),
{
    lemma_rank_from(s, e, 0);
    let k = rank(s, e);
    let t = insert_sorted(s, e);
    assert(t == s.insert(k, e));
    assert forall|a: int, b: int| 0 <= a < b < t.len() implies entry_before(
        #[trigger] t[a],
        #[trigger] t[b],
    ) by {
        if b < k {
        } else if b == k {
        } else if a < k {
            assert(entry_before(s[a], e));
            assert(entry_before(e, s[b - 1]));
        } else if a == k {
            assert(entry_before(e, s[b - 1]));
        } else {
            assert(entry_before(s[a - 1], s[b - 1]));
        }
    }
    assert forall|a: int, b: int|
        0 <= a < t.len() && 0 <= b < t.len() && a != b implies #[trigger] t[a].1.id
        != #[trigger] t[b].1.id by {
        if a != k && b != k {
            let sa = if a < k { a } else { a - 1 };
            let sb = if b < k { b } else { b - 1 };
            assert(t[a] == s[sa]);
            assert(t[b] == s[sb]);
        } else if a == k {
            let sb = if b < k { b } else { b - 1 };
            assert(t[b] == s[sb]);
        } else {
            let sa = if a < k { a } else { a - 1 };
            assert(t[a] == s[sa]);
        }
    }
}

/// How many entries have a score of at most `now`; for sorted entries they
/// form a prefix.
pub open spec fn due_count(s: Seq<(u64, ValqMsg)>, now: u64) -> int {
    s.filter(|x: (u64, ValqMsg)| x.0 <= now).len() as int
}

/// Messages waiting for a score (the instant they become visible), ordered
/// by score and then by message id. A message is identified by its id.
#[derive(Debug)]
pub struct DelayedMsgs {
    entries: Vec<(u64, ValqMsg)>,
}

impl View for DelayedMsgs {
    type V = Seq<(u64, ValqMsg)>;

    closed spec fn view(&self) -> Seq<(u64, ValqMsg)> {
        self.entries@
    }
}

impl DelayedMsgs {
    pub open spec fn wf(&self) -> bool {
        entries_sorted(self@) && entry_ids_distinct(self@)
    }

    pub fn new() -> (r: Self)
        ensures
            r.wf(),
            r@ == Seq::<(u64, ValqMsg)>::empty(),
    {
        DelayedMsgs { entries: Vec::new() }
    }

    /// Position of the entry whose message has this id.
    fn find_id(&self, id: u64) -> (r: Option<usize>)
        requires
            self.wf(),
        ensures
            match r {
                Some(i) => i < self@.len() && self@[i as int].1.id == id && without_id(self@, id)
                    == self@.remove(i as int),
                None => !has_entry_id(self@, id) && without_id(self@, id) == self@,
            },
    {
        let mut i: usize = 0;
        while i < self.entries.len()
            invariant
                i <= self@.len(),
                self.wf(),
                self@ == self.entries@,
                forall|j: int| 0 <= j < i ==> self@[j].1.id != id,
            decreases self@.len() - i,
        {
            if self.entries[i].1.id == id {
                proof {
                    let c = choose|c: int| 0 <= c < self@.len() && #[trigger] self@[c].1.id == id;
                    assert(self@[i as int].1.id == id);
                    if c != i {
                        assert(self@[c].1.id != self@[i as int].1.id);
                    }
                }
                return Some(i);
            }
            i = i + 1;
        }
        None
    }

    /// Puts `member` under `score`; an entry with the same message id leaves
    /// its old place first.
    pub fn insert(&mut self, member: ValqMsg, score: u64)
        requires
            old(self).wf(),
        ensures
            final(self).wf(),
            final(self)@ == insert_sorted(without_id(old(self)@, member.id), (score, member)),
    {
        let id = member.id;
        match self.find_id(id) {
            Some(i) => {
                self.entries.remove(i);
            },
            None => {},
        }
        let ghost s = self@;
        assert(!has_entry_id(s, id)) by {
            if has_entry_id(s, id) {
                let j = choose|j: int| 0 <= j < s.len() && #[trigger] s[j].1.id == id;
                if old(self)@.len() == s.len() {
                    assert(s == old(self)@);
                } else {
                    let i = choose|i: int|
                        0 <= i < old(self)@.len() && #[trigger] old(self)@[i].1.id == id;
                    if j < i {
                        assert(s[j] == old(self)@[j]);
                    } else {
                        assert(s[j] == old(self)@[j + 1]);
                    }
                }
            }
        }
        assert(entries_sorted(s) && entry_ids_distinct(s)) by {
            assert forall|a: int, b: int| 0 <= a < b < s.len() implies entry_before(
                #[trigger] s[a],
                #[trigger] s[b],
            ) by {
                if s.len() < old(self)@.len() {
                    let i = choose|i: int|
                        0 <= i < old(self)@.len() && #[trigger] old(self)@[i].1.id == id;
                    let oa = if a < i { a } else { a + 1 };
                    let ob = if b < i { b } else { b + 1 };
                    assert(s[a] == old(self)@[oa]);
                    assert(s[b] == old(self)@[ob]);
                }
            }
            assert forall|a: int, b: int|
                0 <= a < s.len() && 0 <= b < s.len() && a != b implies #[trigger] s[a].1.id
                != #[trigger] s[b].1.id by {
                if s.len() < old(self)@.len() {
                    let i = choose|i: int|
                        0 <= i < old(self)@.len() && #[trigger] old(self)@[i].1.id == id;
                    let oa = if a < i { a } else { a + 1 };
                    let ob = if b < i { b } else { b + 1 };
                    assert(s[a] == old(self)@[oa]);
                    assert(s[b] == old(self)@[ob]);
                }
            }
        }
        let mut k: usize = 0;
        while k < self.entries.len() && (self.entries[k].0 < score || (self.entries[k].0 == score
            && self.entries[k].1.id < id))
            invariant
                k <= s.len(),
                id == member.id,
                self@ == s,
                self.entries@ == s,
                forall|j: int| 0 <= j < k ==> entry_before(s[j], (score, member)),
            decreases s.len() - k,
        {
            k = k + 1;
        }
        let ghost e = (score, member);
        proof {
            assert forall|j: int| k <= j < s.len() implies entry_before(e, s[j]) by {
                assert(entry_before(s[k as int], s[j]) || j == k);
                assert(s[j].1.id != id);
            }
            lemma_filter_prefix(s, |x: (u64, ValqMsg)| entry_before(x, e), k as int);
            assert(rank(s, e) == k);
        }
        self.entries.insert(k, (score, member));
        proof {
            lemma_insert_sorted_wf(s, e);
        }
    }

    /// Takes out the entry whose message has `member`'s id, if there is one.
    pub fn remove(&mut self, member: &ValqMsg)
        requires
            old(self).wf(),
        ensures
            final(self).wf(),
            final(self)@ == without_id(old(self)@, member.id),
    {
        match self.find_id(member.id) {
            Some(i) => {
                self.entries.remove(i);
                proof {
                    let s = self@;
                    let o = old(self)@;
                    assert forall|a: int, b: int| 0 <= a < b < s.len() implies entry_before(
                        #[trigger] s[a],
                        #[trigger] s[b],
                    ) by {
                        let oa = if a < i { a } else { a + 1 };
                        let ob = if b < i { b } else { b + 1 };
                        assert(s[a] == o[oa]);
                        assert(s[b] == o[ob]);
                    }
                    assert forall|a: int, b: int|
                        0 <= a < s.len() && 0 <= b < s.len() && a != b implies #[trigger] s[a].1.id
                        != #[trigger] s[b].1.id by {
                        let oa = if a < i { a } else { a + 1 };
                        let ob = if b < i { b } else { b + 1 };
                        assert(s[a] == o[oa]);
                        assert(s[b] == o[ob]);
                    }
                }
            },
            None => {},
        }
    }

    pub fn clear(&mut self)
        ensures
            final(self).wf(),
            final(self)@ == Seq::<(u64, ValqMsg)>::empty(),
    {
        self.entries.clear();
    }

    pub fn len(&self) -> (r: u64)
        ensures
            r == self@.len(),
    {
        self.entries.len() as u64
    }

    pub fn entries(&self) -> (r: &Vec<(u64, ValqMsg)>)
        ensures
            r@ == self@,
    {
        &self.entries
    }

    /// Whether some entry holds a message with `member`'s id.
    pub fn contains(&self, member: &ValqMsg) -> (r: bool)
        requires
            self.wf(),
        ensures
            r == has_entry_id(self@, member.id),
    {
        self.find_id(member.id).is_some()
    }

    /// Whether some entry has this score.
    pub fn contains_score(&self, score: u64) -> (r: bool)
        ensures
            r == exists|i: int| 0 <= i < self@.len() && #[trigger] self@[i].0 == score,
    {
        let mut i: usize = 0;
        while i < self.entries.len()
            invariant
                i <= self@.len(),
                self@ == self.entries@,
                forall|j: int| 0 <= j < i ==> self@[j].0 != score,
            decreases self@.len() - i,
        {
            if self.entries[i].0 == score {
                return true;
            }
            i = i + 1;
        }
        false
    }

    /// The entries whose score is at most `now`, in index order.
    pub fn ready_at(&self, now: u64) -> (r: Vec<(u64, ValqMsg)>)
        requires
            self.wf(),
        ensures
            r@ == self@.take(due_count(self@, now)),
    {
        let mut r: Vec<(u64, ValqMsg)> = Vec::new();
        let mut i: usize = 0;
        while i < self.entries.len() && self.entries[i].0 <= now
            invariant
                i <= self@.len(),
                self.wf(),
                self@ == self.entries@,
                r@ == self@.take(i as int),
                forall|j: int| 0 <= j < i ==> self@[j].0 <= now,
            decreases self@.len() - i,
        {
            let e = (self.entries[i].0, self.entries[i].1.clone());
            r.push(e);
            i = i + 1;
            assert(r@ =~= self@.take(i as int));
        }
        proof {
            let s = self@;
            assert forall|j: int| i <= j < s.len() implies !(s[j].0 <= now) by {
                if j > i {
                    assert(entry_before(s[i as int], s[j]));
                }
            }
            lemma_filter_prefix(s, |x: (u64, ValqMsg)| x.0 <= now, i as int);
        }
        r
    }

    /// The entries that are due now, by the wall clock.
    pub fn ready_to_process(&self) -> (r: Vec<(u64, ValqMsg)>)
        requires
            self.wf(),
        ensures
            exists|now: u64| r@ == self@.take(#[trigger] due_count(self@, now)),
    {
        let now = now_as_seconds();
        self.ready_at(now)
    }
}

} // verus!
