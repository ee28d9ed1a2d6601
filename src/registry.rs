use vstd::prelude::*;

use crate::text::str_eq;

verus! {

/// The characters of each string.
pub open spec fn string_views(v: Seq<String>) -> Seq<Seq<char>> {
    v.map_values(|s: String| s@)
}

/// No name occurs twice.
pub open spec fn names_distinct(s: Seq<Seq<char>>) -> bool {
    forall|i: int, j: int| 0 <= i < j < s.len() ==> #[trigger] s[i] != #[trigger] s[j]
}

/// The set of known queue names, in the order they were registered.
#[derive(Debug)]
pub struct QueueRegistry {
    names: Vec<String>,
}

impl View for QueueRegistry {
    type V = Seq<Seq<char>>;

    closed spec fn view(&self) -> Seq<Seq<char>> {
        string_views(self.names@)
    }
}

impl QueueRegistry {
    pub open spec fn wf(&self) -> bool {
        names_distinct(self@)
    }

    pub fn new() -> (r: Self)
        ensures
            r.wf(),
            r@ == Seq::<Seq<char>>::empty(),
    {
        let r = QueueRegistry { names: Vec::new() };
        assert(r@ =~= Seq::<Seq<char>>::empty());
        r
    }

    /// Position of a name.
    fn find(&self, name: &str) -> (r: Option<usize>)
        ensures
            match r {
                Some(i) => i < self@.len() && self@[i as int] == name@,
                None => !self@.contains(name@),
            },
    {
        let mut i: usize = 0;
        while i < self.names.len()
            invariant
                i <= self@.len(),
                self@ == string_views(self.names@),
                forall|j: int| 0 <= j < i ==> self@[j] != name@,
            decreases self@.len() - i,
        {
            if str_eq(self.names[i].as_str(), name) {
                return Some(i);
            }
            i = i + 1;
        }
        None
    }

    pub fn contains(&self, name: &str) -> (r: bool)
        ensures
            r == self@.contains(name@),
    {
        self.find(name).is_some()
    }

    /// Adds a name that is not known yet.
    pub fn register(&mut self, name: &str)
        requires
            old(self).wf(),
        ensures
            final(self).wf(),
            old(self)@.contains(name@) ==> final(self)@ == old(self)@,
            !old(self)@.contains(name@) ==> final(self)@ == old(self)@.push(name@),
    {
        if self.find(name).is_none() {
            self.names.push(name.to_owned());
            assert(self@ =~= old(self)@.push(name@));
        }
    }

    /// Forgets a name; nothing happens to an unknown one.
    pub fn deregister(&mut self, name: &str)
        requires
            old(self).wf(),
        ensures
            final(self).wf(),
            !final(self)@.contains(name@),
            final(self)@.to_set() == old(self)@.to_set().remove(name@),
            !old(self)@.contains(name@) ==> final(self)@ == old(self)@,
    {
        match self.find(name) {
            Some(i) => {
                let ghost o = old(self)@;
                self.names.remove(i);
                proof {
                    let s = self@;
                    assert(s =~= o.remove(i as int));
                    assert(!s.contains(name@)) by {
                        if s.contains(name@) {
                            let j = choose|j: int| 0 <= j < s.len() && s[j] == name@;
                            if j < i {
                                assert(o[j] == o[i as int]);
                            } else {
                                assert(o[j + 1] == o[i as int]);
                            }
                        }
                    }
                    assert(s.to_set() =~= o.to_set().remove(name@)) by {
                        assert forall|x: Seq<char>| s.to_set().contains(x) implies o.to_set().remove(
                            name@,
                        ).contains(x) by {
                            let j = choose|j: int| 0 <= j < s.len() && s[j] == x;
                            if j < i {
                                assert(o[j] == x);
                            } else {
                                assert(o[j + 1] == x);
                            }
                        }
                        assert forall|x: Seq<char>| o.to_set().remove(name@).contains(x) implies s.to_set().contains(x) by {
                            let j = choose|j: int| 0 <= j < o.len() && o[j] == x;
                            if j < i {
                                assert(s[j] == x);
                            } else if j > i {
                                assert(s[j - 1] == x);
                            }
                        }
                    }
                    assert forall|a: int, b: int| 0 <= a < b < s.len() implies #[trigger] s[a]
                        != #[trigger] s[b] by {
                        let oa = if a < i { a } else { a + 1 };
                        let ob = if b < i { b } else { b + 1 };
                        assert(s[a] == o[oa] && s[b] == o[ob]);
                    }
                }
            },
            None => {},
        }
    }

    /// All known names, each once.
    pub fn names(&self) -> (r: Vec<String>)
        ensures
            string_views(r@) == self@,
    {
        let mut r: Vec<String> = Vec::new();
        let mut i: usize = 0;
        while i < self.names.len()
            invariant
                i <= self@.len(),
                self@ == string_views(self.names@),
                string_views(r@) == self@.take(i as int),
            decreases self@.len() - i,
        {
            let ghost before = r@;
            let c = self.names[i].clone();
            r.push(c);
            proof {
                assert(string_views(before).len() == i);
                assert(before.len() == i);
                assert(r@ == before.push(self.names@[i as int]));
                assert(self@[i as int] == self.names@[i as int]@);
                assert forall|j: int| 0 <= j < i + 1 implies string_views(r@)[j] == self@[j] by {
                    if j < i {
                        assert(string_views(before)[j] == self@.take(i as int)[j]);
                        assert(r@[j] == before[j]);
                    }
                }
            }
            i = i + 1;
            assert(string_views(r@) =~= self@.take(i as int));
        }
        assert(self@.take(i as int) =~= self@);
        r
    }

    pub fn len(&self) -> (r: usize)
        ensures
            r == self@.len(),
    {
        self.names.len()
    }
}

/// The names of every known queue, for a sweep over all of them.
pub fn get_all_queues(registry: &QueueRegistry) -> (r: Vec<String>)
    ensures
        string_views(r@) == registry@,
{
    registry.names()
}

} // verus!
