//! The live holograms, each under its destination path. A destination names at
//! most one task.

use vstd::prelude::*;

verus! {

/// The destinations and their tasks, held as a map.
pub open spec fn map_of<T>(s: Seq<(String, T)>) -> Map<Seq<char>, T>
    decreases s.len(),
{
    if s.len() == 0 {
        Map::empty()
    } else {
        map_of(s.drop_last()).insert(s.last().0@, s.last().1)
    }
}

/// No destination appears twice.
pub open spec fn keys_unique<T>(s: Seq<(String, T)>) -> bool {
    forall|i: int, j: int| 0 <= i < j < s.len() ==> s[i].0@ != s[j].0@
}

/// The live tasks, keyed by destination.
pub struct Registry<T> {
    entries: Vec<(String, T)>,
}

proof fn lemma_map_of_keys<T>(s: Seq<(String, T)>, k: Seq<char>)
    ensures
        map_of(s).contains_key(k) <==> exists|i: int| 0 <= i < s.len() && s[i].0@ == k,
    decreases s.len(),
{
    if s.len() > 0 {
        lemma_map_of_keys(s.drop_last(), k);
        if map_of(s.drop_last()).contains_key(k) {
            let i = choose|i: int| 0 <= i < s.len() - 1 && s.drop_last()[i].0@ == k;
            assert(s[i].0@ == k);
        }
        if exists|i: int| 0 <= i < s.len() && s[i].0@ == k {
            let i = choose|i: int| 0 <= i < s.len() && s[i].0@ == k;
            if i < s.len() - 1 {
                assert(s.drop_last()[i].0@ == k);
            }
        }
    }
}

proof fn lemma_map_of_value<T>(s: Seq<(String, T)>, i: int)
    requires
        keys_unique(s),
        0 <= i < s.len(),
    ensures
        map_of(s).contains_key(s[i].0@),
        map_of(s)[s[i].0@] == s[i].1,
    decreases s.len(),
{
    if i < s.len() - 1 {
        assert(keys_unique(s.drop_last()));
        lemma_map_of_value(s.drop_last(), i);
        assert(s.drop_last()[i] == s[i]);
    }
}

proof fn lemma_map_of_remove<T>(s: Seq<(String, T)>, i: int)
    requires
        keys_unique(s),
        0 <= i < s.len(),
    ensures
        keys_unique(s.remove(i)),
        map_of(s.remove(i)) =~= map_of(s).remove(s[i].0@),
    decreases s.len(),
{
    let k = s[i].0@;
    let rest = s.drop_last();
    assert(keys_unique(rest));
    if i == s.len() - 1 {
        assert(s.remove(i) =~= rest);
        lemma_map_of_keys(rest, k);
    } else {
        lemma_map_of_remove(rest, i);
        assert(s.remove(i) =~= rest.remove(i).push(s.last()));
        assert(rest.remove(i).push(s.last()).drop_last() =~= rest.remove(i));
        assert(s.last().0@ != k);
    }
}

proof fn lemma_map_of_push<T>(s: Seq<(String, T)>, k: String, v: T)
    requires
        keys_unique(s),
        !map_of(s).contains_key(k@),
    ensures
        keys_unique(s.push((k, v))),
        map_of(s.push((k, v))) == map_of(s).insert(k@, v),
{
    lemma_map_of_keys(s, k@);
    assert(s.push((k, v)).drop_last() =~= s);
}

impl<T> Registry<T> {
    /// The tasks by destination.
    pub closed spec fn view(&self) -> Map<Seq<char>, T> {
        map_of(self.entries@)
    }

    pub closed spec fn wf(&self) -> bool {
        keys_unique(self.entries@)
    }

    pub fn new() -> (r: Registry<T>)
        ensures
            r.wf(),
            r.view() == Map::<Seq<char>, T>::empty(),
    {
        Registry { entries: Vec::new() }
    }

    /// Where `dest` stands among the entries, if anywhere.
    fn find(&self, dest: &str) -> (r: Option<usize>)
        requires
            self.wf(),
        ensures
            r is None ==> !self.view().contains_key(dest@),
            r matches Some(i) ==> i < self.entries@.len() && self.entries@[i as int].0@ == dest@,
    {
        let d = String::from_str(dest);
        let mut i: usize = 0;
        while i < self.entries.len()
            invariant
                i <= self.entries@.len(),
                d@ == dest@,
                forall|j: int| 0 <= j < i ==> self.entries@[j].0@ != dest@,
            decreases self.entries@.len() - i,
        {
            if self.entries[i].0 == d {
                return Some(i);
            }
            i = i + 1;
        }
        proof {
            lemma_map_of_keys(self.entries@, dest@);
        }
        None
    }

    pub fn contains(&self, dest: &str) -> (r: bool)
        requires
            self.wf(),
        ensures
            r == self.view().contains_key(dest@),
    {
        match self.find(dest) {
            None => false,
            Some(i) => {
                proof {
                    lemma_map_of_value(self.entries@, i as int);
                }
                true
            },
        }
    }

    pub fn len(&self) -> (r: usize)
        requires
            self.wf(),
        ensures
            r == self.view().len(),
    {
        proof {
            self.lemma_len();
        }
        self.entries.len()
    }

    /// A registry holds finitely many tasks.
    pub proof fn lemma_view_finite(&self)
        requires
            self.wf(),
        ensures
            self.view().dom().finite(),
    {
        lemma_map_of_len(self.entries@);
    }

    proof fn lemma_len(&self)
        requires
            self.wf(),
        ensures
            self.view().len() == self.entries@.len(),
            self.view().dom().finite(),
    {
        lemma_map_of_len(self.entries@);
    }

    /// Puts `task` under `dest`, and hands back the task that was there.
    pub fn insert(&mut self, dest: String, task: T) -> (r: Option<T>)
        requires
            old(self).wf(),
        ensures
            final(self).wf(),
            final(self).view() == old(self).view().insert(dest@, task),
            r == (if old(self).view().contains_key(dest@) {
                Some(old(self).view()[dest@])
            } else {
                None::<T>
            }),
    {
        let ghost before = self.entries@;
        let found = self.find(dest.as_str());
        let previous = match found {
            None => None,
            Some(i) => {
                proof {
                    lemma_map_of_value(before, i as int);
                    lemma_map_of_remove(before, i as int);
                }
                let (_, t) = self.entries.remove(i);
                Some(t)
            },
        };
        proof {
            lemma_map_of_keys(self.entries@, dest@);
            if let Some(i) = found {
                assert(!map_of(before).remove(dest@).contains_key(dest@));
            }
            lemma_map_of_push(self.entries@, dest, task);
        }
        self.entries.push((dest, task));
        proof {
            assert(map_of(self.entries@) =~= map_of(before).insert(dest@, task));
        }
        previous
    }

    /// Takes the task at `dest` out, if there is one.
    pub fn remove(&mut self, dest: &str) -> (r: Option<T>)
        requires
            old(self).wf(),
        ensures
            final(self).wf(),
            final(self).view() == old(self).view().remove(dest@),
            r == (if old(self).view().contains_key(dest@) {
                Some(old(self).view()[dest@])
            } else {
                None::<T>
            }),
    {
        let ghost before = self.entries@;
        match self.find(dest) {
            None => {
                assert(map_of(before) =~= map_of(before).remove(dest@));
                None
            },
            Some(i) => {
                proof {
                    lemma_map_of_value(before, i as int);
                    lemma_map_of_remove(before, i as int);
                }
                let (_, t) = self.entries.remove(i);
                Some(t)
            },
        }
    }

    /// Takes out some entry, and hands back `None` only when none is left.
    pub fn pop(&mut self) -> (r: Option<(String, T)>)
        requires
            old(self).wf(),
        ensures
            final(self).wf(),
            r is None <==> old(self).view().len() == 0,
            r matches Some((d, t)) ==> old(self).view().contains_key(d@) && old(self).view()[d@]
                == t && final(self).view() == old(self).view().remove(d@),
            r is None ==> final(self).view() == old(self).view(),
    {
        proof {
            self.lemma_len();
        }
        let ghost before = self.entries@;
        let r = self.entries.pop();
        proof {
            if before.len() > 0 {
                let i = before.len() - 1;
                lemma_map_of_value(before, i);
                lemma_map_of_remove(before, i);
                assert(before.remove(i) =~= self.entries@);
            }
        }
        r
    }
}

proof fn lemma_map_of_len<T>(s: Seq<(String, T)>)
    requires
        keys_unique(s),
    ensures
        map_of(s).dom().finite(),
        map_of(s).len() == s.len(),
    decreases s.len(),
{
    if s.len() > 0 {
        let rest = s.drop_last();
        assert(keys_unique(rest));
        lemma_map_of_len(rest);
        lemma_map_of_keys(rest, s.last().0@);
        if map_of(rest).contains_key(s.last().0@) {
            let i = choose|i: int| 0 <= i < rest.len() && rest[i].0@ == s.last().0@;
            assert(s[i].0@ == s[s.len() - 1].0@);
        }
    }
}

} // verus!
