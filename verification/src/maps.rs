//! The two lookup structures that pre-analysis derives from a task set: a
//! ceiling map from task/resource ids to priorities, and a usage map from
//! task ids to the resource ids their inner traces mention. Both are small
//! association lists with unique keys, viewed as mathematical maps.

use vstd::prelude::*;

verus! {

/// Maps a task or resource id to the highest priority among the tasks whose
/// trace mentions that id (its priority ceiling).
pub struct IdPrio {
    entries: Vec<(String, u8)>,
}

impl View for IdPrio {
    type V = Map<Seq<char>, u8>;

    closed spec fn view(&self) -> Map<Seq<char>, u8> {
        Map::new(
            |k: Seq<char>| exists|i: int|
                0 <= i < self.entries@.len() && (#[trigger] self.entries@[i].0@) == k,
            |k: Seq<char>| self.entries@[choose|i: int|
                0 <= i < self.entries@.len() && (#[trigger] self.entries@[i].0@) == k].1,
        )
    }
}

impl IdPrio {
    /// Keys are pairwise distinct, so each id has one ceiling.
    pub closed spec fn wf(&self) -> bool {
        forall|i: int, j: int|
            0 <= i < j < self.entries@.len() ==> self.entries@[i].0@ != self.entries@[j].0@
    }

    proof fn lemma_view_at(&self, j: int)
        requires
            self.wf(),
            0 <= j < self.entries@.len(),
        ensures
            self@.contains_key(self.entries@[j].0@),
            self@[self.entries@[j].0@] == self.entries@[j].1,
    {
        let k = self.entries@[j].0@;
        assert(self.entries@[j].0@ == k);
        let i = choose|i: int|
            0 <= i < self.entries@.len() && (#[trigger] self.entries@[i].0@) == k;
        assert(i == j);
    }

    proof fn lemma_view_absent(&self, k: Seq<char>)
        requires
            forall|i: int| 0 <= i < self.entries@.len() ==> (#[trigger] self.entries@[i].0@) != k,
        ensures
            !self@.contains_key(k),
    {
    }

    /// An empty ceiling map.
    pub fn new() -> (r: Self)
        ensures
            r.wf(),
            r@ == Map::<Seq<char>, u8>::empty(),
    {
        let r = IdPrio { entries: Vec::new() };
        proof {
            assert(r@ =~= Map::<Seq<char>, u8>::empty());
        }
        r
    }

    /// The ceiling recorded for `id`, if any.
    pub fn get(&self, id: &String) -> (r: Option<u8>)
        requires
            self.wf(),
        ensures
            match r {
                Some(p) => self@.contains_key(id@) && self@[id@] == p,
                None => !self@.contains_key(id@),
            },
    {
        for j in 0..self.entries.len()
            invariant
                self.wf(),
                forall|i: int| 0 <= i < j ==> (#[trigger] self.entries@[i].0@) != id@,
        {
            if self.entries[j].0 == *id {
                let p = self.entries[j].1;
                proof {
                    self.lemma_view_at(j as int);
                }
                return Some(p);
            }
        }
        proof {
            self.lemma_view_absent(id@);
        }
        None
    }

    /// Records `prio` as the ceiling of `id`, replacing any earlier entry.
    pub fn set(&mut self, id: &String, prio: u8)
        requires
            old(self).wf(),
        ensures
            final(self).wf(),
            final(self)@ == old(self)@.insert(id@, prio),
    {
        let mut j: usize = 0;
        while j < self.entries.len()
            invariant
                *self == *old(self),
                old(self).wf(),
                j <= self.entries.len(),
                forall|i: int| 0 <= i < j ==> (#[trigger] self.entries@[i].0@) != id@,
            decreases self.entries.len() - j,
        {
            if self.entries[j].0 == *id {
                self.entries[j] = (id.clone(), prio);
                proof {
                    self.lemma_set_updated(*old(self), j as int, id@, prio);
                }
                return;
            }
            j = j + 1;
        }
        self.entries.push((id.clone(), prio));
        proof {
            self.lemma_set_pushed(*old(self), id@, prio);
        }
    }

    proof fn lemma_set_updated(&self, prev: Self, j: int, k: Seq<char>, prio: u8)
        requires
            prev.wf(),
            0 <= j < prev.entries@.len(),
            prev.entries@[j].0@ == k,
            self.entries@ == prev.entries@.update(j, (self.entries@[j].0, prio)),
            self.entries@[j].0@ == k,
        ensures
            self.wf(),
            self@ == prev@.insert(k, prio),
    {
        assert(forall|i: int|
            0 <= i < self.entries@.len() ==> (#[trigger] self.entries@[i].0@)
                == prev.entries@[i].0@);
        assert forall|k2: Seq<char>| #[trigger] self@.contains_key(k2) implies prev@.insert(
            k,
            prio,
        ).contains_key(k2) by {
            let i = choose|i: int|
                0 <= i < self.entries@.len() && (#[trigger] self.entries@[i].0@) == k2;
            if i != j {
                prev.lemma_view_at(i);
            }
        }
        assert forall|k2: Seq<char>| #[trigger] prev@.insert(k, prio).contains_key(k2) implies self@.contains_key(
            k2,
        ) by {
            if k2 == k {
                assert(self.entries@[j].0@ == k2);
            } else {
                let i = choose|i: int|
                    0 <= i < prev.entries@.len() && (#[trigger] prev.entries@[i].0@) == k2;
                assert(self.entries@[i].0@ == k2);
            }
        }
        assert forall|k2: Seq<char>| #[trigger] self@.contains_key(k2) implies self@[k2]
            == prev@.insert(k, prio)[k2] by {
            let i = choose|i: int|
                0 <= i < self.entries@.len() && (#[trigger] self.entries@[i].0@) == k2;
            self.lemma_view_at(i);
            if k2 == k {
                assert(i == j);
            } else {
                assert(i != j);
                prev.lemma_view_at(i);
            }
        }
        assert(self@ =~= prev@.insert(k, prio));
    }

    proof fn lemma_set_pushed(&self, prev: Self, k: Seq<char>, prio: u8)
        requires
            prev.wf(),
            forall|i: int| 0 <= i < prev.entries@.len() ==> (#[trigger] prev.entries@[i].0@) != k,
            self.entries@.len() == prev.entries@.len() + 1,
            self.entries@ == prev.entries@.push(self.entries@.last()),
            self.entries@.last().0@ == k,
            self.entries@.last().1 == prio,
        ensures
            self.wf(),
            self@ == prev@.insert(k, prio),
    {
        let n = prev.entries@.len() as int;
        assert forall|k2: Seq<char>| #[trigger] self@.contains_key(k2) implies prev@.insert(
            k,
            prio,
        ).contains_key(k2) by {
            let i = choose|i: int|
                0 <= i < self.entries@.len() && (#[trigger] self.entries@[i].0@) == k2;
            if i < n {
                prev.lemma_view_at(i);
            }
        }
        assert forall|k2: Seq<char>| #[trigger] prev@.insert(k, prio).contains_key(k2) implies self@.contains_key(
            k2,
        ) by {
            if k2 == k {
                assert(self.entries@[n].0@ == k2);
            } else {
                let i = choose|i: int|
                    0 <= i < prev.entries@.len() && (#[trigger] prev.entries@[i].0@) == k2;
                assert(self.entries@[i].0@ == k2);
            }
        }
        assert forall|k2: Seq<char>| #[trigger] self@.contains_key(k2) implies self@[k2]
            == prev@.insert(k, prio)[k2] by {
            let i = choose|i: int|
                0 <= i < self.entries@.len() && (#[trigger] self.entries@[i].0@) == k2;
            self.lemma_view_at(i);
            if k2 == k {
                assert(i == n);
            } else {
                assert(i < n);
                prev.lemma_view_at(i);
            }
        }
        assert(self@ =~= prev@.insert(k, prio));
    }
}

/// Maps a task id to the resource ids that appear anywhere in that task's
/// inner trace segments, flattened across nesting depth.
pub struct TaskResources {
    entries: Vec<(String, Vec<String>)>,
}

impl View for TaskResources {
    type V = Map<Seq<char>, Seq<Seq<char>>>;

    closed spec fn view(&self) -> Map<Seq<char>, Seq<Seq<char>>> {
        Map::new(
            |k: Seq<char>| exists|i: int|
                0 <= i < self.entries@.len() && (#[trigger] self.entries@[i].0@) == k,
            |k: Seq<char>| self.entries@[choose|i: int|
                0 <= i < self.entries@.len() && (#[trigger] self.entries@[i].0@) == k].1.deep_view(),
        )
    }
}

fn vec_contains_str(v: &Vec<String>, s: &String) -> (r: bool)
    ensures
        r == v.deep_view().contains(s@),
{
    for j in 0..v.len()
        invariant
            forall|i: int| 0 <= i < j ==> (#[trigger] v@[i]@) != s@,
    {
        if v[j] == *s {
            proof {
                assert(v.deep_view()[j as int] == s@);
            }
            return true;
        }
    }
    proof {
        assert(forall|i: int| 0 <= i < v.deep_view().len() ==> (#[trigger] v.deep_view()[i])
            != s@);
    }
    false
}

impl TaskResources {
    /// Keys are pairwise distinct, so each task has one resource set.
    pub closed spec fn wf(&self) -> bool {
        forall|i: int, j: int|
            0 <= i < j < self.entries@.len() ==> self.entries@[i].0@ != self.entries@[j].0@
    }

    proof fn lemma_view_at(&self, j: int)
        requires
            self.wf(),
            0 <= j < self.entries@.len(),
        ensures
            self@.contains_key(self.entries@[j].0@),
            self@[self.entries@[j].0@] == self.entries@[j].1.deep_view(),
    {
        let k = self.entries@[j].0@;
        assert(self.entries@[j].0@ == k);
        let i = choose|i: int|
            0 <= i < self.entries@.len() && (#[trigger] self.entries@[i].0@) == k;
        assert(i == j);
    }

    proof fn lemma_view_absent(&self, k: Seq<char>)
        requires
            forall|i: int| 0 <= i < self.entries@.len() ==> (#[trigger] self.entries@[i].0@) != k,
        ensures
            !self@.contains_key(k),
    {
    }

    /// An empty usage map.
    pub fn new() -> (r: Self)
        ensures
            r.wf(),
            r@ == Map::<Seq<char>, Seq<Seq<char>>>::empty(),
    {
        let r = TaskResources { entries: Vec::new() };
        proof {
            assert(r@ =~= Map::<Seq<char>, Seq<Seq<char>>>::empty());
        }
        r
    }

    /// The resources recorded for the task `id`, if any.
    pub fn get(&self, id: &String) -> (r: Option<&Vec<String>>)
        requires
            self.wf(),
        ensures
            match r {
                Some(v) => self@.contains_key(id@) && v.deep_view() == self@[id@],
                None => !self@.contains_key(id@),
            },
    {
        for j in 0..self.entries.len()
            invariant
                self.wf(),
                forall|i: int| 0 <= i < j ==> (#[trigger] self.entries@[i].0@) != id@,
        {
            if self.entries[j].0 == *id {
                proof {
                    self.lemma_view_at(j as int);
                }
                return Some(&self.entries[j].1);
            }
        }
        proof {
            self.lemma_view_absent(id@);
        }
        None
    }

    /// Adds `resource` to the resource set of the task `id`, creating the
    /// set on first insertion; already-present resources are kept once.
    pub fn add(&mut self, id: &String, resource: &String)
        requires
            old(self).wf(),
        ensures
            final(self).wf(),
            forall|k: Seq<char>| #[trigger] final(self)@.contains_key(k)
                <==> old(self)@.contains_key(k) || k == id@,
            forall|k: Seq<char>| #[trigger] old(self)@.contains_key(k) && k != id@
                ==> final(self)@[k] == old(self)@[k],
            forall|rid: Seq<char>| #[trigger] final(self)@[id@].contains(rid)
                <==> (old(self)@.contains_key(id@) && old(self)@[id@].contains(rid))
                    || rid == resource@,
    {
        let mut j: usize = 0;
        while j < self.entries.len()
            invariant
                *self == *old(self),
                old(self).wf(),
                j <= self.entries.len(),
                forall|i: int| 0 <= i < j ==> (#[trigger] self.entries@[i].0@) != id@,
            decreases self.entries.len() - j,
        {
            if self.entries[j].0 == *id {
                proof {
                    self.lemma_view_at(j as int);
                }
                if vec_contains_str(&self.entries[j].1, resource) {
                    return;
                }
                self.entries[j].1.push(resource.clone());
                proof {
                    assert(self.entries@[j as int].1.deep_view() =~= old(self).entries@[j as int].1.deep_view().push(
                        resource@,
                    ));
                    self.lemma_add_extended(*old(self), j as int, id@, resource@);
                }
                return;
            }
            j = j + 1;
        }
        let mut rs: Vec<String> = Vec::new();
        rs.push(resource.clone());
        self.entries.push((id.clone(), rs));
        proof {
            assert(self.entries@.last().1.deep_view() =~= Seq::<Seq<char>>::empty().push(
                resource@,
            ));
            self.lemma_add_pushed(*old(self), id@, resource@);
        }
    }

    proof fn lemma_add_extended(&self, prev: Self, j: int, k: Seq<char>, r: Seq<char>)
        requires
            prev.wf(),
            0 <= j < prev.entries@.len(),
            prev.entries@[j].0@ == k,
            self.entries@ == prev.entries@.update(
                j,
                (self.entries@[j].0, self.entries@[j].1),
            ),
            self.entries@[j].0@ == k,
            self.entries@[j].1.deep_view() == prev.entries@[j].1.deep_view().push(r),
        ensures
            self.wf(),
            forall|k2: Seq<char>| #[trigger] self@.contains_key(k2) <==> prev@.contains_key(k2)
                || k2 == k,
            forall|k2: Seq<char>| #[trigger] prev@.contains_key(k2) && k2 != k ==> self@[k2]
                == prev@[k2],
            forall|rid: Seq<char>| #[trigger] self@[k].contains(rid) <==> (prev@.contains_key(k)
                && prev@[k].contains(rid)) || rid == r,
    {
        assert(forall|i: int|
            0 <= i < self.entries@.len() ==> (#[trigger] self.entries@[i].0@)
                == prev.entries@[i].0@);
        assert forall|k2: Seq<char>| #[trigger] self@.contains_key(k2) implies prev@.contains_key(
            k2,
        ) || k2 == k by {
            let i = choose|i: int|
                0 <= i < self.entries@.len() && (#[trigger] self.entries@[i].0@) == k2;
            prev.lemma_view_at(i);
        }
        assert forall|k2: Seq<char>| prev@.contains_key(k2) || k2 == k implies #[trigger] self@.contains_key(
            k2,
        ) by {
            if k2 == k {
                assert(self.entries@[j].0@ == k2);
            } else {
                let i = choose|i: int|
                    0 <= i < prev.entries@.len() && (#[trigger] prev.entries@[i].0@) == k2;
                assert(self.entries@[i].0@ == k2);
            }
        }
        assert forall|k2: Seq<char>| #[trigger] prev@.contains_key(k2) && k2 != k implies self@[k2]
            == prev@[k2] by {
            let i = choose|i: int|
                0 <= i < prev.entries@.len() && (#[trigger] prev.entries@[i].0@) == k2;
            prev.lemma_view_at(i);
            assert(self.entries@[i].0@ == k2);
            self.lemma_view_at(i);
            assert(i != j);
        }
        self.lemma_view_at(j);
        prev.lemma_view_at(j);
        assert(self@[k] == prev@[k].push(r));
        assert forall|rid: Seq<char>| #[trigger] self@[k].contains(rid) implies (prev@.contains_key(
            k,
        ) && prev@[k].contains(rid)) || rid == r by {
            let i = choose|i: int| 0 <= i < self@[k].len() && self@[k][i] == rid;
            if i < prev@[k].len() {
                assert(prev@[k][i] == rid);
            }
        }
        assert forall|rid: Seq<char>| (prev@.contains_key(k) && prev@[k].contains(rid)) || rid == r
            implies #[trigger] self@[k].contains(rid) by {
            if rid == r {
                assert(self@[k].last() == r);
            } else {
                let i = choose|i: int| 0 <= i < prev@[k].len() && prev@[k][i] == rid;
                assert(self@[k][i] == rid);
            }
        }
    }

    proof fn lemma_add_pushed(&self, prev: Self, k: Seq<char>, r: Seq<char>)
        requires
            prev.wf(),
            forall|i: int| 0 <= i < prev.entries@.len() ==> (#[trigger] prev.entries@[i].0@) != k,
            self.entries@.len() == prev.entries@.len() + 1,
            self.entries@ == prev.entries@.push(self.entries@.last()),
            self.entries@.last().0@ == k,
            self.entries@.last().1.deep_view() == Seq::<Seq<char>>::empty().push(r),
        ensures
            self.wf(),
            forall|k2: Seq<char>| #[trigger] self@.contains_key(k2) <==> prev@.contains_key(k2)
                || k2 == k,
            forall|k2: Seq<char>| #[trigger] prev@.contains_key(k2) && k2 != k ==> self@[k2]
                == prev@[k2],
            forall|rid: Seq<char>| #[trigger] self@[k].contains(rid) <==> (prev@.contains_key(k)
                && prev@[k].contains(rid)) || rid == r,
    {
        let n = prev.entries@.len() as int;
        assert forall|k2: Seq<char>| #[trigger] self@.contains_key(k2) implies prev@.contains_key(
            k2,
        ) || k2 == k by {
            let i = choose|i: int|
                0 <= i < self.entries@.len() && (#[trigger] self.entries@[i].0@) == k2;
            if i < n {
                prev.lemma_view_at(i);
            }
        }
        assert forall|k2: Seq<char>| prev@.contains_key(k2) || k2 == k implies #[trigger] self@.contains_key(
            k2,
        ) by {
            if k2 == k {
                assert(self.entries@[n].0@ == k2);
            } else {
                let i = choose|i: int|
                    0 <= i < prev.entries@.len() && (#[trigger] prev.entries@[i].0@) == k2;
                assert(self.entries@[i].0@ == k2);
            }
        }
        assert forall|k2: Seq<char>| #[trigger] prev@.contains_key(k2) && k2 != k implies self@[k2]
            == prev@[k2] by {
            let i = choose|i: int|
                0 <= i < prev.entries@.len() && (#[trigger] prev.entries@[i].0@) == k2;
            prev.lemma_view_at(i);
            assert(self.entries@[i].0@ == k2);
            self.lemma_view_at(i);
        }
        self.lemma_view_at(n);
        prev.lemma_view_absent(k);
        assert(self@[k] == Seq::<Seq<char>>::empty().push(r));
        assert forall|rid: Seq<char>| #[trigger] self@[k].contains(rid) implies rid == r by {
            let i = choose|i: int| 0 <= i < self@[k].len() && self@[k][i] == rid;
            assert(i == 0);
        }
        assert(self@[k][0] == r);
    }
}

} // verus!
