//! A table of open recording sessions, keyed by session id.
use vstd::prelude::*;

verus! {

/// Ids and their values, side by side.
struct Entries<V> {
    ids: Vec<String>,
    values: Vec<V>,
}

impl<V> Entries<V> {
    /// Ids and values pair up, and no id occurs twice.
    closed spec fn wf(self) -> bool {
        &&& self.ids.len() == self.values.len()
        &&& forall|i: int, j: int|
            0 <= i < self.ids.len() && 0 <= j < self.ids.len() && i != j ==> self.ids@[i]@
                != self.ids@[j]@
    }

    /// Whether a session with id `k` is open.
    closed spec fn has(self, k: Seq<char>) -> bool {
        exists|i: int| 0 <= i < self.ids.len() && self.ids@[i]@ == k
    }

    /// Where the session `k` is stored.
    closed spec fn slot(self, k: Seq<char>) -> int {
        choose|i: int| 0 <= i < self.ids.len() && self.ids@[i]@ == k
    }

    /// The open sessions and their values.
    closed spec fn view(self) -> Map<Seq<char>, V> {
        Map::new(|k: Seq<char>| self.has(k), |k: Seq<char>| self.values@[self.slot(k)])
    }

    proof fn lemma_slot(self, i: int)
        requires
            self.wf(),
            0 <= i < self.ids.len(),
        ensures
            self.has(self.ids@[i]@),
            self.slot(self.ids@[i]@) == i,
            self.view().contains_key(self.ids@[i]@),
            self.view()[self.ids@[i]@] == self.values@[i],
    {
        let k = self.ids@[i]@;
        assert(self.has(k));
        let j = self.slot(k);
        assert(self.ids@[j]@ == k);
    }

    proof fn lemma_update(self, t: Self, i: int, x: V)
        requires
            self.wf(),
            0 <= i < self.ids.len(),
            t.ids == self.ids,
            t.values@ == self.values@.update(i, x),
        ensures
            t.wf(),
            t.view() == self.view().insert(self.ids@[i]@, x),
    {
        let k = self.ids@[i]@;
        assert forall|q: Seq<char>| #[trigger]
            self.view().insert(k, x).contains_key(q) implies t.view().contains_key(q) && t.view()[q]
            == self.view().insert(k, x)[q] by {
            if q == k {
                t.lemma_slot(i);
            } else {
                let j = self.slot(q);
                self.lemma_slot(j);
                t.lemma_slot(j);
            }
        }
        assert(t.view() =~= self.view().insert(k, x));
    }

    proof fn lemma_update_any(self, i: int)
        requires
            self.wf(),
            0 <= i < self.ids.len(),
        ensures
            forall|t: Self, x: V|
                #![trigger t.view(), self.values@.update(i, x)]
                t.ids == self.ids && t.values@ == self.values@.update(i, x) ==> t.wf() && t.view()
                    == self.view().insert(self.ids@[i]@, x),
    {
        assert forall|t: Self, x: V|
            #![trigger t.view(), self.values@.update(i, x)]
            t.ids == self.ids && t.values@ == self.values@.update(i, x) implies t.wf() && t.view()
            == self.view().insert(self.ids@[i]@, x) by {
            self.lemma_update(t, i, x);
        }
    }

    /// An empty table.
    fn new() -> (t: Self)
        ensures
            t.wf(),
            t.view() == Map::<Seq<char>, V>::empty(),
    {
        let t = Entries { ids: Vec::new(), values: Vec::new() };
        assert(t.view() =~= Map::<Seq<char>, V>::empty());
        t
    }

    fn find(&self, id: &String) -> (res: Option<usize>)
        requires
            self.wf(),
        ensures
            match res {
                Some(i) => i < self.ids.len() && self.ids@[i as int]@ == id@,
                None => !self.has(id@),
            },
    {
        let mut i: usize = 0;
        while i < self.ids.len()
            invariant
                self.wf(),
                i <= self.ids.len(),
                forall|j: int| 0 <= j < i ==> self.ids@[j]@ != id@,
            decreases self.ids.len() - i,
        {
            if self.ids[i] == *id {
                return Some(i);
            }
            i = i + 1;
        }
        None
    }

    /// Whether a session with id `id` is open.
    fn contains(&self, id: &String) -> (res: bool)
        requires
            self.wf(),
        ensures
            res == self.view().contains_key(id@),
    {
        self.find(id).is_some()
    }

    /// Opens the session `id` with `value`, replacing the value of a session
    /// already open under that id.
    fn insert(&mut self, id: String, value: V)
        requires
            old(self).wf(),
        ensures
            final(self).wf(),
            final(self).view() == old(self).view().insert(id@, value),
    {
        let ghost k = id@;
        match self.find(&id) {
            Some(i) => {
                proof {
                    self.lemma_slot(i as int);
                }
                self.values.set(i, value);
                let ghost new_view = self.view();
                assert forall|q: Seq<char>| #[trigger]
                    old(self).view().insert(k, value).contains_key(q) implies new_view.contains_key(q)
                    && new_view[q] == old(self).view().insert(k, value)[q] by {
                    if q == k {
                        self.lemma_slot(i as int);
                    } else {
                        let j = old(self).slot(q);
                        old(self).lemma_slot(j);
                        self.lemma_slot(j);
                    }
                }
                assert(new_view =~= old(self).view().insert(k, value));
            },
            None => {
                self.ids.push(id);
                self.values.push(value);
                let ghost n = self.ids.len() - 1;
                assert(self.wf()) by {
                    assert forall|i: int, j: int|
                        0 <= i < self.ids.len() && 0 <= j < self.ids.len() && i != j implies self.ids@[i]@
                        != self.ids@[j]@ by {
                        if i == n {
                            assert(!old(self).has(k));
                            if self.ids@[j]@ == k {
                                assert(old(self).ids@[j]@ == k);
                            }
                        } else if j == n {
                            assert(!old(self).has(k));
                            if self.ids@[i]@ == k {
                                assert(old(self).ids@[i]@ == k);
                            }
                        } else {
                            assert(self.ids@[i] == old(self).ids@[i]);
                            assert(self.ids@[j] == old(self).ids@[j]);
                        }
                    }
                }
                let ghost new_view = self.view();
                assert forall|q: Seq<char>| #[trigger]
                    old(self).view().insert(k, value).contains_key(q) implies new_view.contains_key(q)
                    && new_view[q] == old(self).view().insert(k, value)[q] by {
                    if q == k {
                        self.lemma_slot(n);
                    } else {
                        let j = old(self).slot(q);
                        old(self).lemma_slot(j);
                        assert(self.ids@[j] == old(self).ids@[j]);
                        self.lemma_slot(j);
                    }
                }
                assert forall|q: Seq<char>| #[trigger] new_view.contains_key(q) implies old(
                    self,
                ).view().insert(k, value).contains_key(q) by {
                    let j = self.slot(q);
                    if j < n {
                        assert(old(self).ids@[j] == self.ids@[j]);
                        assert(old(self).has(q));
                    }
                }
                assert(new_view =~= old(self).view().insert(k, value));
            },
        }
    }

    /// Closes the session `id`, giving back its value; `None` where no such
    /// session is open, and then nothing changes.
    fn remove(&mut self, id: &String) -> (res: Option<V>)
        requires
            old(self).wf(),
        ensures
            final(self).wf(),
            final(self).view() == old(self).view().remove(id@),
            match res {
                Some(v) => old(self).view().contains_key(id@) && v == old(self).view()[id@],
                None => !old(self).view().contains_key(id@),
            },
    {
        let ghost k = id@;
        match self.find(id) {
            None => {
                assert(self.view() =~= old(self).view().remove(k));
                None
            },
            Some(i) => {
                proof {
                    self.lemma_slot(i as int);
                }
                self.ids.remove(i);
                let v = self.values.remove(i);
                let ghost o = old(self);
                assert forall|a: int| 0 <= a < self.ids.len() implies #[trigger] self.ids@[a] == (
                if a < i {
                    o.ids@[a]
                } else {
                    o.ids@[a + 1]
                }) && self.values@[a] == (if a < i {
                    o.values@[a]
                } else {
                    o.values@[a + 1]
                }) by {}
                assert(self.wf()) by {
                    assert forall|a: int, b: int|
                        0 <= a < self.ids.len() && 0 <= b < self.ids.len() && a != b implies self.ids@[a]@
                        != self.ids@[b]@ by {
                        let oa = if a < i {
                            a
                        } else {
                            a + 1
                        };
                        let ob = if b < i {
                            b
                        } else {
                            b + 1
                        };
                        assert(self.ids@[a] == o.ids@[oa]);
                        assert(self.ids@[b] == o.ids@[ob]);
                    }
                }
                let ghost new_view = self.view();
                assert forall|q: Seq<char>| #[trigger]
                    o.view().remove(k).contains_key(q) implies new_view.contains_key(q)
                    && new_view[q] == o.view().remove(k)[q] by {
                    let j = o.slot(q);
                    o.lemma_slot(j);
                    assert(j != i);
                    let a = if j < i {
                        j
                    } else {
                        j - 1
                    };
                    assert(self.ids@[a] == o.ids@[j]);
                    self.lemma_slot(a);
                }
                assert forall|q: Seq<char>| #[trigger] new_view.contains_key(q) implies o.view().remove(
                    k,
                ).contains_key(q) by {
                    let a = self.slot(q);
                    let oa = if a < i {
                        a
                    } else {
                        a + 1
                    };
                    assert(self.ids@[a] == o.ids@[oa]);
                    assert(o.has(q));
                    assert(oa != i);
                }
                assert(new_view =~= o.view().remove(k));
                Some(v)
            },
        }
    }

    /// The value stored at `i`, for writing.
    fn value_mut(&mut self, i: usize) -> (r: &mut V)
        requires
            old(self).wf(),
            i < old(self).ids.len(),
        ensures
            final(self).wf(),
            *r == old(self).values@[i as int],
            final(self).view() == old(self).view().insert(old(self).ids@[i as int]@, *final(r)),
        no_unwind
    {
        proof {
            self.lemma_update_any(i as int);
        }
        &mut self.values[i]
    }
}

/// The open recording sessions: a value per session id, each id at most once.
///
/// The ids are kept in a vector rather than a `HashMap<String, _>`: vstd
/// specifies its hash maps only for key types known to obey its key model
/// (`obeys_key_model`), which `String` is not, and stating it would take an
/// assumption. A table of open sessions stays small, so the linear search
/// costs nothing that matters.
pub struct SessionTable<V> {
    entries: Entries<V>,
}

impl<V> SessionTable<V> {
    #[verifier::type_invariant]
    spec fn inv(self) -> bool {
        self.entries.wf()
    }

    /// The open sessions and their values.
    pub closed spec fn view(self) -> Map<Seq<char>, V> {
        self.entries.view()
    }

    /// An empty table.
    pub fn new() -> (t: Self)
        ensures
            t.view() == Map::<Seq<char>, V>::empty(),
    {
        SessionTable { entries: Entries::new() }
    }

    /// Whether a session with id `id` is open.
    pub fn contains(&self, id: &String) -> (res: bool)
        ensures
            res == self.view().contains_key(id@),
    {
        proof {
            use_type_invariant(self);
        }
        self.entries.contains(id)
    }

    /// Opens the session `id` with `value`, replacing the value of a session
    /// already open under that id.
    pub fn insert(&mut self, id: String, value: V)
        ensures
            final(self).view() == old(self).view().insert(id@, value),
    {
        proof {
            use_type_invariant(&*self);
        }
        let mut e = Entries::new();
        std::mem::swap(&mut e, &mut self.entries);
        e.insert(id, value);
        self.entries = e;
    }

    /// Closes the session `id`, giving back its value; `None` where no such
    /// session is open, and then nothing changes.
    pub fn remove(&mut self, id: &String) -> (res: Option<V>)
        ensures
            final(self).view() == old(self).view().remove(id@),
            match res {
                Some(v) => old(self).view().contains_key(id@) && v == old(self).view()[id@],
                None => !old(self).view().contains_key(id@),
            },
    {
        proof {
            use_type_invariant(&*self);
        }
        let mut e = Entries::new();
        std::mem::swap(&mut e, &mut self.entries);
        let res = e.remove(id);
        self.entries = e;
        res
    }

    /// The value of the open session `id`, for writing; `None` where no such
    /// session is open.
    pub fn get_mut(&mut self, id: &String) -> (res: Option<&mut V>)
        ensures
            match res {
                Some(r) => old(self).view().contains_key(id@) && *r == old(self).view()[id@]
                    && final(self).view() == old(self).view().insert(id@, *final(r)),
                None => !old(self).view().contains_key(id@) && final(self).view() == old(
                    self,
                ).view(),
            },
    {
        proof {
            use_type_invariant(&*self);
        }
        match self.entries.find(id) {
            None => None,
            Some(i) => {
                proof {
                    self.entries.lemma_slot(i as int);
                }
                Some(self.entries.value_mut(i))
            },
        }
    }
}


/// What `insert` then `remove` of one session id do to the table's view: the
/// removal gives back the value inserted, leaves the table as a removal alone
/// would, and a second removal finds nothing.
pub proof fn law_remove_after_insert<V>(m: Map<Seq<char>, V>, k: Seq<char>, v: V)
    ensures
        m.insert(k, v).contains_key(k),
        m.insert(k, v)[k] == v,
        m.insert(k, v).remove(k) == m.remove(k),
        !m.insert(k, v).remove(k).contains_key(k),
{
    assert(m.insert(k, v).remove(k) =~= m.remove(k));
}

/// Inserting leaves every other session as it was.
pub proof fn law_insert_keeps_others<V>(m: Map<Seq<char>, V>, k: Seq<char>, v: V, q: Seq<char>)
    requires
        q != k,
    ensures
        m.insert(k, v).contains_key(q) == m.contains_key(q),
        m.contains_key(q) ==> m.insert(k, v)[q] == m[q],
{
}

} // verus!
