//! The session-lifecycle registry: a map from session identifier to its
//! slot, keys unique at any instant.
//!
//! A start first reserves its id — the atomic check-and-reserve that refuses
//! a second start on a live id — then opens its resources outside the
//! registry (the caller holds the registry under mutual exclusion only for
//! the map update itself, never for I/O), and finally installs the running
//! session over its reservation. A stop, or a forwarder tearing itself down,
//! removes the entry with an idempotent remove-if-present, so of two racing
//! removers at most one observes success and an entry leaves the registry
//! exactly once.

use vstd::prelude::*;

verus! {

/// What the registry holds under an id.
pub enum SessionSlot<V> {
    /// A start in progress holds the id while it opens its resources.
    Reserved,
    /// A running session's handle.
    Active(V),
}

/// The registry itself. `V` is whatever handle the caller keeps per running
/// session (say, a task handle and a cancellation signal).
pub struct Registry<V> {
    entries: Vec<(String, SessionSlot<V>)>,
}

/// No two entries share an id.
pub open spec fn unique_keys<V>(s: Seq<(String, SessionSlot<V>)>) -> bool {
    forall|i: int, j: int| 0 <= i < j < s.len() ==> s[i].0@ != s[j].0@
}

/// The map an entry sequence stands for.
pub open spec fn entries_map<V>(s: Seq<(String, SessionSlot<V>)>) -> Map<
    Seq<char>,
    SessionSlot<V>,
>
    decreases s.len(),
{
    if s.len() == 0 {
        Map::empty()
    } else {
        entries_map(s.drop_last()).insert(s.last().0@, s.last().1)
    }
}

proof fn lemma_map_contains<V>(s: Seq<(String, SessionSlot<V>)>, id: Seq<char>)
    ensures
        entries_map(s).contains_key(id) <==> exists|i: int| 0 <= i < s.len() && s[i].0@ == id,
    decreases s.len(),
{
    if s.len() > 0 {
        lemma_map_contains(s.drop_last(), id);
        if s.last().0@ == id {
            assert(s[s.len() - 1].0@ == id);
        } else if entries_map(s).contains_key(id) {
            let i = choose|i: int| 0 <= i < s.drop_last().len() && s.drop_last()[i].0@ == id;
            assert(s[i].0@ == id);
        } else if exists|i: int| 0 <= i < s.len() && s[i].0@ == id {
            let i = choose|i: int| 0 <= i < s.len() && s[i].0@ == id;
            assert(s.drop_last()[i].0@ == id);
        }
    }
}

proof fn lemma_map_index<V>(s: Seq<(String, SessionSlot<V>)>, i: int)
    requires
        unique_keys(s),
        0 <= i < s.len(),
    ensures
        entries_map(s).contains_key(s[i].0@),
        entries_map(s)[s[i].0@] == s[i].1,
    decreases s.len(),
{
    if i < s.len() - 1 {
        lemma_map_index(s.drop_last(), i);
        assert(s.drop_last()[i] == s[i]);
        assert(s[i].0@ != s.last().0@);
    }
}

proof fn lemma_map_remove<V>(s: Seq<(String, SessionSlot<V>)>, i: int)
    requires
        unique_keys(s),
        0 <= i < s.len(),
    ensures
        entries_map(s.remove(i)) == entries_map(s).remove(s[i].0@),
        unique_keys(s.remove(i)),
    decreases s.len(),
{
    let key = s[i].0@;
    if i == s.len() - 1 {
        assert(s.remove(i) =~= s.drop_last());
        lemma_map_contains(s.drop_last(), key);
        assert(forall|j: int|
            0 <= j < s.drop_last().len() ==> #[trigger] s.drop_last()[j].0@ != key);
        assert(!entries_map(s.drop_last()).contains_key(key));
        assert(entries_map(s.drop_last()).insert(key, s.last().1).remove(key) =~= entries_map(
            s.drop_last(),
        ));
    } else {
        let t = s.remove(i);
        assert(t.drop_last() =~= s.drop_last().remove(i));
        assert(t.last() == s.last());
        lemma_map_remove(s.drop_last(), i);
        assert(s.drop_last()[i] == s[i]);
        assert(key != s.last().0@);
        assert(entries_map(s.drop_last()).remove(key).insert(s.last().0@, s.last().1)
            =~= entries_map(s.drop_last()).insert(s.last().0@, s.last().1).remove(key));
        assert(entries_map(t) =~= entries_map(s).remove(key));
    }
    assert forall|a: int, b: int| 0 <= a < b < s.remove(i).len() implies s.remove(i)[a].0@
        != s.remove(i)[b].0@ by {
        if a < i {
            assert(s.remove(i)[a] == s[a]);
        } else {
            assert(s.remove(i)[a] == s[a + 1]);
        }
        if b < i {
            assert(s.remove(i)[b] == s[b]);
        } else {
            assert(s.remove(i)[b] == s[b + 1]);
        }
    }
}

/// What a reservation attempt does to the registry's map: the new map, and
/// whether the id was free and is now reserved.
pub open spec fn spec_reserve<V>(m: Map<Seq<char>, SessionSlot<V>>, id: Seq<char>) -> (
    Map<Seq<char>, SessionSlot<V>>,
    bool,
) {
    if m.contains_key(id) {
        (m, false)
    } else {
        (m.insert(id, SessionSlot::Reserved), true)
    }
}

/// Mutual exclusion of starts: two reservation attempts on one id with no
/// removal in between never both succeed, and on an id that is free when the
/// first arrives, exactly the first succeeds, whichever call came first.
pub proof fn lemma_reserve_mutual_exclusion<V>(m: Map<Seq<char>, SessionSlot<V>>, id: Seq<char>)
    ensures
        !(spec_reserve::<V>(m, id).1 && spec_reserve::<V>(spec_reserve::<V>(m, id).0, id).1),
        !m.contains_key(id) ==> spec_reserve::<V>(m, id).1 && !spec_reserve::<V>(
            spec_reserve::<V>(m, id).0,
            id,
        ).1,
{
}

impl<V> View for Registry<V> {
    type V = Map<Seq<char>, SessionSlot<V>>;

    closed spec fn view(&self) -> Map<Seq<char>, SessionSlot<V>> {
        entries_map(self.entries@)
    }
}

impl<V> Registry<V> {
    /// Keys are unique; every operation preserves this.
    pub closed spec fn wf(&self) -> bool {
        unique_keys(self.entries@)
    }

    /// An empty registry.
    pub fn new() -> (r: Registry<V>)
        ensures
            r.wf(),
            r@ == Map::<Seq<char>, SessionSlot<V>>::empty(),
    {
        Registry { entries: Vec::new() }
    }

    /// The index of `id`'s entry, if any.
    fn find(&self, id: &String) -> (r: Option<usize>)
        ensures
            match r {
                Some(i) => i < self.entries@.len() && self.entries@[i as int].0@ == id@,
                None => forall|j: int|
                    0 <= j < self.entries@.len() ==> (#[trigger] self.entries@[j]).0@ != id@,
            },
    {
        let mut i: usize = 0;
        while i < self.entries.len()
            invariant
                i <= self.entries@.len(),
                forall|j: int| 0 <= j < i ==> (#[trigger] self.entries@[j]).0@ != id@,
            decreases self.entries@.len() - i,
        {
            if self.entries[i].0 == *id {
                return Some(i);
            }
            i = i + 1;
        }
        None
    }

    /// Whether `id` is present, reserved or active.
    pub fn contains(&self, id: &String) -> (r: bool)
        ensures
            r == self@.contains_key(id@),
    {
        proof {
            lemma_map_contains(self.entries@, id@);
        }
        self.find(id).is_some()
    }

    /// The atomic check-and-reserve of a start: if `id` is free, reserve it
    /// and succeed; if it is live in any state, refuse and change nothing.
    pub fn reserve(&mut self, id: &String) -> (r: bool)
        requires
            old(self).wf(),
        ensures
            final(self).wf(),
            (final(self)@, r) == spec_reserve::<V>(old(self)@, id@),
            r == !old(self)@.contains_key(id@),
    {
        proof {
            lemma_map_contains(self.entries@, id@);
        }
        match self.find(id) {
            Some(_) => false,
            None => {
                self.entries.push((id.clone(), SessionSlot::Reserved));
                proof {
                    assert(self.entries@.drop_last() =~= old(self).entries@);
                }
                true
            },
        }
    }

    /// Install a running session over its reservation. Fails — and changes
    /// nothing — when the reservation is gone (a stop raced the start) or the
    /// slot is already active.
    pub fn install(&mut self, id: &String, v: V) -> (r: bool)
        requires
            old(self).wf(),
        ensures
            final(self).wf(),
            r == (old(self)@.contains_key(id@) && old(self)@[id@] is Reserved),
            r ==> final(self)@ == old(self)@.insert(id@, SessionSlot::Active(v)),
            !r ==> final(self)@ == old(self)@,
    {
        proof {
            lemma_map_contains(self.entries@, id@);
        }
        match self.find(id) {
            None => false,
            Some(i) => {
                proof {
                    lemma_map_index(self.entries@, i as int);
                    lemma_map_remove(self.entries@, i as int);
                }
                let ghost before = self.entries@;
                let entry = self.entries.remove(i);
                match entry.1 {
                    SessionSlot::Reserved => {
                        self.entries.push((id.clone(), SessionSlot::Active(v)));
                        proof {
                            assert(self.entries@.drop_last() =~= before.remove(i as int));
                            assert(unique_keys(self.entries@));
                            assert(entries_map(before).remove(id@).insert(
                                id@,
                                SessionSlot::Active(v),
                            ) =~= entries_map(before).insert(id@, SessionSlot::Active(v)));
                        }
                        true
                    },
                    SessionSlot::Active(w) => {
                        self.entries.push((entry.0, SessionSlot::Active(w)));
                        proof {
                            assert(self.entries@.drop_last() =~= before.remove(i as int));
                            assert(unique_keys(self.entries@));
                            assert(entries_map(before).remove(id@).insert(
                                id@,
                                SessionSlot::Active(w),
                            ) =~= entries_map(before));
                        }
                        false
                    },
                }
            },
        }
    }

    /// Remove `id` if present and hand back what it held: the idempotent
    /// remove of a stop, of a start releasing a failed reservation, and of a
    /// forwarder tearing itself down. On an absent id nothing changes — a
    /// stop then reports `NotFound` — and immediately after a successful
    /// removal the id is absent, whether or not the session's task has
    /// exited.
    pub fn stop(&mut self, id: &String) -> (r: Option<SessionSlot<V>>)
        requires
            old(self).wf(),
        ensures
            final(self).wf(),
            match r {
                Some(slot) => {
                    &&& old(self)@.contains_key(id@)
                    &&& slot == old(self)@[id@]
                    &&& final(self)@ == old(self)@.remove(id@)
                    &&& !final(self)@.contains_key(id@)
                },
                None => {
                    &&& !old(self)@.contains_key(id@)
                    &&& final(self)@ == old(self)@
                },
            },
    {
        proof {
            lemma_map_contains(self.entries@, id@);
        }
        match self.find(id) {
            None => None,
            Some(i) => {
                proof {
                    lemma_map_index(self.entries@, i as int);
                    lemma_map_remove(self.entries@, i as int);
                }
                let entry = self.entries.remove(i);
                Some(entry.1)
            },
        }
    }
}

} // verus!
