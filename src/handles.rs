use vstd::prelude::*;

verus! {

/// The table from a soundtrack's name to the handle of its loaded audio asset,
/// in the order the names were first registered.
pub open spec fn table_of(entries: Seq<(String, u64)>) -> Map<Seq<char>, u64>
    decreases entries.len(),
{
    if entries.len() == 0 {
        Map::empty()
    } else {
        table_of(entries.drop_last()).insert(entries.last().0@, entries.last().1)
    }
}

/// Whether no two entries share a name.
pub open spec fn names_distinct(entries: Seq<(String, u64)>) -> bool {
    forall|i: int, j: int|
        0 <= i < entries.len() && 0 <= j < entries.len() && i != j ==> entries[i].0@
            != entries[j].0@
}

/// A name is in the table exactly when some entry carries it.
pub proof fn lemma_table_contains(entries: Seq<(String, u64)>, name: Seq<char>)
    ensures
        table_of(entries).contains_key(name) <==> exists|i: int|
            0 <= i < entries.len() && #[trigger] entries[i].0@ == name,
    decreases entries.len(),
{
    if entries.len() > 0 {
        let init = entries.drop_last();
        lemma_table_contains(init, name);
        if table_of(init).contains_key(name) {
            let i = choose|i: int| 0 <= i < init.len() && #[trigger] init[i].0@ == name;
            assert(entries[i].0@ == name);
        }
        if exists|i: int| 0 <= i < entries.len() && #[trigger] entries[i].0@ == name {
            let i = choose|i: int| 0 <= i < entries.len() && #[trigger] entries[i].0@ == name;
            if i < init.len() {
                assert(init[i].0@ == name);
            }
        }
    }
}

/// With distinct names, each entry's name maps to that entry's handle.
pub proof fn lemma_table_entry(entries: Seq<(String, u64)>, i: int)
    requires
        names_distinct(entries),
        0 <= i < entries.len(),
    ensures
        table_of(entries).contains_key(entries[i].0@),
        table_of(entries)[entries[i].0@] == entries[i].1,
    decreases entries.len(),
{
    lemma_table_contains(entries, entries[i].0@);
    if i < entries.len() - 1 {
        let init = entries.drop_last();
        assert(init[i] == entries[i]);
        lemma_table_entry(init, i);
    }
}

/// The soundtrack asset table: the handle of each soundtrack's audio, by name.
pub struct SoundtrackHandles {
    entries: Vec<(String, u64)>,
}

impl View for SoundtrackHandles {
    type V = Map<Seq<char>, u64>;

    closed spec fn view(&self) -> Map<Seq<char>, u64> {
        table_of(self.entries@)
    }
}

impl SoundtrackHandles {
    /// The table's invariant: each name occurs in one entry at most.
    pub closed spec fn wf(&self) -> bool {
        names_distinct(self.entries@)
    }

    /// An empty table.
    pub fn new() -> (r: SoundtrackHandles)
        ensures
            r.wf(),
            r@ == Map::<Seq<char>, u64>::empty(),
    {
        SoundtrackHandles { entries: Vec::new() }
    }

    /// The position of the entry named `name`, if there is one.
    fn position(&self, name: &String) -> (r: Option<usize>)
        requires
            self.wf(),
        ensures
            match r {
                Some(i) => i < self.entries@.len() && self.entries@[i as int].0@ == name@,
                None => !self@.contains_key(name@),
            },
    {
        let mut i: usize = 0;
        while i < self.entries.len()
            invariant
                i <= self.entries@.len(),
                forall|j: int| 0 <= j < i ==> #[trigger] self.entries@[j].0@ != name@,
            decreases self.entries@.len() - i,
        {
            if self.entries[i].0 == *name {
                return Some(i);
            }
            i = i + 1;
        }
        proof {
            lemma_table_contains(self.entries@, name@);
        }
        None
    }

    /// Registers `handle` under `name`, replacing the handle it had before.
    pub fn insert(&mut self, name: String, handle: u64)
        requires
            old(self).wf(),
        ensures
            final(self).wf(),
            final(self)@ == old(self)@.insert(name@, handle),
    {
        match self.position(&name) {
            Some(i) => {
                let ghost before = self.entries@;
                let ghost key = name@;
                self.entries.set(i, (name, handle));
                proof {
                    let after = self.entries@;
                    assert(names_distinct(after)) by {
                        assert forall|a: int, b: int|
                            0 <= a < after.len() && 0 <= b < after.len() && a != b implies after[a].0@
                            != after[b].0@ by {
                            if a != i && b != i {
                                assert(after[a] == before[a] && after[b] == before[b]);
                            } else if a == i {
                                assert(after[b] == before[b]);
                            } else {
                                assert(after[a] == before[a]);
                            }
                        }
                    }
                    assert forall|k: Seq<char>|
                        table_of(after).contains_key(k) == table_of(before).insert(
                            key,
                            handle,
                        ).contains_key(k) by {
                        lemma_table_contains(after, k);
                        lemma_table_contains(before, k);
                        if exists|j: int| 0 <= j < before.len() && #[trigger] before[j].0@ == k {
                            let j = choose|j: int| 0 <= j < before.len() && #[trigger] before[j].0@ == k;
                            if j != i {
                                assert(after[j] == before[j]);
                            }
                        }
                        if exists|j: int| 0 <= j < after.len() && #[trigger] after[j].0@ == k {
                            let j = choose|j: int| 0 <= j < after.len() && #[trigger] after[j].0@ == k;
                            if j != i {
                                assert(after[j] == before[j]);
                            }
                        }
                    }
                    assert forall|k: Seq<char>| #[trigger]
                        table_of(after).contains_key(k) implies table_of(after)[k] == table_of(
                            before,
                        ).insert(key, handle)[k] by {
                        lemma_table_contains(after, k);
                        let j = choose|j: int| 0 <= j < after.len() && #[trigger] after[j].0@ == k;
                        lemma_table_entry(after, j);
                        if j != i {
                            assert(after[j] == before[j]);
                            lemma_table_entry(before, j);
                        }
                    }
                    assert(table_of(after) =~= table_of(before).insert(key, handle));
                }
            },
            None => {
                let ghost before = self.entries@;
                proof {
                    lemma_table_contains(before, name@);
                }
                self.entries.push((name, handle));
                proof {
                    assert(self.entries@.drop_last() =~= before);
                }
            },
        }
    }

    /// Whether a soundtrack is registered under `name`.
    pub fn contains(&self, name: &String) -> (r: bool)
        requires
            self.wf(),
        ensures
            r == self@.contains_key(name@),
    {
        match self.position(name) {
            Some(i) => {
                proof {
                    lemma_table_entry(self.entries@, i as int);
                }
                true
            },
            None => false,
        }
    }

    /// The handle registered under `name`, if any.
    pub fn get(&self, name: &String) -> (r: Option<u64>)
        requires
            self.wf(),
        ensures
            r == (if self@.contains_key(name@) {
                Some(self@[name@])
            } else {
                None::<u64>
            }),
    {
        match self.position(name) {
            Some(i) => {
                proof {
                    lemma_table_entry(self.entries@, i as int);
                }
                Some(self.entries[i].1)
            },
            None => None,
        }
    }
}

} // verus!
