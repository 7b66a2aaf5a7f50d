use vstd::prelude::*;
use crate::command::CommandEntry;

verus! {

/// The in-memory index: for each live key, where its last `SET` lies on disk.
/// Held as a vector of distinct keys; its meaning is the map `view`.
pub struct KeyIndex {
    entries: Vec<(String, CommandEntry)>,
    model: Ghost<Map<Seq<char>, CommandEntry>>,
}

/// Sum of the sizes of the commands located by `s`.
pub open spec fn total_size(s: Seq<(String, CommandEntry)>) -> nat
    decreases s.len(),
{
    if s.len() == 0 {
        0
    } else {
        total_size(s.drop_last()) + s.last().1.cmd_size as nat
    }
}

/// A prefix of the entries locates no more bytes than the whole.
pub proof fn lemma_total_prefix(s: Seq<(String, CommandEntry)>, i: int)
    requires
        0 <= i <= s.len(),
    ensures
        total_size(s.take(i)) <= total_size(s),
    decreases s.len(),
{
    if i < s.len() {
        assert(s.drop_last().take(i) =~= s.take(i));
        lemma_total_prefix(s.drop_last(), i);
    } else {
        assert(s.take(i) =~= s);
    }
}

/// Entry sequences whose sizes agree position by position locate the same number of bytes.
pub proof fn lemma_total_same_sizes(s: Seq<(String, CommandEntry)>, t: Seq<(String, CommandEntry)>)
    requires
        s.len() == t.len(),
        forall|j: int| 0 <= j < s.len() ==> #[trigger] s[j].1.cmd_size == t[j].1.cmd_size,
    ensures
        total_size(s) == total_size(t),
    decreases s.len(),
{
    if s.len() > 0 {
        lemma_total_same_sizes(s.drop_last(), t.drop_last());
    }
}

/// Replacing one entry changes the total by the difference of the two sizes.
pub proof fn lemma_total_update(s: Seq<(String, CommandEntry)>, i: int, x: (String, CommandEntry))
    requires
        0 <= i < s.len(),
    ensures
        total_size(s.update(i, x)) + s[i].1.cmd_size == total_size(s) + x.1.cmd_size,
    decreases s.len(),
{
    if i == s.len() - 1 {
        assert(s.update(i, x).drop_last() =~= s.drop_last());
    } else {
        assert(s.update(i, x).drop_last() =~= s.drop_last().update(i, x));
        lemma_total_update(s.drop_last(), i, x);
    }
}

impl View for KeyIndex {
    type V = Map<Seq<char>, CommandEntry>;

    closed spec fn view(&self) -> Map<Seq<char>, CommandEntry> {
        self.model@
    }
}

impl KeyIndex {
    /// The entries in their stored order.
    pub closed spec fn entries_view(&self) -> Seq<(String, CommandEntry)> {
        self.entries@
    }

    /// The entries hold distinct keys and are exactly the bindings of the view.
    pub closed spec fn wf(&self) -> bool {
        &&& forall|i: int, j: int|
            0 <= i < j < self.entries@.len() ==> #[trigger] self.entries@[i].0@
                != #[trigger] self.entries@[j].0@
        &&& forall|i: int|
            0 <= i < self.entries@.len() ==> self.model@.contains_key(#[trigger] self.entries@[i].0@)
                && self.model@[self.entries@[i].0@] == self.entries@[i].1
        &&& forall|k: Seq<char>|
            #[trigger] self.model@.contains_key(k) ==> exists|i: int|
                0 <= i < self.entries@.len() && #[trigger] self.entries@[i].0@ == k
    }

    /// Bytes of all the commands that the index locates.
    pub closed spec fn live_bytes(&self) -> nat {
        total_size(self.entries@)
    }

    pub fn new() -> (r: KeyIndex)
        ensures
            r.wf(),
            r.live_bytes() == 0,
            r@ == Map::<Seq<char>, CommandEntry>::empty(),
    {
        KeyIndex { entries: Vec::new(), model: Ghost(Map::empty()) }
    }

    /// Number of live keys.
    pub fn len(&self) -> (r: usize)
        requires
            self.wf(),
        ensures
            r == self@.len(),
    {
        proof { self.lemma_len(); }
        self.entries.len()
    }

    proof fn lemma_len(&self)
        requires
            self.wf(),
        ensures
            self@.len() == self.entries@.len(),
            self@.dom() == self.entries@.map_values(|e: (String, CommandEntry)| e.0@).to_set(),
    {
        let keys = self.entries@.map_values(|e: (String, CommandEntry)| e.0@);
        assert(self@.dom() =~= keys.to_set()) by {
            assert forall|k: Seq<char>| self@.dom().contains(k) implies keys.to_set().contains(k) by {
                let i = choose|i: int| 0 <= i < self.entries@.len() && #[trigger] self.entries@[i].0@ == k;
                assert(keys[i] == k);
            }
            assert forall|k: Seq<char>| keys.to_set().contains(k) implies self@.dom().contains(k) by {
                let i = choose|i: int| 0 <= i < keys.len() && keys[i] == k;
                assert(self.entries@[i].0@ == k);
            }
        }
        assert(keys.no_duplicates()) by {
            assert forall|i: int, j: int| 0 <= i < keys.len() && 0 <= j < keys.len() && i != j
                implies keys[i] != keys[j] by {
                if i < j {
                    assert(self.entries@[i].0@ != self.entries@[j].0@);
                } else {
                    assert(self.entries@[j].0@ != self.entries@[i].0@);
                }
            }
        }
        keys.unique_seq_to_set();
    }

    /// Position of `key` among the entries, if it is bound.
    fn find(&self, key: &String) -> (r: Option<usize>)
        requires
            self.wf(),
        ensures
            match r {
                Some(i) => i < self.entries@.len() && self.entries@[i as int].0@ == key@,
                None => !self@.contains_key(key@),
            },
    {
        let mut i: usize = 0;
        while i < self.entries.len()
            invariant
                self.wf(),
                i <= self.entries@.len(),
                forall|j: int| 0 <= j < i ==> self.entries@[j].0@ != key@,
            decreases self.entries@.len() - i,
        {
            if self.entries[i].0 == *key {
                return Some(i);
            }
            i = i + 1;
        }
        None
    }

    /// The location bound to `key`.
    pub fn get(&self, key: &String) -> (r: Option<CommandEntry>)
        requires
            self.wf(),
        ensures
            r == (if self@.contains_key(key@) { Some(self@[key@]) } else { None::<CommandEntry> }),
    {
        match self.find(key) {
            Some(i) => Some(self.entries[i].1),
            None => None,
        }
    }

    /// Binds `key` to `entry`; returns the location it had before.
    pub fn insert(&mut self, key: String, entry: CommandEntry) -> (r: Option<CommandEntry>)
        requires
            old(self).wf(),
        ensures
            final(self).wf(),
            final(self)@ == old(self)@.insert(key@, entry),
            final(self).live_bytes() + (if old(self)@.contains_key(key@) { old(self)@[key@].cmd_size as nat } else { 0 })
                == old(self).live_bytes() + entry.cmd_size,
            r == (if old(self)@.contains_key(key@) { Some(old(self)@[key@]) } else { None::<CommandEntry> }),
    {
        match self.find(&key) {
            Some(i) => {
                let prev = self.entries[i].1;
                let k = self.entries[i].0.clone();
                proof {
                    lemma_total_update(self.entries@, i as int, (k, entry));
                    assert(old(self)@[key@] == prev);
                }
                self.entries.set(i, (k, entry));
                self.model = Ghost(self.model@.insert(key@, entry));
                proof {
                    assert forall|k2: Seq<char>| #[trigger] self.model@.contains_key(k2) implies exists|j: int|
                        0 <= j < self.entries@.len() && #[trigger] self.entries@[j].0@ == k2 by {
                        if k2 == key@ {
                            assert(self.entries@[i as int].0@ == k2);
                        } else {
                            let j = choose|j: int| 0 <= j < old(self).entries@.len() && #[trigger] old(self).entries@[j].0@ == k2;
                            assert(self.entries@[j].0@ == k2);
                        }
                    }
                }
                Some(prev)
            },
            None => {
                self.entries.push((key, entry));
                proof { assert(self.entries@.drop_last() =~= old(self).entries@); }
                self.model = Ghost(self.model@.insert(key@, entry));
                proof {
                    let n = old(self).entries@.len() as int;
                    assert forall|k2: Seq<char>| #[trigger] self.model@.contains_key(k2) implies exists|j: int|
                        0 <= j < self.entries@.len() && #[trigger] self.entries@[j].0@ == k2 by {
                        if k2 == key@ {
                            assert(self.entries@[n].0@ == k2);
                        } else {
                            let j = choose|j: int| 0 <= j < old(self).entries@.len() && #[trigger] old(self).entries@[j].0@ == k2;
                            assert(self.entries@[j].0@ == k2);
                        }
                    }
                }
                None
            },
        }
    }

    /// Removes the binding of `key`; returns the location it had.
    pub fn remove(&mut self, key: &String) -> (r: Option<CommandEntry>)
        requires
            old(self).wf(),
        ensures
            final(self).wf(),
            final(self)@ == old(self)@.remove(key@),
            final(self).live_bytes() + (if old(self)@.contains_key(key@) { old(self)@[key@].cmd_size as nat } else { 0 })
                == old(self).live_bytes(),
            r == (if old(self)@.contains_key(key@) { Some(old(self)@[key@]) } else { None::<CommandEntry> }),
    {
        match self.find(key) {
            Some(i) => {
                proof {
                    let o = self.entries@;
                    lemma_total_update(o, i as int, o.last());
                    assert(o.update(i as int, o.last()).last() == o.last());
                }
                let (_, prev) = self.entries.swap_remove(i);
                self.model = Ghost(self.model@.remove(key@));
                proof {
                    let o = old(self).entries@;
                    let n = o.len() - 1;
                    assert forall|a: int, b: int|
                        0 <= a < b < self.entries@.len() implies #[trigger] self.entries@[a].0@
                            != #[trigger] self.entries@[b].0@ by {
                        let a0 = if a == i { n } else { a };
                        let b0 = if b == i { n } else { b };
                        assert(self.entries@[a] == o[a0]);
                        assert(self.entries@[b] == o[b0]);
                        if a0 < b0 {
                            assert(o[a0].0@ != o[b0].0@);
                        } else {
                            assert(o[b0].0@ != o[a0].0@);
                        }
                    }
                    assert forall|a: int| 0 <= a < self.entries@.len() implies self.model@.contains_key(
                        #[trigger] self.entries@[a].0@) && self.model@[self.entries@[a].0@]
                        == self.entries@[a].1 by {
                        let a0 = if a == i { n } else { a };
                        assert(self.entries@[a] == o[a0]);
                        assert(a0 != i);
                        assert(o[a0].0@ != o[i as int].0@);
                    }
                    assert forall|k2: Seq<char>| #[trigger] self.model@.contains_key(k2) implies exists|j: int|
                        0 <= j < self.entries@.len() && #[trigger] self.entries@[j].0@ == k2 by {
                        let j = choose|j: int| 0 <= j < o.len() && #[trigger] o[j].0@ == k2;
                        assert(j != i);
                        if j == n {
                            assert(self.entries@[i as int].0@ == k2);
                        } else {
                            assert(self.entries@[j].0@ == k2);
                        }
                    }
                }
                Some(prev)
            },
            None => None,
        }
    }

    /// Moves every entry to generation `gen`, the commands packed one after another from
    /// offset 0 in stored order. Returns, for each entry in that order, its old and new
    /// location: the copies to make.
    pub fn pack_into(&mut self, gen: u64) -> (r: Vec<(CommandEntry, CommandEntry)>)
        requires
            old(self).wf(),
            old(self).live_bytes() <= u64::MAX,
        ensures
            final(self).wf(),
            final(self)@.dom() == old(self)@.dom(),
            forall|k: Seq<char>| #[trigger] old(self)@.contains_key(k) ==> final(self)@[k].file_id == gen
                && final(self)@[k].cmd_size == old(self)@[k].cmd_size,
            final(self).live_bytes() == old(self).live_bytes(),
            forall|k: Seq<char>| #[trigger] old(self)@.contains_key(k) ==> exists|i: int|
                0 <= i < r@.len() && r@[i] == (old(self)@[k], final(self)@[k]),
            r@.len() == old(self).entries_view().len(),
            final(self).entries_view().len() == old(self).entries_view().len(),
            forall|i: int| 0 <= i < r@.len() ==> {
                &&& (#[trigger] r@[i]).0 == old(self).entries_view()[i].1
                &&& r@[i].1 == final(self).entries_view()[i].1
                &&& final(self).entries_view()[i].0@ == old(self).entries_view()[i].0@
                &&& r@[i].1.file_id == gen
                &&& r@[i].1.cmd_size == r@[i].0.cmd_size
                &&& r@[i].1.cmd_pos == total_size(old(self).entries_view().take(i))
                &&& r@[i].1.cmd_pos + r@[i].1.cmd_size <= old(self).live_bytes()
            },
    {
        let ghost o = self.entries@;
        let mut copies: Vec<(CommandEntry, CommandEntry)> = Vec::new();
        let mut pos: u64 = 0;
        let mut i: usize = 0;
        proof { assert(o.take(0) =~= Seq::<(String, CommandEntry)>::empty()); }
        while i < self.entries.len()
            invariant
                self.wf(),
                self.entries@.len() == o.len(),
                old(self).entries@ == o,
                old(self).wf(),
                total_size(o) <= u64::MAX,
                0 <= i <= o.len(),
                pos == total_size(o.take(i as int)),
                copies@.len() == i,
                self@.dom() == old(self)@.dom(),
                forall|j: int| 0 <= j < o.len() ==> #[trigger] self.entries@[j].0@ == o[j].0@,
                forall|j: int| i <= j < o.len() ==> #[trigger] self.entries@[j].1 == o[j].1,
                forall|j: int| 0 <= j < i ==> {
                    &&& (#[trigger] copies@[j]).0 == o[j].1
                    &&& copies@[j].1 == self.entries@[j].1
                    &&& copies@[j].1.file_id == gen
                    &&& copies@[j].1.cmd_size == o[j].1.cmd_size
                    &&& copies@[j].1.cmd_pos == total_size(o.take(j))
                },
            decreases o.len() - i,
        {
            let old_entry = self.entries[i].1;
            proof {
                assert(o.take(i + 1).drop_last() =~= o.take(i as int));
                lemma_total_prefix(o, i + 1);
            }
            let new_entry = CommandEntry { file_id: gen, cmd_pos: pos, cmd_size: old_entry.cmd_size };
            let k = self.entries[i].0.clone();
            let ghost kv = self.entries@[i as int].0@;
            let ghost before = self.entries@;
            self.entries.set(i, (k, new_entry));
            self.model = Ghost(self.model@.insert(kv, new_entry));
            proof {
                assert forall|a: int| 0 <= a < self.entries@.len() implies self.model@.contains_key(
                    #[trigger] self.entries@[a].0@) && self.model@[self.entries@[a].0@]
                    == self.entries@[a].1 by {
                    if a != i {
                        assert(before[a].0@ != kv) by {
                            if a < i { assert(before[a].0@ != before[i as int].0@); }
                            else { assert(before[i as int].0@ != before[a].0@); }
                        }
                    }
                }
                assert forall|k2: Seq<char>| #[trigger] self.model@.contains_key(k2) implies exists|j: int|
                    0 <= j < self.entries@.len() && #[trigger] self.entries@[j].0@ == k2 by {
                    let j = choose|j: int| 0 <= j < before.len() && #[trigger] before[j].0@ == k2;
                    assert(self.entries@[j].0@ == k2);
                }
                assert(self@.dom() =~= old(self)@.dom());
            }
            copies.push((old_entry, new_entry));
            pos = pos + old_entry.cmd_size;
            i = i + 1;
        }
        proof {
            assert(o.take(o.len() as int) =~= o);
            assert forall|k: Seq<char>| #[trigger] old(self)@.contains_key(k) implies self@[k].file_id == gen
                && self@[k].cmd_size == old(self)@[k].cmd_size by {
                let j = choose|j: int| 0 <= j < o.len() && #[trigger] o[j].0@ == k;
                assert(self.entries@[j].0@ == k);
                assert(copies@[j].1 == self.entries@[j].1);
            }
            assert forall|k: Seq<char>| #[trigger] old(self)@.contains_key(k) implies exists|i: int|
                0 <= i < copies@.len() && copies@[i] == (old(self)@[k], self@[k]) by {
                let j = choose|j: int| 0 <= j < o.len() && #[trigger] o[j].0@ == k;
                assert(self.entries@[j].0@ == k);
                assert(copies@[j].1 == self.entries@[j].1);
                assert(copies@[j] == (old(self)@[k], self@[k]));
            }
            assert forall|j: int| 0 <= j < o.len() implies #[trigger] o[j].1.cmd_size
                == self.entries@[j].1.cmd_size by {
                assert(copies@[j].1 == self.entries@[j].1);
            }
            lemma_total_same_sizes(o, self.entries@);
            assert forall|j: int| 0 <= j < copies@.len() implies (#[trigger] copies@[j]).1.cmd_pos
                + copies@[j].1.cmd_size <= total_size(o) by {
                assert(o.take(j + 1).drop_last() =~= o.take(j));
                lemma_total_prefix(o, j + 1);
            }
        }
        copies
    }

    /// The number of bytes that the index locates, if it fits in 64 bits.
    pub fn live_bytes_checked(&self) -> (r: Option<u64>)
        requires
            self.wf(),
        ensures
            r == (if self.live_bytes() <= u64::MAX { Some(self.live_bytes() as u64) } else { None::<u64> }),
    {
        let mut total: u64 = 0;
        let mut i: usize = 0;
        proof { assert(self.entries@.take(0) =~= Seq::<(String, CommandEntry)>::empty()); }
        while i < self.entries.len()
            invariant
                0 <= i <= self.entries@.len(),
                total == total_size(self.entries@.take(i as int)),
            decreases self.entries@.len() - i,
        {
            proof {
                assert(self.entries@.take(i + 1).drop_last() =~= self.entries@.take(i as int));
                lemma_total_prefix(self.entries@, i + 1);
            }
            match total.checked_add(self.entries[i].1.cmd_size) {
                Some(t) => total = t,
                None => return None,
            }
            i = i + 1;
        }
        proof { assert(self.entries@.take(self.entries@.len() as int) =~= self.entries@); }
        Some(total)
    }
}

} // verus!
