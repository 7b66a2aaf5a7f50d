use vstd::prelude::*;
use crate::command::{CommandEntry, KvsError, LogRecord};
use crate::index::KeyIndex;
use crate::replay::{apply_op, entry_of, is_set, load, op_stale, records_ok, replay, replay_stale, sat};

verus! {

/// Dead bytes beyond which the log is compacted.
pub const COMPACTION_THRESHOLD: u64 = 1048576;

/// Generations in strictly ascending order.
pub open spec fn ascending(s: Seq<u64>) -> bool {
    forall|i: int, j: int| 0 <= i < j < s.len() ==> s[i] < s[j]
}

/// The active generation chosen at open: one past the highest existing one, or 1.
pub open spec fn first_active(gens: Seq<u64>) -> int {
    if gens.len() == 0 { 1 } else { gens.last() + 1 }
}

/// What the files must carry out for a compaction.
pub struct CompactionPlan {
    /// Generation that receives the live commands.
    pub compaction_gen: u64,
    /// The new active generation.
    pub active_gen: u64,
    /// For each live command: where it is, and where it goes in `compaction_gen`.
    pub copies: Vec<(CommandEntry, CommandEntry)>,
    /// Generations whose files are dropped once the copies are flushed.
    pub stale_gens: Vec<u64>,
    /// Size of the compacted file after the copies.
    pub compacted_bytes: u64,
}

/// The decisions of the storage engine: where each live key's command lies, which
/// generations exist, which one takes appends, and how many bytes on disk are dead.
/// The files themselves are kept by the caller, which reports each write here.
pub struct KvCore {
    index: KeyIndex,
    gens: Vec<u64>,
    current_gen: u64,
    uncompacted: u64,
}

impl KvCore {
    /// Key to location.
    pub closed spec fn index_view(&self) -> Map<Seq<char>, CommandEntry> {
        self.index@
    }

    /// Generations that have a log file, ascending; the last one is active.
    pub closed spec fn gens_view(&self) -> Seq<u64> {
        self.gens@
    }

    pub closed spec fn active_gen(&self) -> u64 {
        self.current_gen
    }

    pub closed spec fn stale_bytes(&self) -> u64 {
        self.uncompacted
    }

    /// Bytes of the commands that the index locates.
    pub closed spec fn live_bytes(&self) -> nat {
        self.index.live_bytes()
    }

    pub closed spec fn wf(&self) -> bool {
        &&& self.index.wf()
        &&& ascending(self.gens@)
        &&& self.gens@.len() > 0
        &&& self.gens@.last() == self.current_gen
        &&& forall|k: Seq<char>| #[trigger] self.index@.contains_key(k) ==> self.gens@.contains(
            self.index@[k].file_id,
        )
    }

    /// An engine over the existing generations `gens` (ascending), with an empty index;
    /// a new active generation follows the highest.
    pub fn start(gens: Vec<u64>) -> (r: KvCore)
        requires
            ascending(gens@),
            gens@.len() > 0 ==> gens@.last() < u64::MAX,
        ensures
            r.wf(),
            r.active_gen() == first_active(gens@),
            r.gens_view() == gens@.push(r.active_gen()),
            r.index_view() == Map::<Seq<char>, CommandEntry>::empty(),
            r.stale_bytes() == 0,
            r.live_bytes() == 0,
    {
        let mut gens = gens;
        let current_gen: u64 = if gens.len() == 0 { 1 } else { gens[gens.len() - 1] + 1 };
        let ghost g0 = gens@;
        gens.push(current_gen);
        proof {
            assert forall|i: int, j: int| 0 <= i < j < gens@.len() implies gens@[i] < gens@[j] by {
                if j == g0.len() {
                    if i < g0.len() - 1 {
                        assert(g0[i] < g0[g0.len() - 1]);
                    }
                }
            }
        }
        KvCore { index: KeyIndex::new(), gens, current_gen, uncompacted: 0 }
    }

    /// Replays the decoded records of the log of generation `file_id` and counts the
    /// bytes they leave dead.
    pub fn replay_log(&mut self, file_id: u64, records: &Vec<LogRecord>)
        requires
            old(self).wf(),
            old(self).gens_view().contains(file_id),
            records_ok(records@),
        ensures
            final(self).wf(),
            final(self).index_view() == replay(old(self).index_view(), file_id, records@),
            final(self).stale_bytes() == sat(
                old(self).stale_bytes() as nat,
                sat(0, replay_stale(old(self).index_view(), file_id, records@)) as nat,
            ),
            final(self).gens_view() == old(self).gens_view(),
            final(self).active_gen() == old(self).active_gen(),
    {
        let dead = load(file_id, records, &mut self.index);
        self.uncompacted = self.uncompacted.saturating_add(dead);
        proof {
            lemma_replay_in_gens(old(self).index@, file_id, records@, self.gens@);
        }
    }

    /// The generation that takes appends.
    pub fn current_gen(&self) -> (r: u64)
        ensures
            r == self.active_gen(),
    {
        self.current_gen
    }

    /// Bytes on disk that no index entry locates.
    pub fn uncompacted(&self) -> (r: u64)
        ensures
            r == self.stale_bytes(),
    {
        self.uncompacted
    }

    /// Where the command holding `key`'s value lies.
    pub fn locate(&self, key: &String) -> (r: Option<CommandEntry>)
        requires
            self.wf(),
        ensures
            r == (if self.index_view().contains_key(key@) {
                Some(self.index_view()[key@])
            } else {
                None::<CommandEntry>
            }),
            r matches Some(e) ==> self.gens_view().contains(e.file_id),
    {
        self.index.get(key)
    }

    /// Records that `SET key` was appended to the active log at `start..end`. Returns
    /// whether the dead bytes now call for a compaction.
    pub fn record_set(&mut self, key: String, start: u64, end: u64) -> (r: bool)
        requires
            old(self).wf(),
            start <= end,
        ensures
            final(self).wf(),
            final(self).index_view() == apply_op(
                old(self).index_view(),
                key@,
                true,
                CommandEntry { file_id: old(self).active_gen(), cmd_pos: start, cmd_size: (end - start) as u64 },
            ),
            final(self).stale_bytes() == sat(
                old(self).stale_bytes() as nat,
                op_stale(old(self).index_view(), key@, true, (end - start) as nat),
            ),
            final(self).gens_view() == old(self).gens_view(),
            final(self).active_gen() == old(self).active_gen(),
            final(self).live_bytes() + (if old(self).index_view().contains_key(key@) {
                old(self).index_view()[key@].cmd_size as nat
            } else {
                0
            }) == old(self).live_bytes() + (end - start),
            r == (final(self).stale_bytes() > COMPACTION_THRESHOLD),
    {
        let loc = CommandEntry::from_range(self.current_gen, start, end);
        if let Some(prev) = self.index.insert(key, loc) {
            self.uncompacted = self.uncompacted.saturating_add(prev.cmd_size);
        }
        proof {
            assert forall|k: Seq<char>| #[trigger] self.index@.contains_key(k) implies self.gens@.contains(
                self.index@[k].file_id) by {
                if k != key@ {
                    assert(old(self).index@.contains_key(k));
                } else {
                    assert(self.gens@[self.gens@.len() - 1] == self.current_gen);
                }
            }
        }
        self.uncompacted > COMPACTION_THRESHOLD
    }

    /// Records that the tombstone `REMOVE key` was appended at `start..end`. A key that is
    /// not bound is `NotFound` and changes nothing. Returns whether the dead bytes now call
    /// for a compaction.
    pub fn record_remove(&mut self, key: &String, start: u64, end: u64) -> (r: Result<bool, KvsError>)
        requires
            old(self).wf(),
            start <= end,
        ensures
            final(self).wf(),
            final(self).gens_view() == old(self).gens_view(),
            final(self).active_gen() == old(self).active_gen(),
            !old(self).index_view().contains_key(key@) ==> r == Err::<bool, KvsError>(KvsError::NotFound)
                && final(self).index_view() == old(self).index_view()
                && final(self).stale_bytes() == old(self).stale_bytes(),
            old(self).index_view().contains_key(key@) ==> final(self).live_bytes()
                + old(self).index_view()[key@].cmd_size == old(self).live_bytes(),
            old(self).index_view().contains_key(key@) ==> r == Ok::<bool, KvsError>(
                final(self).stale_bytes() > COMPACTION_THRESHOLD,
            ) && final(self).index_view() == apply_op(
                old(self).index_view(),
                key@,
                false,
                CommandEntry { file_id: old(self).active_gen(), cmd_pos: start, cmd_size: (end - start) as u64 },
            ) && final(self).stale_bytes() == sat(
                old(self).stale_bytes() as nat,
                op_stale(old(self).index_view(), key@, false, (end - start) as nat),
            ),
    {
        match self.index.remove(key) {
            Some(prev) => {
                self.uncompacted = self.uncompacted.saturating_add(prev.cmd_size);
                self.uncompacted = self.uncompacted.saturating_add(end - start);
                proof {
                    assert forall|k: Seq<char>| #[trigger] self.index@.contains_key(k) implies self.gens@.contains(
                        self.index@[k].file_id) by {
                        assert(old(self).index@.contains_key(k));
                    }
                }
                Ok(self.uncompacted > COMPACTION_THRESHOLD)
            },
            None => Err(KvsError::NotFound),
        }
    }

    /// Moves every live command into a fresh generation and starts a new active one after
    /// it; all older generations become dead. Returns the copies to make and the files to
    /// drop. When the live commands do not fit in one file of `u64::MAX` bytes this is
    /// `Overflow` and nothing changes.
    pub fn compact(&mut self) -> (r: Result<CompactionPlan, KvsError>)
        requires
            old(self).wf(),
            old(self).active_gen() <= u64::MAX - 2,
        ensures
            final(self).wf(),
            old(self).live_bytes() > u64::MAX ==> r == Err::<CompactionPlan, KvsError>(KvsError::Overflow)
                && final(self).index_view() == old(self).index_view()
                && final(self).gens_view() == old(self).gens_view()
                && final(self).active_gen() == old(self).active_gen()
                && final(self).stale_bytes() == old(self).stale_bytes(),
            old(self).live_bytes() <= u64::MAX ==> r is Ok,
            r matches Ok(plan) ==> {
                &&& plan.compaction_gen == old(self).active_gen() + 1
                &&& plan.active_gen == old(self).active_gen() + 2
                &&& final(self).active_gen() == plan.active_gen
                &&& final(self).gens_view() == seq![plan.compaction_gen, plan.active_gen]
                &&& plan.stale_gens@ == old(self).gens_view()
                &&& final(self).stale_bytes() == 0
                &&& plan.compacted_bytes == old(self).live_bytes()
                &&& final(self).live_bytes() == old(self).live_bytes()
                &&& final(self).index_view().dom() == old(self).index_view().dom()
                &&& forall|k: Seq<char>| #[trigger] old(self).index_view().contains_key(k) ==> {
                    &&& final(self).index_view()[k].file_id == plan.compaction_gen
                    &&& final(self).index_view()[k].cmd_size == old(self).index_view()[k].cmd_size
                    &&& final(self).index_view()[k].cmd_pos + final(self).index_view()[k].cmd_size
                        <= plan.compacted_bytes
                    &&& exists|i: int| 0 <= i < plan.copies@.len()
                        && #[trigger] plan.copies@[i] == (old(self).index_view()[k], final(self).index_view()[k])
                }
            },
    {
        let total = match self.index.live_bytes_checked() {
            Some(t) => t,
            None => return Err(KvsError::Overflow),
        };
        let compaction_gen = self.current_gen + 1;
        let active_gen = self.current_gen + 2;
        let ghost old_index = self.index;
        let copies = self.index.pack_into(compaction_gen);
        let stale_gens = self.gens.clone();
        self.gens = vec![compaction_gen, active_gen];
        self.current_gen = active_gen;
        self.uncompacted = 0;
        proof {
            assert(self.gens@ =~= seq![compaction_gen, active_gen]);
            assert forall|k: Seq<char>| #[trigger] old(self).index@.contains_key(k) implies
                self.index@[k].cmd_pos + self.index@[k].cmd_size <= total && exists|j: int|
                    0 <= j < copies@.len() && #[trigger] copies@[j] == (old_index@[k], self.index@[k]) by {
                let i = choose|i: int| 0 <= i < copies@.len() && copies@[i] == (old_index@[k], self.index@[k]);
                assert(copies@[i].1.cmd_pos + copies@[i].1.cmd_size <= old_index.live_bytes());
            }
            assert forall|k: Seq<char>| #[trigger] self.index@.contains_key(k) implies self.gens@.contains(
                self.index@[k].file_id) by {
                assert(self.gens@[0] == compaction_gen);
            }
        }
        let plan = CompactionPlan { compaction_gen, active_gen, copies, stale_gens, compacted_bytes: total };
        proof {
            assert(old_index@ == old(self).index_view());
            assert(plan.copies@ == copies@);
            assert(forall|k: Seq<char>| #[trigger] old(self).index_view().contains_key(k) ==> exists|i: int|
                0 <= i < plan.copies@.len() && #[trigger] plan.copies@[i] == (old(self).index_view()[k], self.index_view()[k]));
        }
        Ok(plan)
    }
}

/// Replaying records of a generation in `gens` over an index whose locations lie in
/// `gens` leaves every location in `gens`.
proof fn lemma_replay_in_gens(m: Map<Seq<char>, CommandEntry>, file_id: u64, rs: Seq<LogRecord>, gens: Seq<u64>)
    requires
        gens.contains(file_id),
        forall|k: Seq<char>| #[trigger] m.contains_key(k) ==> gens.contains(m[k].file_id),
    ensures
        forall|k: Seq<char>| #[trigger] replay(m, file_id, rs).contains_key(k) ==> gens.contains(
            replay(m, file_id, rs)[k].file_id,
        ),
    decreases rs.len(),
{
    if rs.len() > 0 {
        lemma_replay_in_gens(m, file_id, rs.drop_last(), gens);
        let prev = replay(m, file_id, rs.drop_last());
        let r = rs.last();
        assert(replay(m, file_id, rs) == apply_op(prev, r.command.key_view(), is_set(r), entry_of(file_id, r)));
        assert forall|k: Seq<char>| #[trigger] replay(m, file_id, rs).contains_key(k) implies gens.contains(
            replay(m, file_id, rs)[k].file_id) by {
            if k != r.command.key_view() {
                assert(prev.contains_key(k));
            }
        }
    }
}

} // verus!
