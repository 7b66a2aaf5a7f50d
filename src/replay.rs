use vstd::prelude::*;
use crate::command::{Command, CommandEntry, LogRecord};
use crate::index::KeyIndex;

verus! {

/// The location of record `r` in generation `file_id`.
pub open spec fn entry_of(file_id: u64, r: LogRecord) -> CommandEntry {
    CommandEntry { file_id, cmd_pos: r.start, cmd_size: (r.end - r.start) as u64 }
}

/// Whether `r` is a `SET`.
pub open spec fn is_set(r: LogRecord) -> bool {
    r.command is SET
}

/// Every record spans a byte range that does not run backwards.
pub open spec fn records_ok(rs: Seq<LogRecord>) -> bool {
    forall|i: int| 0 <= i < rs.len() ==> (#[trigger] rs[i]).start <= rs[i].end
}

/// The index after a command on `key` located at `loc`: a `SET` binds, a `REMOVE` unbinds.
pub open spec fn apply_op(
    m: Map<Seq<char>, CommandEntry>,
    key: Seq<char>,
    set: bool,
    loc: CommandEntry,
) -> Map<Seq<char>, CommandEntry> {
    if set {
        m.insert(key, loc)
    } else {
        m.remove(key)
    }
}

/// Bytes that become dead through a command on `key` of `size` bytes: the command it
/// supersedes, and a tombstone itself.
pub open spec fn op_stale(m: Map<Seq<char>, CommandEntry>, key: Seq<char>, set: bool, size: nat) -> nat {
    (if m.contains_key(key) { m[key].cmd_size as nat } else { 0 }) + (if set { 0 } else { size })
}

/// The index after replaying the records `rs` of generation `file_id` over `m`.
pub open spec fn replay(m: Map<Seq<char>, CommandEntry>, file_id: u64, rs: Seq<LogRecord>) -> Map<
    Seq<char>,
    CommandEntry,
>
    decreases rs.len(),
{
    if rs.len() == 0 {
        m
    } else {
        let r = rs.last();
        apply_op(replay(m, file_id, rs.drop_last()), r.command.key_view(), is_set(r), entry_of(file_id, r))
    }
}

/// The bytes that replaying `rs` over `m` finds dead.
pub open spec fn replay_stale(m: Map<Seq<char>, CommandEntry>, file_id: u64, rs: Seq<LogRecord>) -> nat
    decreases rs.len(),
{
    if rs.len() == 0 {
        0
    } else {
        let r = rs.last();
        replay_stale(m, file_id, rs.drop_last()) + op_stale(
            replay(m, file_id, rs.drop_last()),
            r.command.key_view(),
            is_set(r),
            (r.end - r.start) as nat,
        )
    }
}

/// `a + b`, held at `u64::MAX`.
pub open spec fn sat(a: nat, b: nat) -> u64 {
    if a + b > u64::MAX { u64::MAX } else { (a + b) as u64 }
}

/// Replays the decoded records of one log file of generation `file_id` into `index`, in
/// order, and returns the number of bytes found dead (held at `u64::MAX`).
pub fn load(file_id: u64, records: &Vec<LogRecord>, index: &mut KeyIndex) -> (r: u64)
    requires
        old(index).wf(),
        records_ok(records@),
    ensures
        final(index).wf(),
        final(index)@ == replay(old(index)@, file_id, records@),
        r == sat(0, replay_stale(old(index)@, file_id, records@)),
{
    let ghost m0 = index@;
    let mut uncompacted: u64 = 0;
    let mut i: usize = 0;
    proof { assert(records@.take(0) =~= Seq::<LogRecord>::empty()); }
    while i < records.len()
        invariant
            index.wf(),
            records_ok(records@),
            0 <= i <= records@.len(),
            index@ == replay(m0, file_id, records@.take(i as int)),
            uncompacted == sat(0, replay_stale(m0, file_id, records@.take(i as int))),
        decreases records@.len() - i,
    {
        let rec = &records[i];
        proof {
            assert(records@.take(i + 1).drop_last() =~= records@.take(i as int));
            assert(records@.take(i + 1).last() == records@[i as int]);
            assert(rec.start <= rec.end);
        }
        let size = rec.end - rec.start;
        match &rec.command {
            Command::SET { key, .. } => {
                let loc = CommandEntry::from_range(file_id, rec.start, rec.end);
                if let Some(prev) = index.insert(key.clone(), loc) {
                    uncompacted = uncompacted.saturating_add(prev.cmd_size);
                }
            },
            Command::REMOVE { key } => {
                if let Some(prev) = index.remove(key) {
                    uncompacted = uncompacted.saturating_add(prev.cmd_size);
                }
                uncompacted = uncompacted.saturating_add(size);
            },
        }
        i = i + 1;
    }
    proof { assert(records@.take(records@.len() as int) =~= records@); }
    uncompacted
}

} // verus!
