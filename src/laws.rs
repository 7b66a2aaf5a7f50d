use vstd::prelude::*;
use crate::command::{CommandEntry, LogRecord};
use crate::replay::{apply_op, entry_of, is_set, replay};

verus! {

/// Whether record `i` of `rs` is the last one on key `k`.
pub open spec fn last_on(rs: Seq<LogRecord>, k: Seq<char>, i: int) -> bool {
    &&& 0 <= i < rs.len()
    &&& rs[i].command.key_view() == k
    &&& forall|j: int| i < j < rs.len() ==> (#[trigger] rs[j]).command.key_view() != k
}

/// Index authority: after replaying a log, a key is bound exactly when the last command
/// on it is a `SET`, and then to that command's location; a key that no command touches
/// keeps its binding from before.
pub proof fn lemma_index_authority(m: Map<Seq<char>, CommandEntry>, g: u64, rs: Seq<LogRecord>, k: Seq<char>)
    ensures
        forall|i: int| #[trigger] last_on(rs, k, i) ==> if is_set(rs[i]) {
            replay(m, g, rs).contains_key(k) && replay(m, g, rs)[k] == entry_of(g, rs[i])
        } else {
            !replay(m, g, rs).contains_key(k)
        },
        (forall|j: int| 0 <= j < rs.len() ==> (#[trigger] rs[j]).command.key_view() != k) ==> {
            &&& replay(m, g, rs).contains_key(k) == m.contains_key(k)
            &&& m.contains_key(k) ==> replay(m, g, rs)[k] == m[k]
        },
    decreases rs.len(),
{
    if rs.len() > 0 {
        let pre = rs.drop_last();
        let r = rs.last();
        lemma_index_authority(m, g, pre, k);
        assert(replay(m, g, rs) == apply_op(replay(m, g, pre), r.command.key_view(), is_set(r), entry_of(g, r)));
        assert forall|i: int| #[trigger] last_on(rs, k, i) implies if is_set(rs[i]) {
            replay(m, g, rs).contains_key(k) && replay(m, g, rs)[k] == entry_of(g, rs[i])
        } else {
            !replay(m, g, rs).contains_key(k)
        } by {
            if i < rs.len() - 1 {
                assert(rs[rs.len() - 1].command.key_view() != k);
                assert forall|j: int| i < j < pre.len() implies (#[trigger] pre[j]).command.key_view() != k by {
                    assert(pre[j] == rs[j]);
                }
                assert(last_on(pre, k, i));
            }
        }
        if forall|j: int| 0 <= j < rs.len() ==> (#[trigger] rs[j]).command.key_view() != k {
            assert forall|j: int| 0 <= j < pre.len() implies (#[trigger] pre[j]).command.key_view() != k by {
                assert(pre[j] == rs[j]);
            }
            assert(rs[rs.len() - 1].command.key_view() != k);
        }
    }
}

/// Persistence: a command appended to a log changes the index exactly as replaying the
/// longer log would, so reopening after any run of commands rebuilds the same index.
pub proof fn lemma_append_replays(m: Map<Seq<char>, CommandEntry>, g: u64, rs: Seq<LogRecord>, r: LogRecord)
    ensures
        replay(m, g, rs.push(r)) == apply_op(replay(m, g, rs), r.command.key_view(), is_set(r), entry_of(g, r)),
{
    assert(rs.push(r).drop_last() =~= rs);
}

/// Remove semantics: after a `REMOVE` of `k` the key is unbound, and every other key keeps
/// its binding.
pub proof fn lemma_remove_unbinds(m: Map<Seq<char>, CommandEntry>, k: Seq<char>, loc: CommandEntry, other: Seq<char>)
    ensures
        !apply_op(m, k, false, loc).contains_key(k),
        other != k ==> apply_op(m, k, false, loc).contains_key(other) == m.contains_key(other)
            && (m.contains_key(other) ==> apply_op(m, k, false, loc)[other] == m[other]),
{
}

} // verus!
