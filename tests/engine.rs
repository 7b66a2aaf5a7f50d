use std::collections::BTreeMap;

use kvs::command::{value_from_command, Command, CommandEntry, KvsError, LogRecord};
use kvs::engine::{CompactionPlan, KvCore, COMPACTION_THRESHOLD};
use kvs::gens::{gen_from_file_name, sorted_gen_list};
use kvs::index::KeyIndex;

/// A directory of logs held in memory: generation -> records by start offset, and length.
struct MemDir {
    files: BTreeMap<u64, (BTreeMap<u64, LogRecord>, u64)>,
}

/// An engine over a `MemDir`, doing what the file-backed store does.
struct MemStore {
    dir: MemDir,
    core: KvCore,
    compactions: usize,
}

fn encoded_len(cmd: &Command) -> u64 {
    match cmd {
        Command::SET { key, value } => 27 + key.len() as u64 + value.len() as u64,
        Command::REMOVE { key } => 19 + key.len() as u64,
    }
}

impl MemDir {
    fn new() -> MemDir {
        MemDir { files: BTreeMap::new() }
    }

    fn append(&mut self, gen: u64, cmd: Command) -> (u64, u64) {
        let file = self.files.entry(gen).or_insert((BTreeMap::new(), 0));
        let start = file.1;
        let end = start + encoded_len(&cmd);
        file.0.insert(start, LogRecord { command: cmd, start, end });
        file.1 = end;
        (start, end)
    }

    fn total_bytes(&self) -> u64 {
        self.files.values().map(|f| f.1).sum()
    }
}

impl MemStore {
    fn open(dir: MemDir) -> MemStore {
        let names: Vec<String> = dir.files.keys().map(|g| format!("{}.log", g)).collect();
        let gens = sorted_gen_list(&names);
        let mut core = KvCore::start(gens.clone());
        for g in &gens {
            let records: Vec<LogRecord> = dir.files[g].0.values().cloned().collect();
            core.replay_log(*g, &records);
        }
        let mut dir = dir;
        dir.files.entry(core.current_gen()).or_insert((BTreeMap::new(), 0));
        MemStore { dir, core, compactions: 0 }
    }

    fn set(&mut self, key: &str, value: &str) {
        let gen = self.core.current_gen();
        let (start, end) = self.dir.append(gen, Command::SET { key: key.to_string(), value: value.to_string() });
        if self.core.record_set(key.to_string(), start, end) {
            self.compact();
        }
    }

    fn remove(&mut self, key: &str) -> Result<(), KvsError> {
        if self.core.locate(&key.to_string()).is_none() {
            return Err(KvsError::NotFound);
        }
        let gen = self.core.current_gen();
        let (start, end) = self.dir.append(gen, Command::REMOVE { key: key.to_string() });
        if self.core.record_remove(&key.to_string(), start, end)? {
            self.compact();
        }
        Ok(())
    }

    fn get(&self, key: &str) -> Result<Option<String>, KvsError> {
        match self.core.locate(&key.to_string()) {
            None => Ok(None),
            Some(loc) => {
                let rec = &self.dir.files[&loc.file_id].0[&loc.cmd_pos];
                assert_eq!(rec.end - rec.start, loc.cmd_size);
                value_from_command(&key.to_string(), rec.command.clone()).map(Some)
            }
        }
    }

    fn compact(&mut self) -> CompactionPlan {
        let plan = self.core.compact().unwrap();
        self.dir.files.insert(plan.active_gen, (BTreeMap::new(), 0));
        let mut out: BTreeMap<u64, LogRecord> = BTreeMap::new();
        for (from, to) in &plan.copies {
            let rec = &self.dir.files[&from.file_id].0[&from.cmd_pos];
            out.insert(to.cmd_pos, LogRecord { command: rec.command.clone(), start: to.cmd_pos, end: to.cmd_pos + to.cmd_size });
        }
        self.dir.files.insert(plan.compaction_gen, (out, plan.compacted_bytes));
        for g in &plan.stale_gens {
            self.dir.files.remove(g);
        }
        self.compactions += 1;
        plan
    }

    fn close(self) -> MemDir {
        self.dir
    }
}

#[test]
fn set_then_get() {
    let mut s = MemStore::open(MemDir::new());
    s.set("a", "1");
    assert_eq!(s.get("a"), Ok(Some("1".to_string())));
}

#[test]
fn overwrite_survives_reopen() {
    let mut s = MemStore::open(MemDir::new());
    s.set("a", "1");
    s.set("a", "2");
    assert_eq!(s.get("a"), Ok(Some("2".to_string())));
    let s = MemStore::open(s.close());
    assert_eq!(s.get("a"), Ok(Some("2".to_string())));
}

#[test]
fn remove_then_get_and_remove_again() {
    let mut s = MemStore::open(MemDir::new());
    s.set("a", "1");
    assert_eq!(s.remove("a"), Ok(()));
    assert_eq!(s.get("a"), Ok(None));
    assert_eq!(s.remove("a"), Err(KvsError::NotFound));
}

#[test]
fn many_overwrites_compact() {
    let mut s = MemStore::open(MemDir::new());
    for i in 0..10_000 {
        s.set(&format!("k{}", i), &format!("v{}", i));
    }
    for i in 0..10_000 {
        s.set(&format!("k{}", i), &format!("w{}", i));
    }
    for i in 0..10_000 {
        assert_eq!(s.get(&format!("k{}", i)), Ok(Some(format!("w{}", i))));
    }
    assert!(s.dir.files.len() < 10_000);
    // Records of this size leave about 380 KB dead per round; two more rounds pass the
    // threshold.
    for round in ["x", "y"] {
        for i in 0..10_000 {
            s.set(&format!("k{}", i), &format!("{}{}", round, i));
        }
    }
    assert!(s.compactions >= 1);
    for i in 0..10_000 {
        assert_eq!(s.get(&format!("k{}", i)), Ok(Some(format!("y{}", i))));
    }
    assert!(s.dir.files.len() < 10_000);
    let s = MemStore::open(s.close());
    assert_eq!(s.get("k9999"), Ok(Some("y9999".to_string())));
}

#[test]
fn large_values_bounded_after_compaction() {
    let mut s = MemStore::open(MemDir::new());
    let big = "x".repeat(2048);
    for i in 0..1000 {
        s.set(&format!("key{}", i), &format!("{}{}", big, i));
    }
    for i in 0..1000 {
        assert_eq!(s.get(&format!("key{}", i)), Ok(Some(format!("{}{}", big, i))));
    }
    let plan = s.compact();
    let live: u64 = plan.copies.iter().map(|c| c.0.cmd_size).sum();
    assert_eq!(plan.compacted_bytes, live);
    assert!(s.dir.total_bytes() <= 3 * live);
    for i in 0..1000 {
        assert_eq!(s.get(&format!("key{}", i)), Ok(Some(format!("{}{}", big, i))));
    }
}

#[test]
fn reopen_twice_is_identical() {
    let mut s = MemStore::open(MemDir::new());
    s.set("a", "1");
    s.set("b", "2");
    s.remove("a").unwrap();
    let dir = s.close();
    let copy = MemDir { files: dir.files.clone() };
    let s1 = MemStore::open(dir);
    let s2 = MemStore::open(copy);
    for k in ["a", "b", "c"] {
        assert_eq!(s1.get(k), s2.get(k));
    }
    assert_eq!(s1.core.uncompacted(), s2.core.uncompacted());
    assert_eq!(s1.core.current_gen(), s2.core.current_gen());
    assert_eq!(s1.get("b"), Ok(Some("2".to_string())));
}

#[test]
fn compaction_keeps_every_value() {
    let mut s = MemStore::open(MemDir::new());
    s.set("a", "1");
    s.set("b", "2");
    s.set("a", "3");
    s.remove("b").unwrap();
    s.set("c", "4");
    let before_gen = s.core.current_gen();
    let plan = s.compact();
    assert_eq!(plan.compaction_gen, before_gen + 1);
    assert_eq!(plan.active_gen, before_gen + 2);
    assert_eq!(s.core.uncompacted(), 0);
    assert_eq!(s.get("a"), Ok(Some("3".to_string())));
    assert_eq!(s.get("b"), Ok(None));
    assert_eq!(s.get("c"), Ok(Some("4".to_string())));
    let s = MemStore::open(s.close());
    assert_eq!(s.get("a"), Ok(Some("3".to_string())));
    assert_eq!(s.get("c"), Ok(Some("4".to_string())));
    assert_eq!(s.core.current_gen(), before_gen + 3);
}

#[test]
fn stale_bytes_count_overwrites_and_tombstones() {
    let mut core = KvCore::start(vec![]);
    assert_eq!(core.current_gen(), 1);
    assert!(!core.record_set("a".to_string(), 0, 10));
    assert_eq!(core.uncompacted(), 0);
    assert!(!core.record_set("a".to_string(), 10, 25));
    assert_eq!(core.uncompacted(), 10);
    assert_eq!(core.record_remove(&"a".to_string(), 25, 32), Ok(false));
    assert_eq!(core.uncompacted(), 10 + 15 + 7);
    assert_eq!(core.record_remove(&"a".to_string(), 32, 39), Err(KvsError::NotFound));
    assert_eq!(core.uncompacted(), 32);
    assert_eq!(core.locate(&"a".to_string()), None);
}

#[test]
fn threshold_triggers_compaction() {
    let mut core = KvCore::start(vec![3, 7]);
    assert_eq!(core.current_gen(), 8);
    assert!(!core.record_set("k".to_string(), 0, COMPACTION_THRESHOLD));
    assert!(!core.record_set("k".to_string(), COMPACTION_THRESHOLD, COMPACTION_THRESHOLD + 1));
    assert!(core.record_set("k".to_string(), COMPACTION_THRESHOLD + 1, COMPACTION_THRESHOLD + 2));
    let plan = core.compact().unwrap();
    assert_eq!(plan.stale_gens, vec![3, 7, 8]);
    assert_eq!(plan.compaction_gen, 9);
    assert_eq!(plan.active_gen, 10);
    assert_eq!(plan.compacted_bytes, 1);
    assert_eq!(core.locate(&"k".to_string()), Some(CommandEntry { file_id: 9, cmd_pos: 0, cmd_size: 1 }));
}

#[test]
fn replay_counts_dead_bytes() {
    let mut core = KvCore::start(vec![1]);
    let records = vec![
        LogRecord { command: Command::SET { key: "a".to_string(), value: "1".to_string() }, start: 0, end: 5 },
        LogRecord { command: Command::SET { key: "b".to_string(), value: "1".to_string() }, start: 5, end: 9 },
        LogRecord { command: Command::SET { key: "a".to_string(), value: "2".to_string() }, start: 9, end: 16 },
        LogRecord { command: Command::REMOVE { key: "b".to_string() }, start: 16, end: 19 },
    ];
    core.replay_log(1, &records);
    assert_eq!(core.uncompacted(), 5 + 4 + 3);
    assert_eq!(core.locate(&"a".to_string()), Some(CommandEntry::from_range(1, 9, 16)));
    assert_eq!(core.locate(&"b".to_string()), None);
    assert_eq!(core.current_gen(), 2);
}

#[test]
fn compact_empty_index() {
    let mut core = KvCore::start(vec![]);
    let plan = core.compact().unwrap();
    assert!(plan.copies.is_empty());
    assert_eq!(plan.compacted_bytes, 0);
    assert_eq!(plan.stale_gens, vec![1]);
    assert_eq!(core.current_gen(), 3);
}

#[test]
fn value_check_on_decoded_command() {
    let a = "a".to_string();
    assert_eq!(value_from_command(&a, Command::SET { key: "a".to_string(), value: "v".to_string() }), Ok("v".to_string()));
    assert_eq!(value_from_command(&a, Command::SET { key: "b".to_string(), value: "v".to_string() }), Err(KvsError::Corrupt));
    assert_eq!(value_from_command(&a, Command::REMOVE { key: "a".to_string() }), Err(KvsError::Corrupt));
}

#[test]
fn file_names_to_generations() {
    assert_eq!(gen_from_file_name(&"12.log".to_string()), Some(12));
    assert_eq!(gen_from_file_name(&"+5.log".to_string()), Some(5));
    assert_eq!(gen_from_file_name(&"12.txt".to_string()), None);
    assert_eq!(gen_from_file_name(&".log".to_string()), None);
    assert_eq!(gen_from_file_name(&"x1.log".to_string()), None);
    assert_eq!(gen_from_file_name(&"-1.log".to_string()), None);
    assert_eq!(gen_from_file_name(&"18446744073709551616.log".to_string()), None);
    assert_eq!(gen_from_file_name(&"18446744073709551615.log".to_string()), Some(u64::MAX));
    let names: Vec<String> = ["10.log", "2.log", "notes.txt", "2.log", "a.log", "1.log"].iter().map(|s| s.to_string()).collect();
    assert_eq!(sorted_gen_list(&names), vec![1, 2, 10]);
    assert_eq!(sorted_gen_list(&vec![]), Vec::<u64>::new());
}

#[test]
fn key_index_insert_remove() {
    let mut idx = KeyIndex::new();
    let e1 = CommandEntry::from_range(1, 0, 4);
    let e2 = CommandEntry::from_range(2, 4, 9);
    assert_eq!(idx.insert("x".to_string(), e1), None);
    assert_eq!(idx.insert("y".to_string(), e1), None);
    assert_eq!(idx.insert("x".to_string(), e2), Some(e1));
    assert_eq!(idx.len(), 2);
    assert_eq!(idx.get(&"x".to_string()), Some(e2));
    assert_eq!(idx.remove(&"x".to_string()), Some(e2));
    assert_eq!(idx.remove(&"x".to_string()), None);
    assert_eq!(idx.get(&"y".to_string()), Some(e1));
    assert_eq!(idx.live_bytes_checked(), Some(4));
    assert_eq!(idx.len(), 1);
}

#[test]
fn error_messages() {
    assert_eq!(KvsError::NotFound.message(), "Key not found");
}
