use vstd::prelude::*;

verus! {

/// Location of one encoded command: a byte range in the log file of a generation.
#[derive(Clone, Copy, Debug, PartialEq, Eq, Structural)]
pub struct CommandEntry {
    /// Generation of the log file holding the command.
    pub file_id: u64,
    /// Offset of the command's first byte.
    pub cmd_pos: u64,
    /// Number of bytes of the encoded command.
    pub cmd_size: u64,
}

impl CommandEntry {
    /// The entry for the byte range `start..end` of generation `file_id`.
    pub fn from_range(file_id: u64, start: u64, end: u64) -> (r: CommandEntry)
        requires
            start <= end,
        ensures
            r.file_id == file_id,
            r.cmd_pos == start,
            r.cmd_size == end - start,
    {
        CommandEntry { file_id, cmd_pos: start, cmd_size: end - start }
    }
}

/// One command of the log.
#[derive(Clone, Debug)]
pub enum Command {
    /// Binds `key` to `value`.
    SET { key: String, value: String },
    /// Removes the binding of `key` (a tombstone).
    REMOVE { key: String },
}

impl Command {
    /// The key that the command is about.
    pub open spec fn key_view(self) -> Seq<char> {
        match self {
            Command::SET { key, .. } => key@,
            Command::REMOVE { key } => key@,
        }
    }
}

/// A decoded command together with the byte range `start..end` that it occupied in its log.
#[derive(Clone, Debug)]
pub struct LogRecord {
    pub command: Command,
    pub start: u64,
    pub end: u64,
}

/// A location record of the earlier single-file layout: the position and size of a value.
#[derive(Clone, Copy, Debug, PartialEq, Eq, Structural)]
pub struct Entry {
    pub field_id: u64,
    pub value_size: u64,
    pub value_pos: u64,
}

/// Errors that the engine distinguishes.
#[derive(Clone, Copy, Debug, PartialEq, Eq, Structural)]
pub enum KvsError {
    /// `remove` of a key that has no binding.
    NotFound,
    /// An index entry led to a command that is not a `SET` of the looked-up key.
    Corrupt,
    /// A byte count does not fit in 64 bits.
    Overflow,
}

impl KvsError {
    /// The message shown to a user for this error.
    pub fn message(&self) -> (r: String) {
        match self {
            KvsError::NotFound => String::from_str("Key not found"),
            KvsError::Corrupt => String::from_str("Corrupt log: index entry does not hold the key's value"),
            KvsError::Overflow => String::from_str("Log offset overflow"),
        }
    }
}

/// What `get` answers for `key` when its index entry decodes to `cmd`.
pub open spec fn value_of_command(key: Seq<char>, cmd: Command) -> Result<Seq<char>, KvsError> {
    match cmd {
        Command::SET { key: k, value } => if k@ == key { Ok(value@) } else { Err(KvsError::Corrupt) },
        Command::REMOVE { .. } => Err(KvsError::Corrupt),
    }
}

/// The value that `cmd`, read at the index location of `key`, holds for `key`:
/// it must be a `SET` of that very key, else the index is corrupt.
pub fn value_from_command(key: &String, cmd: Command) -> (r: Result<String, KvsError>)
    ensures
        match (r, value_of_command(key@, cmd)) {
            (Ok(v), Ok(w)) => v@ == w,
            (Err(e), Err(f)) => e == f,
            _ => false,
        },
{
    match cmd {
        Command::SET { key: k, value } => {
            if k == *key {
                Ok(value)
            } else {
                Err(KvsError::Corrupt)
            }
        },
        Command::REMOVE { .. } => Err(KvsError::Corrupt),
    }
}

} // verus!
