//! What the logging options ask for.

use crate::plan::slash;
use crate::plan::slash_chars;
use crate::text::chars_of;
use crate::text::lemma_split_nonempty;
use crate::text::split;
use crate::text::split_text;
use crate::text::string_of;
use vstd::prelude::*;

verus! {

/// The logging options of the command line.
#[derive(Clone, Debug, PartialEq, Eq)]
pub struct Opt {
    /// The file to log to.
    pub log_file: Option<String>,
    /// The directory for log files that are rotated.
    pub log_dir: Option<String>,
    /// The level to log at.
    pub log_level: Option<String>,
    /// Whether nothing is to be logged to standard error.
    pub stderr_logging_disable: bool,
    /// How much log the rotated files may hold, in MB.
    pub max_log_size: u64,
}

/// Why logging cannot be set up.
#[derive(Clone, Copy, Debug, PartialEq, Eq, Structural)]
pub enum Error {
    InvalidLoggingLevel,
}

/// How much is logged.
#[derive(Clone, Copy, Debug, PartialEq, Eq, Structural)]
pub enum Level {
    Trace,
    Debug,
    Info,
    Warn,
    Error,
}

/// Log files that follow one another in a directory.
#[derive(Clone, Debug, PartialEq, Eq)]
pub struct Rotation {
    pub directory: String,
    /// A new file is begun when the current one holds this many bytes.
    pub size: u64,
    /// How many files are kept.
    pub keep: usize,
}

/// What to set up.
#[derive(Clone, Debug, PartialEq, Eq)]
pub struct Setup {
    /// The level of the logger.
    pub level: Level,
    /// The file to log to.
    pub file: Option<String>,
    /// The rotated files to log to. Where it is set, `file` counts for
    /// nothing.
    pub rotation: Option<Rotation>,
    /// Whether to say on standard error where the log goes.
    pub announce: bool,
    /// The level from which on messages are repeated on standard error, if
    /// they are at all.
    pub stderr: Option<Level>,
}

/// The number of rotated files, which share the size allowed.
pub open spec fn rotated_files() -> nat {
    8
}

/// The level that a word names.
pub open spec fn level_named(word: Seq<char>) -> Option<Level> {
    if word == "trace"@ {
        Some(Level::Trace)
    } else if word == "debug"@ {
        Some(Level::Debug)
    } else if word == "info"@ {
        Some(Level::Info)
    } else if word == "warn"@ {
        Some(Level::Warn)
    } else if word == "error"@ {
        Some(Level::Error)
    } else {
        None
    }
}

/// The bytes that one rotated file may hold: its share of `max` MB, or as
/// much as 64 bits can say where the share is more than that.
pub open spec fn rotation_size(max: u64) -> u64 {
    if max * 0x100000 / 8 <= u64::MAX {
        (max * 0x100000 / 8) as u64
    } else {
        u64::MAX
    }
}

/// The name of a source file as the console shows it: what follows the last
/// slash, without `.rs` at its end.
pub open spec fn short_name(file: Seq<char>) -> Seq<char> {
    let base = split_text(file, slash()).last();
    if base.len() >= 3 && base.skip(base.len() - 3) == seq!['.', 'r', 's'] {
        base.take(base.len() - 3)
    } else {
        base
    }
}

/// The level that a word names.
pub fn level_of(word: &str) -> (level: Option<Level>)
    ensures
        level == level_named(word@),
{
    let word = word.to_owned();
    if word == "trace".to_owned() {
        Some(Level::Trace)
    } else if word == "debug".to_owned() {
        Some(Level::Debug)
    } else if word == "info".to_owned() {
        Some(Level::Info)
    } else if word == "warn".to_owned() {
        Some(Level::Warn)
    } else if word == "error".to_owned() {
        Some(Level::Error)
    } else {
        None
    }
}

/// The name of a source file as the console shows it.
pub fn short_name_of(file: &str) -> (name: String)
    ensures
        name@ == short_name(file@),
{
    let chars = chars_of(file);
    let sep = slash_chars();
    let mut parts = split(chars.as_slice(), sep.as_slice());
    proof {
        lemma_split_nonempty(file@, slash());
    }
    let ghost base = split_text(file@, slash()).last();
    let mut last = match parts.pop() {
        Some(part) => part,
        None => Vec::new(),
    };
    assert(last@ == base);
    let n = last.len();
    if n >= 3 && last[n - 3] == '.' && last[n - 2] == 'r' && last[n - 1] == 's' {
        assert(base.skip(n - 3) =~= seq!['.', 'r', 's']);
        last.truncate(n - 3);
        assert(last@ =~= base.take(n - 3));
    } else {
        assert(n >= 3 ==> base.skip(n - 3) != seq!['.', 'r', 's']) by {
            if n >= 3 && base.skip(n - 3) == seq!['.', 'r', 's'] {
                assert(base.skip(n - 3)[0] == '.');
                assert(base.skip(n - 3)[1] == 'r');
                assert(base.skip(n - 3)[2] == 's');
            }
        }
    }
    string_of(last.as_slice())
}

impl Opt {
    /// What to set up, or why nothing can be.
    pub fn setup(&self) -> (answer: Result<Setup, Error>)
        ensures
            answer is Err <==> (self.log_level matches Some(word) && level_named(word@) is None),
            answer matches Ok(setup) ==> {
                &&& setup.level == match self.log_level {
                    Some(word) => level_named(word@)->0,
                    None => Level::Info,
                }
                &&& setup.stderr == if self.stderr_logging_disable {
                    None
                } else {
                    Some(
                        match self.log_level {
                            Some(word) => level_named(word@)->0,
                            None => Level::Trace,
                        },
                    )
                }
                &&& setup.file == self.log_file
                &&& setup.announce == (self.log_dir is Some || (self.log_file is Some
                    && !self.stderr_logging_disable))
                &&& match (setup.rotation, self.log_dir) {
                    (Some(rotation), Some(dir)) => {
                        &&& rotation.directory == dir
                        &&& rotation.size == rotation_size(self.max_log_size)
                        &&& rotation.keep == rotated_files()
                    },
                    (None, None) => true,
                    _ => false,
                }
            },
    {
        let named = match &self.log_level {
            Some(word) => match level_of(word.as_str()) {
                Some(level) => Some(level),
                None => {
                    return Err(Error::InvalidLoggingLevel);
                },
            },
            None => None,
        };
        let level = match named {
            Some(level) => level,
            None => Level::Info,
        };
        let stderr = if self.stderr_logging_disable {
            None
        } else {
            Some(
                match named {
                    Some(level) => level,
                    None => Level::Trace,
                },
            )
        };
        let rotation = match &self.log_dir {
            Some(dir) => {
                let size = if self.max_log_size > u64::MAX / 0x20000 {
                    u64::MAX
                } else {
                    self.max_log_size * 0x20000
                };
                Some(Rotation { directory: dir.clone(), size, keep: 8 })
            },
            None => None,
        };
        let announce = self.log_dir.is_some() || (self.log_file.is_some()
            && !self.stderr_logging_disable);
        Ok(Setup { level, file: self.log_file.clone(), rotation, announce, stderr })
    }
}

} // verus!
