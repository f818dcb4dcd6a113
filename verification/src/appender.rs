//! The unit of work of the pipeline: one structured log record, carrying an
//! in-band command, and the interfaces of the parties that consume it.

use vstd::prelude::*;
use crate::date::MICROS_UPPER;

verus! {

/// What the consumer should do with a queued record: write it, shut down, or
/// release the given flush barrier once all earlier records are stable.
#[derive(Clone)]
pub enum Command {
    CommandRecord,
    CommandExit,
    CommandFlush(crossbeam_utils::sync::WaitGroup),
}

/// Severity of a record, most severe first.
#[derive(Clone, Copy, Debug, PartialEq, Eq, Structural)]
pub enum Level {
    Error,
    Warn,
    Info,
    Debug,
    Trace,
}

/// Admission threshold for records, least permissive first.
#[derive(Clone, Copy, Debug, PartialEq, Eq, Structural)]
pub enum LevelFilter {
    Off,
    Error,
    Warn,
    Info,
    Debug,
    Trace,
}

impl Level {
    /// Numeric severity rank: lower is more severe.
    pub open spec fn spec_rank(self) -> int {
        match self {
            Level::Error => 1,
            Level::Warn => 2,
            Level::Info => 3,
            Level::Debug => 4,
            Level::Trace => 5,
        }
    }

    pub fn rank(self) -> (r: u8)
        ensures
            r as int == self.spec_rank(),
    {
        match self {
            Level::Error => 1,
            Level::Warn => 2,
            Level::Info => 3,
            Level::Debug => 4,
            Level::Trace => 5,
        }
    }

    /// The filter that admits exactly this level and the more severe ones.
    pub fn to_level_filter(self) -> (r: LevelFilter)
        ensures
            r.spec_rank() == self.spec_rank(),
    {
        match self {
            Level::Error => LevelFilter::Error,
            Level::Warn => LevelFilter::Warn,
            Level::Info => LevelFilter::Info,
            Level::Debug => LevelFilter::Debug,
            Level::Trace => LevelFilter::Trace,
        }
    }

    /// The upper-case name the formatters write, e.g. `ERROR`.
    pub open spec fn spec_chars(self) -> Seq<char> {
        match self {
            Level::Error => seq!['E', 'R', 'R', 'O', 'R'],
            Level::Warn => seq!['W', 'A', 'R', 'N'],
            Level::Info => seq!['I', 'N', 'F', 'O'],
            Level::Debug => seq!['D', 'E', 'B', 'U', 'G'],
            Level::Trace => seq!['T', 'R', 'A', 'C', 'E'],
        }
    }

    pub fn name(self) -> (r: &'static str)
        ensures
            r@ == self.spec_chars(),
    {
        match self {
            Level::Error => {
                proof {
                    reveal_strlit("ERROR");
                }
                "ERROR"
            },
            Level::Warn => {
                proof {
                    reveal_strlit("WARN");
                }
                "WARN"
            },
            Level::Info => {
                proof {
                    reveal_strlit("INFO");
                }
                "INFO"
            },
            Level::Debug => {
                proof {
                    reveal_strlit("DEBUG");
                }
                "DEBUG"
            },
            Level::Trace => {
                proof {
                    reveal_strlit("TRACE");
                }
                "TRACE"
            },
        }
    }
}

impl LevelFilter {
    /// Numeric rank: `Off` admits nothing, `Trace` admits everything.
    pub open spec fn spec_rank(self) -> int {
        match self {
            LevelFilter::Off => 0,
            LevelFilter::Error => 1,
            LevelFilter::Warn => 2,
            LevelFilter::Info => 3,
            LevelFilter::Debug => 4,
            LevelFilter::Trace => 5,
        }
    }

    pub fn rank(self) -> (r: u8)
        ensures
            r as int == self.spec_rank(),
    {
        match self {
            LevelFilter::Off => 0,
            LevelFilter::Error => 1,
            LevelFilter::Warn => 2,
            LevelFilter::Info => 3,
            LevelFilter::Debug => 4,
            LevelFilter::Trace => 5,
        }
    }
}

/// One queued logging event. `now` is the wall-clock instant in microseconds
/// since the Unix epoch; `formated` is filled by a formatter before the
/// record is enqueued and is the exact text an appender writes.
#[derive(Clone)]
pub struct FastLogRecord {
    pub command: Command,
    pub level: Level,
    pub target: String,
    pub args: String,
    pub module: String,
    pub file: String,
    pub line: Option<u32>,
    pub now: u64,
    pub formated: String,
}

/// Validity of a record: its instant lies in the range the calendar handles.
pub open spec fn record_wf(r: FastLogRecord) -> bool {
    r.now < MICROS_UPPER
}

/// A pluggable renderer that fills `formated` from the other fields.
pub trait RecordFormat: Send + Sync {
    fn do_format(&self, arg: &mut FastLogRecord)
        requires
            record_wf(*old(arg)),
    ;
}

} // verus!
