//! The facade side of the pipeline: the level threshold, the sending half of the
//! record queue, and the interface every appender implements.

use vstd::prelude::*;
use crate::appender::FastLogRecord;
use crate::appender::Level;
use crate::appender::record_wf;
use crate::error::LogError;
use crate::filter::Filter;
use crate::runtime::chan;
use crate::runtime::chan_send;
use crate::strutil::push_char;
use crate::strutil::push_dec_u32;
use crate::strutil::spec_dec;

verus! {

/// Which runtime carries the queue; plain OS threads are the only choice.
#[derive(Clone, Copy, Debug)]
pub enum RuntimeType {
    Std,
}

/// The level threshold consulted before a record is enqueued.
pub struct Logger {
    level: Level,
}

impl Logger {
    /// The level currently admitted.
    pub closed spec fn spec_level(self) -> Level {
        self.level
    }

    /// A fresh logger admits only the most severe level.
    pub fn new() -> (r: Logger)
        ensures
            r.spec_level() == Level::Error,
    {
        Logger { level: Level::Error }
    }

    pub fn set_level(&mut self, level: Level)
        ensures
            final(self).spec_level() == level,
    {
        self.level = level;
    }

    pub fn get_level(&self) -> (r: Level)
        ensures
            r == self.spec_level(),
    {
        self.level
    }

    /// A record is admitted exactly when its level is within the threshold.
    pub fn enabled(&self, level: Level) -> (r: bool)
        ensures
            r == (level.spec_rank() <= self.spec_level().spec_rank()),
    {
        level.rank() <= self.level.rank()
    }
}

/// The source-location suffix of a formatted line: `(file:line)` when both
/// parts are known, nothing otherwise.
pub open spec fn spec_format_line(file: Option<Seq<char>>, line: Option<u32>) -> Seq<char> {
    match (file, line) {
        (Some(f), Some(l)) => seq!['('] + f + seq![':'] + spec_dec(l as int) + seq![')'],
        _ => Seq::<char>::empty(),
    }
}

pub fn format_line(file: Option<&str>, line: Option<u32>) -> (r: String)
    ensures
        r@ == spec_format_line(
            match file {
                Some(f) => Some(f@),
                None => None,
            },
            line,
        ),
{
    match (file, line) {
        (Some(f), Some(l)) => {
            let mut s = String::new();
            push_char(&mut s, '(');
            s.append(f);
            push_char(&mut s, ':');
            push_dec_u32(&mut s, l);
            push_char(&mut s, ')');
            proof {
                assert(s@ =~= seq!['('] + f@ + seq![':'] + spec_dec(l as int) + seq![')']);
            }
            s
        },
        _ => String::new(),
    }
}

/// A sink for batches of records, called in order by the consumer.
pub trait LogAppender: Send {
    fn do_logs(&mut self, records: &[FastLogRecord])
        requires
            forall|i: int| 0 <= i < records@.len() ==> record_wf(records@[i]),
    ;
}

/// The producer-side handle of the record queue, behind the facade.
pub struct LoggerSender<F: Filter> {
    pub runtime_type: RuntimeType,
    pub filter: F,
    pub std_sender: Option<crossbeam_channel::Sender<String>>,
}

impl<F: Filter> LoggerSender<F> {
    /// A bounded queue of the given capacity and its receiving end.
    pub fn new(runtime_type: RuntimeType, cap: usize, filter: F) -> (r: (
        LoggerSender<F>,
        crossbeam_channel::Receiver<String>,
    ))
        ensures
            r.0.std_sender is Some,
            r.0.filter == filter,
            r.0.runtime_type == runtime_type,
    {
        let (s, rcv) = chan(Some(cap));
        (LoggerSender { runtime_type, std_sender: Some(s), filter }, rcv)
    }

    /// Queues one formatted line; an error reports a closed channel.
    pub fn send(&self, data: &str) -> (r: Result<(), LogError>)
        requires
            self.std_sender is Some,
        ensures
            r matches Err(e) ==> e matches LogError::Channel(_),
    {
        let sender = match &self.std_sender {
            Some(s) => s,
            None => {
                proof {
                    assert(false);
                }
                unreached()
            },
        };
        if chan_send(sender, data.to_owned()) {
            Ok(())
        } else {
            Err(LogError::Channel(disconnected_msg()))
        }
    }
}

fn disconnected_msg() -> (r: String) {
    let mut s = String::new();
    s.append("channel disconnected");
    s
}

} // verus!
