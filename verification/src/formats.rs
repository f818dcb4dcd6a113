//! The two built-in record renderers: a plain text line and a single-line
//! JSON object. Both are pure functions of the record's metadata; the text
//! they produce is specified exactly, character by character.

use vstd::prelude::*;
use vstd::string::StrSliceExecFns;
use vstd::string::StringExecFns;
use crate::appender::Command;
use crate::appender::FastLogRecord;
use crate::appender::LevelFilter;
use crate::appender::RecordFormat;
use crate::appender::record_wf;
use crate::date::CalDate;
use crate::date::cal_of;
use crate::date::calendar_of;
use crate::date::local_offset_sec;
use crate::date::push_time_display;
use crate::date::spec_time_display;
use crate::strutil::push_char;
use crate::strutil::push_dec_u32;
use crate::strutil::spec_dec;

verus! {

/// Whether timestamps are rendered in the machine's local offset or in UTC.
#[derive(Clone, Copy, Debug, PartialEq, Eq, Structural)]
pub enum TimeType {
    Local,
    Utc,
}

impl Default for TimeType {
    fn default() -> (r: Self)
        ensures
            r == TimeType::Local,
    {
        TimeType::Local
    }
}

/// The line number a renderer writes: the recorded one, or zero.
pub open spec fn spec_line_or_zero(line: Option<u32>) -> u32 {
    match line {
        Some(l) => l,
        None => 0,
    }
}

fn line_or_zero(line: &Option<u32>) -> (r: u32)
    ensures
        r == spec_line_or_zero(*line),
{
    match line {
        Some(l) => *l,
        None => 0,
    }
}

/// Renders records as `{time} {LEVEL} [{file}:{line}] {args}\n`, dropping the
/// `[{file}:{line}]` part for records less severe than `display_line_level`.
pub struct FastLogFormat {
    /// Most permissive level that still gets its source location written.
    pub display_line_level: LevelFilter,
    pub time_type: TimeType,
    /// Local UTC offset in seconds, sampled when the renderer was built.
    pub offset_sec: i32,
}

impl FastLogFormat {
    /// The UTC offset timestamps are rendered in.
    pub open spec fn spec_offset(self) -> i32 {
        if self.time_type == TimeType::Local {
            self.offset_sec
        } else {
            0
        }
    }

    /// The exact text this renderer produces for a record.
    pub open spec fn spec_formatted(self, r: FastLogRecord) -> Seq<char> {
        let d = cal_of(r.now, self.spec_offset());
        if r.level.spec_rank() <= self.display_line_level.spec_rank() {
            spec_time_display(d) + seq![' '] + r.level.spec_chars() + seq![' ', '['] + r.file@
                + seq![':'] + spec_dec(spec_line_or_zero(r.line) as int) + seq![']', ' '] + r.args@
                + seq!['\n']
        } else {
            spec_time_display(d) + seq![' '] + r.level.spec_chars() + seq![' '] + r.args@
                + seq!['\n']
        }
    }

    pub fn new() -> (r: FastLogFormat)
        ensures
            r.display_line_level == LevelFilter::Info,
            r.time_type == TimeType::Local,
    {
        FastLogFormat {
            display_line_level: LevelFilter::Info,
            time_type: TimeType::default(),
            offset_sec: local_offset_sec(),
        }
    }

    /// Most permissive level whose records still carry `[file:line]`.
    pub fn set_display_line_level(self, level: LevelFilter) -> (r: FastLogFormat)
        ensures
            r == (FastLogFormat { display_line_level: level, ..self }),
    {
        FastLogFormat { display_line_level: level, ..self }
    }

    pub fn set_time_type(self, time_type: TimeType) -> (r: FastLogFormat)
        ensures
            r == (FastLogFormat { time_type: time_type, ..self }),
    {
        FastLogFormat { time_type, ..self }
    }

    /// Builds the text of one record.
    pub fn format_record(&self, arg: &FastLogRecord) -> (out: String)
        requires
            record_wf(*arg),
        ensures
            out@ == self.spec_formatted(*arg),
    {
        let off: i32 = if self.time_type == TimeType::Local {
            self.offset_sec
        } else {
            0
        };
        let d = calendar_of(arg.now, off);
        let mut s = String::new();
        push_time_display(&mut s, d);
        push_char(&mut s, ' ');
        s.append(arg.level.name());
        if arg.level.rank() <= self.display_line_level.rank() {
            push_char(&mut s, ' ');
            push_char(&mut s, '[');
            s.append(arg.file.as_str());
            push_char(&mut s, ':');
            push_dec_u32(&mut s, line_or_zero(&arg.line));
            push_char(&mut s, ']');
            push_char(&mut s, ' ');
            s.append(arg.args.as_str());
            push_char(&mut s, '\n');
            proof {
                assert(s@ =~= self.spec_formatted(*arg));
            }
        } else {
            push_char(&mut s, ' ');
            s.append(arg.args.as_str());
            push_char(&mut s, '\n');
            proof {
                assert(s@ =~= self.spec_formatted(*arg));
            }
        }
        s
    }
}

impl RecordFormat for FastLogFormat {
    /// Renders a write command into `formated`, touching nothing else;
    /// control commands leave the record entirely unchanged.
    fn do_format(&self, arg: &mut FastLogRecord)
        ensures
            match old(arg).command {
                Command::CommandRecord => final(arg).formated@ == self.spec_formatted(*old(arg))
                    && *final(arg) == with_formated(*old(arg), final(arg).formated),
                _ => *final(arg) == *old(arg),
            },
    {
        match arg.command {
            Command::CommandRecord => {
                let s = self.format_record(arg);
                arg.formated = s;
            },
            Command::CommandExit => {},
            Command::CommandFlush(_) => {},
        }
    }
}

/// A record with its rendered text replaced.
pub open spec fn with_formated(r: FastLogRecord, t: String) -> FastLogRecord {
    FastLogRecord { formated: t, ..r }
}

/// Rendering is a pure function of the record's metadata: it never reads
/// `formated`, so rendering an already-rendered record yields the same text.
pub proof fn lemma_text_format_idempotent(f: FastLogFormat, r: FastLogRecord, t: String)
    ensures
        f.spec_formatted(with_formated(r, t)) == f.spec_formatted(r),
{
}

/// One character of `args`, escaped for a JSON string: `"` becomes `\"`.
pub open spec fn spec_escape_piece(c: char) -> Seq<char> {
    if c == '"' {
        seq!['\\', '"']
    } else {
        seq![c]
    }
}

/// A whole string escaped for a JSON string literal.
pub open spec fn spec_escaped(s: Seq<char>) -> Seq<char>
    decreases s.len(),
{
    if s.len() == 0 {
        Seq::<char>::empty()
    } else {
        spec_escape_piece(s[0]) + spec_escaped(s.drop_first())
    }
}

proof fn lemma_escaped_push(s: Seq<char>, c: char)
    ensures
        spec_escaped(s.push(c)) == spec_escaped(s) + spec_escape_piece(c),
    decreases s.len(),
{
    if s.len() == 0 {
        assert(s.push(c).len() == 1);
        assert(s.push(c)[0] == c);
        assert(s.push(c).drop_first() =~= Seq::<char>::empty());
        assert(spec_escaped(s.push(c)) == spec_escape_piece(c) + spec_escaped(
            Seq::<char>::empty(),
        ));
        assert(spec_escaped(s.push(c)) =~= spec_escaped(s) + spec_escape_piece(c));
    } else {
        assert(s.push(c)[0] == s[0]);
        assert(s.push(c).drop_first() =~= s.drop_first().push(c));
        lemma_escaped_push(s.drop_first(), c);
        assert(spec_escaped(s.push(c)) == spec_escape_piece(s[0]) + spec_escaped(
            s.drop_first().push(c),
        ));
        assert(spec_escaped(s.push(c)) =~= spec_escaped(s) + spec_escape_piece(c));
    }
}

fn push_escaped(out: &mut String, s: &str)
    ensures
        final(out)@ == old(out)@ + spec_escaped(s@),
{
    let n = s.unicode_len();
    let mut i: usize = 0;
    while i < n
        invariant
            i <= n,
            n == s@.len(),
            out@ == old(out)@ + spec_escaped(s@.take(i as int)),
        decreases n - i,
    {
        let c = s.get_char(i);
        proof {
            lemma_escaped_push(s@.take(i as int), c);
            assert(s@.take(i as int + 1) =~= s@.take(i as int).push(c));
        }
        if c == '"' {
            push_char(out, '\\');
            push_char(out, '"');
            proof {
                assert(out@ =~= old(out)@ + spec_escaped(s@.take(i as int + 1)));
            }
        } else {
            push_char(out, c);
            proof {
                assert(out@ =~= old(out)@ + spec_escaped(s@.take(i as int + 1)));
            }
        }
        i += 1;
    }
    proof {
        assert(s@.take(n as int) =~= s@);
    }
}

/// One character of `file`, with backslashes normalized to slashes.
pub open spec fn spec_slash_char(c: char) -> char {
    if c == '\\' {
        '/'
    } else {
        c
    }
}

/// A path with every backslash replaced by a forward slash.
pub open spec fn spec_slashed(s: Seq<char>) -> Seq<char> {
    s.map_values(|c: char| spec_slash_char(c))
}

fn push_slashed(out: &mut String, s: &str)
    ensures
        final(out)@ == old(out)@ + spec_slashed(s@),
{
    let n = s.unicode_len();
    let mut i: usize = 0;
    while i < n
        invariant
            i <= n,
            n == s@.len(),
            out@ == old(out)@ + spec_slashed(s@.take(i as int)),
        decreases n - i,
    {
        let c = s.get_char(i);
        let mapped = if c == '\\' {
            '/'
        } else {
            c
        };
        push_char(out, mapped);
        proof {
            assert(spec_slashed(s@.take(i as int + 1)) =~= spec_slashed(s@.take(i as int)).push(
                spec_slash_char(c),
            ));
            assert(out@ =~= old(out)@ + spec_slashed(s@.take(i as int + 1)));
        }
        i += 1;
    }
    proof {
        assert(s@.take(n as int) =~= s@);
    }
}

/// Renders records as one JSON object per line, with the keys `args`, `date`,
/// `file`, `level`, `line` in that order.
pub struct FastLogFormatJson {
    pub time_type: TimeType,
    /// Local UTC offset in seconds, sampled when the renderer was built.
    pub offset_sec: i32,
}

impl Default for FastLogFormatJson {
    fn default() -> (r: Self)
        ensures
            r.time_type == TimeType::Local,
    {
        FastLogFormatJson { time_type: TimeType::default(), offset_sec: local_offset_sec() }
    }
}

impl FastLogFormatJson {
    /// The UTC offset timestamps are rendered in.
    pub open spec fn spec_offset(self) -> i32 {
        if self.time_type == TimeType::Local {
            self.offset_sec
        } else {
            0
        }
    }

    /// The exact text this renderer produces for a record.
    pub open spec fn spec_formatted(self, r: FastLogRecord) -> Seq<char> {
        let d = cal_of(r.now, self.spec_offset());
        "{\"args\":\""@ + spec_escaped(r.args@) + "\",\"date\":\""@ + spec_time_display(d)
            + "\",\"file\":\""@ + spec_slashed(r.file@) + "\",\"level\":\""@ + r.level.spec_chars()
            + "\",\"line\":"@ + spec_dec(spec_line_or_zero(r.line) as int) + "}\n"@
    }

    pub fn new() -> (r: FastLogFormatJson)
        ensures
            r.time_type == TimeType::Local,
    {
        FastLogFormatJson::default()
    }

    /// Builds the text of one record.
    pub fn format_record(&self, arg: &FastLogRecord) -> (out: String)
        requires
            record_wf(*arg),
        ensures
            out@ == self.spec_formatted(*arg),
    {
        let off: i32 = if self.time_type == TimeType::Local {
            self.offset_sec
        } else {
            0
        };
        let d = calendar_of(arg.now, off);
        let mut s = String::new();
        s.append("{\"args\":\"");
        push_escaped(&mut s, arg.args.as_str());
        s.append("\",\"date\":\"");
        push_time_display(&mut s, d);
        s.append("\",\"file\":\"");
        push_slashed(&mut s, arg.file.as_str());
        s.append("\",\"level\":\"");
        s.append(arg.level.name());
        s.append("\",\"line\":");
        push_dec_u32(&mut s, line_or_zero(&arg.line));
        s.append("}\n");
        proof {
            assert(s@ =~= self.spec_formatted(*arg));
        }
        s
    }
}

impl RecordFormat for FastLogFormatJson {
    /// Renders a write command into `formated`, touching nothing else;
    /// control commands leave the record entirely unchanged.
    fn do_format(&self, arg: &mut FastLogRecord)
        ensures
            match old(arg).command {
                Command::CommandRecord => final(arg).formated@ == self.spec_formatted(*old(arg))
                    && *final(arg) == with_formated(*old(arg), final(arg).formated),
                _ => *final(arg) == *old(arg),
            },
    {
        match arg.command {
            Command::CommandRecord => {
                let s = self.format_record(arg);
                arg.formated = s;
            },
            Command::CommandExit => {},
            Command::CommandFlush(_) => {},
        }
    }
}

/// Rendering is a pure function of the record's metadata: it never reads
/// `formated`, so rendering an already-rendered record yields the same text.
pub proof fn lemma_json_format_idempotent(f: FastLogFormatJson, r: FastLogRecord, t: String)
    ensures
        f.spec_formatted(with_formated(r, t)) == f.spec_formatted(r),
{
}

} // verus!
