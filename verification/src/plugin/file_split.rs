//! The file-split appender and the policies around it: when to cut the
//! active file (rolling), what an archive is called, which archives survive
//! (retention), and the batched write path that feeds the saver.

use vstd::prelude::*;
use vstd::string::StrSliceExecFns;
use vstd::string::StringExecFns;
use crate::appender::Command;
use crate::appender::FastLogRecord;
use crate::appender::record_wf;
use crate::date::CalDate;
use crate::date::MICROS_UPPER;
use crate::date::cal_of;
use crate::date::cal_wf;
use crate::date::calendar_of;
use crate::date::local_offset_sec;
use crate::date::now_micros;
use crate::date::push_stamp;
use crate::date::spec_stamp;
use crate::error::LogError;
use crate::plugin::file_name::extract_file_name;
use crate::plugin::file_name::spec_extract_file_name;
use crate::runtime::chan;
use crate::runtime::chan_send;
use crate::strutil::chars_le;
use crate::strutil::ends_with;
use crate::strutil::lemma_chars_le_concat;
use crate::strutil::lemma_chars_le_refl;
use crate::strutil::eq_str;
use crate::strutil::last_dot;
use crate::strutil::lemma_chars_le_total;
use crate::strutil::lemma_chars_le_trans;
use crate::strutil::push_char;
use crate::strutil::spec_ends_with;
use crate::strutil::spec_starts_with;
use crate::strutil::starts_with;
use crate::strutil::str_le;
use crate::strutil::substr_string;

verus! {

/// Index of the last `.` of a name, or `-1` when it has none.
pub open spec fn spec_last_dot(f: Seq<char>) -> int
    decreases f.len(),
{
    if f.len() == 0 {
        -1
    } else if f.last() == '.' {
        f.len() - 1
    } else {
        spec_last_dot(f.drop_last())
    }
}

pub proof fn lemma_last_dot_at(f: Seq<char>, i: int)
    requires
        0 <= i < f.len(),
        f[i] == '.',
        forall|j: int| i < j < f.len() ==> f[j] != '.',
    ensures
        spec_last_dot(f) == i,
    decreases f.len(),
{
    if i < f.len() - 1 {
        lemma_last_dot_at(f.drop_last(), i);
    }
}

pub proof fn lemma_last_dot_bounds(f: Seq<char>)
    ensures
        -1 <= spec_last_dot(f) < f.len(),
    decreases f.len(),
{
    if f.len() > 0 && f.last() != '.' {
        lemma_last_dot_bounds(f.drop_last());
    }
}

pub proof fn lemma_last_dot_none(f: Seq<char>)
    requires
        forall|j: int| 0 <= j < f.len() ==> f[j] != '.',
    ensures
        spec_last_dot(f) == -1,
    decreases f.len(),
{
    if f.len() > 0 {
        lemma_last_dot_none(f.drop_last());
    }
}

/// A name without its final extension; a name without a dot is its own stem.
pub open spec fn spec_strip_ext(f: Seq<char>) -> Seq<char> {
    if spec_last_dot(f) < 0 {
        f
    } else {
        f.take(spec_last_dot(f))
    }
}

/// The stem that all archives of one active file share.
pub open spec fn spec_base_name(path: Seq<char>) -> Seq<char> {
    spec_strip_ext(spec_extract_file_name(path))
}

/// The stem of the file-name part of a path: the name after the last
/// separator, with its final extension removed.
pub fn get_base_name(path: &str) -> (r: String)
    ensures
        r@ == spec_base_name(path@),
{
    let file_name = extract_file_name(path);
    let n = file_name.as_str().unicode_len();
    match last_dot(file_name.as_str()) {
        None => {
            proof {
                lemma_last_dot_none(file_name@);
            }
            file_name
        },
        Some(i) => {
            proof {
                lemma_last_dot_at(file_name@, i as int);
            }
            substr_string(file_name.as_str(), 0, i)
        },
    }
}

/// The archive name for a rotation stamped with the fields `d`: the stamp is
/// inserted immediately before the final extension of `temp`, or appended
/// when `temp` has no extension.
pub open spec fn spec_archive_name(temp: Seq<char>, d: CalDate) -> Seq<char> {
    let i = spec_last_dot(temp);
    if i < 0 {
        temp + spec_stamp(d)
    } else {
        temp.take(i) + spec_stamp(d) + temp.skip(i)
    }
}

pub fn archive_name(temp_name: &str, d: CalDate) -> (r: String)
    requires
        cal_wf(d),
    ensures
        r@ == spec_archive_name(temp_name@, d),
{
    let n = temp_name.unicode_len();
    match last_dot(temp_name) {
        None => {
            proof {
                lemma_last_dot_none(temp_name@);
            }
            let mut s = temp_name.to_owned();
            push_stamp(&mut s, d);
            s
        },
        Some(i) => {
            proof {
                lemma_last_dot_at(temp_name@, i as int);
            }
            let mut s = substr_string(temp_name, 0, i);
            push_stamp(&mut s, d);
            s.append(temp_name.substring_char(i, n));
            proof {
                assert(s@ =~= spec_archive_name(temp_name@, d));
            }
            s
        },
    }
}

/// What a packer decided for one closed log file: whether the copied source
/// is removed, and the archive (path and bytes) to write, if any.
pub struct PackOutcome {
    pub remove_log_file: bool,
    pub output: Option<(String, Vec<u8>)>,
}

/// A packer's planned archival, described abstractly: whether the plan comes
/// back at all, whether the source is removed, and the archive to write.
pub struct PackPlan {
    pub ok: bool,
    pub remove_log_file: bool,
    pub output: Option<(Seq<char>, Seq<u8>)>,
}

/// Whether a pack result is what a plan said: success exactly as planned,
/// the same removal decision, and the same archive path and bytes, if any.
pub open spec fn pack_matches_plan(r: Result<PackOutcome, LogError>, plan: PackPlan) -> bool {
    &&& (r is Ok <==> plan.ok)
    &&& match r {
        Ok(p) => {
            &&& p.remove_log_file == plan.remove_log_file
            &&& match (p.output, plan.output) {
                (Some(o), Some(q)) => o.0@ == q.0 && o.1@ == q.1,
                (None, None) => true,
                _ => false,
            }
        },
        Err(_) => true,
    }
}

/// Turns a closed log file into its archive. `spec_plan` is the archival the
/// packer plans for given bytes and path; `do_pack` must come back as the
/// plan says; `retry` says how often a failed pack is retried.
pub trait Packer: Send + Sync {
    spec fn spec_plan(&self, contents: Seq<u8>, path: Seq<char>) -> PackPlan;

    fn pack_name(&self) -> &'static str;

    fn do_pack(&self, contents: &Vec<u8>, log_file_path: &str) -> (r: Result<
        PackOutcome,
        LogError,
    >)
        ensures
            pack_matches_plan(r, self.spec_plan(contents@, log_file_path@)),
    ;

    fn retry(&self) -> i32;
}

/// One archival job for the saver: the directory swept by retention, the
/// archive path (empty for a pure flush sentinel), and the barrier to
/// release once the work before it is done.
pub struct LogPack {
    pub dir: String,
    pub new_log_name: String,
    pub wg: Option<crossbeam_utils::sync::WaitGroup>,
}

impl LogPack {
    /// Runs a packer on the bytes of this job's archive, retrying a failed
    /// pack up to `packer.retry()` further times; the last attempt decides,
    /// and every attempt must come back as the packer's plan for these bytes
    /// and this path says.
    pub fn do_pack<P: Packer>(&self, packer: &P, contents: &Vec<u8>) -> (r: Result<
        PackOutcome,
        LogError,
    >)
        requires
            self.new_log_name@.len() > 0,
        ensures
            pack_matches_plan(r, packer.spec_plan(contents@, self.new_log_name@)),
    {
        let mut r = packer.do_pack(contents, self.new_log_name.as_str());
        if r.is_err() {
            let bound = packer.retry();
            let mut tries: i32 = 0;
            while tries < bound && r.is_err()
                invariant
                    pack_matches_plan(r, packer.spec_plan(contents@, self.new_log_name@)),
                decreases bound - tries,
            {
                r = packer.do_pack(contents, self.new_log_name.as_str());
                tries += 1;
            }
        }
        r
    }
}

/// The active file as the appender sees it: an append-only byte string that
/// can be flushed, copied aside, and truncated. The dispatcher is its only
/// writer, so every operation takes the file exclusively.
pub trait SplitFile: Sized {
    /// The bytes the file currently holds; an implementation ties this to
    /// its own state, the default stands for a file with nothing in it.
    open spec fn data(&self) -> Seq<u8> {
        Seq::<u8>::empty()
    }

    /// The path this file stands at; an implementation ties it to what `new`
    /// opened, the default stands for an anonymous file.
    open spec fn spec_path(&self) -> Seq<char> {
        Seq::<char>::empty()
    }

    /// Opens or creates the file at exactly `path`, keeping what it holds.
    fn new(path: &str) -> (r: Result<Self, LogError>)
        ensures
            r matches Ok(f) ==> f.spec_path() == path@,
    ;

    /// Appends `buf`: how many of its leading bytes reached the file (a
    /// short count reports a failed OS write; no byte is lost silently).
    fn write(&mut self, buf: &[u8]) -> (n: usize)
        requires
            old(self).data().len() + buf@.len() <= usize::MAX,
        ensures
            n <= buf@.len(),
            final(self).data() == old(self).data() + buf@.subrange(0, n as int),
            final(self).spec_path() == old(self).spec_path(),
    ;

    /// Empties the file.
    fn truncate(&mut self)
        ensures
            final(self).data() == Seq::<u8>::empty(),
            final(self).spec_path() == old(self).spec_path(),
    ;

    /// Pushes buffered bytes to the OS, changing nothing the file holds.
    fn flush(&mut self)
        ensures
            final(self).data() == old(self).data(),
            final(self).spec_path() == old(self).spec_path(),
    ;

    /// Copies the file's bytes to a new file at `dest`, leaving it unchanged.
    fn copy_to(&mut self, dest: &str) -> (ok: bool)
        ensures
            final(self).data() == old(self).data(),
            final(self).spec_path() == old(self).spec_path(),
    ;

    fn len(&self) -> (n: usize)
        ensures
            n == self.data().len(),
    ;

    /// One less than the length, or zero for an empty file.
    fn offset(&self) -> (n: usize)
        ensures
            n as int == if self.data().len() == 0 {
                0int
            } else {
                self.data().len() - 1
            },
    ;

    /// Puts the write position at the end of the file.
    fn seek_end(&mut self)
        ensures
            final(self).data() == old(self).data(),
            final(self).spec_path() == old(self).spec_path(),
    ;
}

/// The calendar field a date-based policy compares.
#[derive(Clone, Copy, Debug, PartialEq, Eq, Structural)]
pub enum DateType {
    Sec,
    Hour,
    Minute,
    Day,
    Month,
    Year,
}

impl Default for DateType {
    fn default() -> (r: Self)
        ensures
            r == DateType::Day,
    {
        DateType::Day
    }
}

/// A fixed rotation period: a start instant and a duration, in microseconds.
#[derive(Clone, Copy, Debug)]
pub struct DurationType {
    pub last: u64,
    pub start_time: u64,
    pub duration: u64,
}

impl DurationType {
    pub fn new(d: u64) -> (r: DurationType)
        ensures
            r.duration == d,
            r.start_time == r.last,
            r.start_time < MICROS_UPPER,
    {
        let now = clamped_now();
        DurationType { last: now, start_time: now, duration: d }
    }
}

/// The current instant, kept below the calendar bound.
fn clamped_now() -> (r: u64)
    ensures
        r < MICROS_UPPER,
{
    let t = now_micros();
    if t >= MICROS_UPPER {
        MICROS_UPPER - 1
    } else {
        t
    }
}

/// When the active file is cut: on a calendar-field change, at a byte size,
/// or after a fixed duration (start instant and length, in microseconds).
#[derive(Clone, Copy, Debug)]
pub enum RollingType {
    ByDate(DateType),
    BySize(usize),
    ByDuration(u64, u64),
}

/// Decides rotation; an implementation may keep state between records.
/// Returning a name means: cut now, and call the archive that.
pub trait CanRollingPack: Send {
    fn can(&mut self, temp_name: &str, temp_size: usize, arg: &FastLogRecord) -> Option<String>
        requires
            record_wf(*arg),
    ;
}

/// The built-in rotation policy: remembers the instant of the previous
/// decision and the local UTC offset sampled at construction.
pub struct Rolling {
    pub last: u64,
    pub offset_sec: i32,
    pub how: RollingType,
}

/// Whether the calendar field selected by `dt` differs between two instants.
pub open spec fn spec_date_differs(dt: DateType, a: CalDate, b: CalDate) -> bool {
    match dt {
        DateType::Sec => a.sec != b.sec,
        DateType::Hour => a.hour != b.hour,
        DateType::Minute => a.minute != b.minute,
        DateType::Day => a.day != b.day,
        DateType::Month => a.mon != b.mon,
        DateType::Year => a.year != b.year,
    }
}

pub open spec fn rolling_wf(r: Rolling) -> bool {
    r.last < MICROS_UPPER
}

impl Rolling {
    /// Whether a record at instant `now`, with `temp_size` projected bytes,
    /// makes this policy cut the file.
    pub open spec fn spec_due(self, temp_size: usize, now: u64) -> bool {
        match self.how {
            RollingType::ByDate(dt) => spec_date_differs(
                dt,
                cal_of(self.last, self.offset_sec),
                cal_of(now, self.offset_sec),
            ),
            RollingType::BySize(limit) => temp_size >= limit,
            RollingType::ByDuration(start, dur) => start + dur <= now,
        }
    }

    pub fn new(how: RollingType) -> (r: Rolling)
        ensures
            r.how == how,
            rolling_wf(r),
    {
        Rolling { last: clamped_now(), offset_sec: local_offset_sec(), how }
    }

    /// The rotation decision. When it fires, the archive is named after the
    /// instant of the previous decision (the last write of the closed file),
    /// and the policy's memory advances to the record's instant.
    pub fn can(&mut self, temp_name: &str, temp_size: usize, arg: &FastLogRecord) -> (r: Option<
        String,
    >)
        requires
            rolling_wf(*old(self)),
            record_wf(*arg),
        ensures
            rolling_wf(*final(self)),
            r is Some <==> old(self).spec_due(temp_size, arg.now),
            r matches Some(name) ==> name@ == spec_archive_name(
                temp_name@,
                cal_of(old(self).last, old(self).offset_sec),
            ),
            final(self).last == arg.now,
            final(self).offset_sec == old(self).offset_sec,
            match old(self).how {
                RollingType::ByDuration(start, dur) => if old(self).spec_due(temp_size, arg.now) {
                    exists|s2: u64| final(self).how == RollingType::ByDuration(s2, dur)
                } else {
                    final(self).how == old(self).how
                },
                _ => final(self).how == old(self).how,
            },
    {
        let last_time = self.last;
        self.last = arg.now;
        match self.how {
            RollingType::ByDate(dt) => {
                let lt = calendar_of(last_time, self.offset_sec);
                let ct = calendar_of(arg.now, self.offset_sec);
                let diff = match dt {
                    DateType::Sec => ct.sec != lt.sec,
                    DateType::Hour => ct.hour != lt.hour,
                    DateType::Minute => ct.minute != lt.minute,
                    DateType::Day => ct.day != lt.day,
                    DateType::Month => ct.mon != lt.mon,
                    DateType::Year => ct.year != lt.year,
                };
                if diff {
                    Some(archive_name(temp_name, lt))
                } else {
                    None
                }
            },
            RollingType::BySize(limit) => {
                if temp_size >= limit {
                    let lt = calendar_of(last_time, self.offset_sec);
                    Some(archive_name(temp_name, lt))
                } else {
                    None
                }
            },
            RollingType::ByDuration(start, dur) => {
                let due = match start.checked_add(dur) {
                    Some(next) => next <= arg.now,
                    None => false,
                };
                if due {
                    let lt = calendar_of(last_time, self.offset_sec);
                    let name = archive_name(temp_name, lt);
                    self.how = RollingType::ByDuration(clamped_now(), dur);
                    Some(name)
                } else {
                    None
                }
            },
        }
    }
}

impl CanRollingPack for Rolling {
    /// The contracted decision of `Rolling::can` whenever the policy's
    /// memory is within the calendar range (which every policy built by
    /// `Rolling::new` keeps); a policy driven out of range only advances its
    /// memory and declines to rotate.
    fn can(&mut self, temp_name: &str, temp_size: usize, arg: &FastLogRecord) -> (r: Option<
        String,
    >)
        ensures
            final(self).last == arg.now,
            final(self).offset_sec == old(self).offset_sec,
            rolling_wf(*old(self)) ==> {
                &&& rolling_wf(*final(self))
                &&& (r is Some <==> old(self).spec_due(temp_size, arg.now))
                &&& (r matches Some(name) ==> name@ == spec_archive_name(
                    temp_name@,
                    cal_of(old(self).last, old(self).offset_sec),
                ))
                &&& match old(self).how {
                    RollingType::ByDuration(start, dur) => if old(self).spec_due(
                        temp_size,
                        arg.now,
                    ) {
                        exists|s2: u64| final(self).how == RollingType::ByDuration(s2, dur)
                    } else {
                        final(self).how == old(self).how
                    },
                    _ => final(self).how == old(self).how,
                }
            },
            !rolling_wf(*old(self)) ==> r is None && final(self).how == old(self).how,
    {
        if self.last < MICROS_UPPER {
            Rolling::can(self, temp_name, temp_size, arg)
        } else {
            self.last = arg.now;
            None
        }
    }
}

/// One directory entry considered by retention: a file name and its creation
/// instant in microseconds since the Unix epoch.
pub struct LogFileEntry {
    pub name: String,
    pub created: u64,
}

fn clone_entry(e: &LogFileEntry) -> (r: LogFileEntry)
    ensures
        r == *e,
{
    LogFileEntry { name: e.name.clone(), created: e.created }
}

/// Entries in file-name-descending order; with stamped archive names this is
/// newest first.
pub open spec fn sorted_desc(s: Seq<LogFileEntry>) -> bool {
    forall|i: int, j: int| 0 <= i < j < s.len() ==> chars_le(s[j].name@, s[i].name@)
}

/// Whether a directory entry counts as an archive of the active file named
/// `temp`: it shares the stem but is not the active file itself.
pub open spec fn spec_is_archive_entry(e: LogFileEntry, temp: Seq<char>) -> bool {
    e.name@ != temp && spec_starts_with(e.name@, spec_base_name(temp))
}

/// The archive entries of `temp`, in file-name-descending order.
pub open spec fn spec_archive_entries(entries: Seq<LogFileEntry>, temp: Seq<char>) -> Seq<
    LogFileEntry,
> {
    entries.filter(|e: LogFileEntry| spec_is_archive_entry(e, temp))
}

fn insert_sorted(v: &mut Vec<LogFileEntry>, e: LogFileEntry)
    requires
        sorted_desc(old(v)@),
    ensures
        sorted_desc(final(v)@),
        final(v)@.to_multiset() == old(v)@.to_multiset().insert(e),
{
    broadcast use vstd::seq_lib::to_multiset_insert;

    let ghost v0 = v@;
    let mut p: usize = 0;
    while p < v.len() && str_le(e.name.as_str(), v[p].name.as_str())
        invariant
            p <= v@.len(),
            v@ == v0,
            sorted_desc(v@),
            forall|q: int| 0 <= q < p ==> chars_le(e.name@, v@[q].name@),
        decreases v@.len() - p,
    {
        p += 1;
    }
    proof {
        if (p as int) < v@.len() {
            lemma_chars_le_total(e.name@, v@[p as int].name@);
        }
    }
    let ghost pi = p as int;
    v.insert(p, e);
    proof {
        assert forall|i: int, j: int| 0 <= i < j < v@.len() implies chars_le(
            v@[j].name@,
            v@[i].name@,
        ) by {
            if i < pi && j == pi {
            } else if i == pi && j > pi {
                if j - 1 > pi {
                    assert(chars_le(v0[j - 1].name@, v0[pi].name@));
                    lemma_chars_le_trans(v@[j].name@, v0[pi].name@, e.name@);
                } else {
                    assert(v@[j].name@ == v0[pi].name@);
                }
            } else {
            }
        }
    }
}

/// The archives beside the active file `temp_name`, sorted newest first:
/// the entries sharing the stem, except the active file itself.
pub fn read_paths(entries: &Vec<LogFileEntry>, temp_name: &str) -> (r: Vec<LogFileEntry>)
    ensures
        sorted_desc(r@),
        r@.to_multiset() == spec_archive_entries(entries@, temp_name@).to_multiset(),
{
    broadcast use vstd::seq_lib::to_multiset_build;

    let base = get_base_name(temp_name);
    let mut out: Vec<LogFileEntry> = Vec::new();
    proof {
        assert(spec_archive_entries(entries@.take(0), temp_name@) =~= Seq::<LogFileEntry>::empty())
            by {
            reveal(Seq::filter);
        }
        assert(out@ =~= spec_archive_entries(entries@.take(0), temp_name@));
    }
    let mut i: usize = 0;
    while i < entries.len()
        invariant
            i <= entries@.len(),
            base@ == spec_base_name(temp_name@),
            sorted_desc(out@),
            out@.to_multiset() == spec_archive_entries(
                entries@.take(i as int),
                temp_name@,
            ).to_multiset(),
        decreases entries@.len() - i,
    {
        let e = &entries[i];
        proof {
            lemma_archive_entries_push(entries@.take(i as int), entries@[i as int], temp_name@);
            assert(entries@.take(i as int + 1) =~= entries@.take(i as int).push(
                entries@[i as int],
            ));
        }
        if !eq_str(e.name.as_str(), temp_name) && starts_with(e.name.as_str(), base.as_str()) {
            insert_sorted(&mut out, clone_entry(e));
            proof {
                vstd::seq_lib::to_multiset_build(
                    spec_archive_entries(entries@.take(i as int), temp_name@),
                    entries@[i as int],
                );
            }
        }
        i += 1;
    }
    proof {
        assert(entries@.take(entries@.len() as int) =~= entries@);
    }
    out
}

proof fn lemma_archive_entries_push(s: Seq<LogFileEntry>, x: LogFileEntry, temp: Seq<char>)
    ensures
        spec_archive_entries(s.push(x), temp) == if spec_is_archive_entry(x, temp) {
            spec_archive_entries(s, temp).push(x)
        } else {
            spec_archive_entries(s, temp)
        },
{
    reveal(Seq::filter);
    assert(s.push(x).drop_last() =~= s);
    assert(s.push(x).last() == x);
}

/// Which archives survive: all of them, the newest `n`, or those younger
/// than a duration (in microseconds).
#[derive(Copy, Clone, Debug)]
pub enum KeepType {
    All,
    KeepTime(u64),
    KeepNum(i64),
}

/// How many leading (newest) entries of a list of length `len` a
/// `KeepNum(n)` policy retains; a negative `n` retains everything.
pub open spec fn spec_keep_count(n: i64, len: nat) -> nat {
    if n < 0 {
        len
    } else if n as nat <= len {
        n as nat
    } else {
        len
    }
}

/// The entries a sweep at instant `now` deletes from a sorted list.
pub open spec fn spec_removed(k: KeepType, s: Seq<LogFileEntry>, now: u64) -> Seq<LogFileEntry> {
    match k {
        KeepType::All => Seq::<LogFileEntry>::empty(),
        KeepType::KeepNum(n) => s.skip(spec_keep_count(n, s.len()) as int),
        KeepType::KeepTime(d) => spec_expired(s, d, now),
    }
}

/// The entries a sweep at instant `now` leaves on disk.
pub open spec fn spec_survivors(k: KeepType, s: Seq<LogFileEntry>, now: u64) -> Seq<LogFileEntry> {
    match k {
        KeepType::All => s,
        KeepType::KeepNum(n) => s.take(spec_keep_count(n, s.len()) as int),
        KeepType::KeepTime(d) => spec_retained(s, d, now),
    }
}

/// The entries older than `d` at instant `now`.
pub open spec fn spec_expired(s: Seq<LogFileEntry>, d: u64, now: u64) -> Seq<LogFileEntry> {
    s.filter(|e: LogFileEntry| e.created + d < now)
}

/// The entries at most `d` old at instant `now`.
pub open spec fn spec_retained(s: Seq<LogFileEntry>, d: u64, now: u64) -> Seq<LogFileEntry> {
    s.filter(|e: LogFileEntry| !(e.created + d < now))
}

proof fn lemma_expired_push(s: Seq<LogFileEntry>, x: LogFileEntry, d: u64, now: u64)
    ensures
        spec_expired(s.push(x), d, now) == if x.created + d < now {
            spec_expired(s, d, now).push(x)
        } else {
            spec_expired(s, d, now)
        },
{
    reveal(Seq::filter);
    assert(s.push(x).drop_last() =~= s);
    assert(s.push(x).last() == x);
}

/// Decides retention; given the archives of one active file, newest first,
/// it returns the names to delete.
pub trait Keep: Send {
    fn do_keep(&self, sorted: &Vec<LogFileEntry>, now: u64) -> Vec<String>;
}

impl KeepType {
    /// The names a sweep at instant `now` deletes from the sorted archive
    /// list: everything beyond the newest `n`, or everything older than the
    /// duration, or nothing.
    pub fn select_removals(&self, sorted: &Vec<LogFileEntry>, now: u64) -> (r: Vec<String>)
        ensures
            r@.len() == spec_removed(*self, sorted@, now).len(),
            forall|k: int|
                0 <= k < r@.len() ==> r@[k]@ == spec_removed(*self, sorted@, now)[k].name@,
    {
        match self {
            KeepType::All => Vec::new(),
            KeepType::KeepNum(n) => {
                let nn = *n;
                let len = sorted.len();
                let start: usize = if nn < 0 {
                    len
                } else if nn as u64 >= len as u64 {
                    len
                } else {
                    nn as usize
                };
                let mut out: Vec<String> = Vec::new();
                let mut i: usize = start;
                while i < len
                    invariant
                        start <= i <= len,
                        len == sorted@.len(),
                        out@.len() == i - start,
                        forall|k: int| 0 <= k < out@.len() ==> out@[k]@ == sorted@[start + k].name@,
                    decreases len - i,
                {
                    out.push(sorted[i].name.clone());
                    i += 1;
                }
                proof {
                    assert(start as nat == spec_keep_count(nn, sorted@.len()));
                }
                out
            },
            KeepType::KeepTime(d) => {
                let dd = *d;
                let len = sorted.len();
                let mut out: Vec<String> = Vec::new();
                let mut i: usize = 0;
                while i < len
                    invariant
                        i <= len,
                        len == sorted@.len(),
                        out@.len() == spec_expired(sorted@.take(i as int), dd, now).len(),
                        forall|k: int|
                            0 <= k < out@.len() ==> out@[k]@ == spec_expired(
                                sorted@.take(i as int),
                                dd,
                                now,
                            )[k].name@,
                    decreases len - i,
                {
                    proof {
                        lemma_expired_push(
                            sorted@.take(i as int),
                            sorted@[i as int],
                            dd,
                            now,
                        );
                        assert(sorted@.take(i as int + 1) =~= sorted@.take(i as int).push(
                            sorted@[i as int],
                        ));
                    }
                    let e = &sorted[i];
                    let old_enough = match e.created.checked_add(dd) {
                        Some(limit) => limit < now,
                        None => false,
                    };
                    if old_enough {
                        out.push(e.name.clone());
                    }
                    i += 1;
                }
                proof {
                    assert(sorted@.take(len as int) =~= sorted@);
                }
                out
            },
        }
    }
}

impl Keep for KeepType {
    /// Exactly the names `select_removals` picks: everything beyond the
    /// newest `n`, everything older than the window, or nothing.
    fn do_keep(&self, sorted: &Vec<LogFileEntry>, now: u64) -> (r: Vec<String>)
        ensures
            r@.len() == spec_removed(*self, sorted@, now).len(),
            forall|k: int|
                0 <= k < r@.len() ==> r@[k]@ == spec_removed(*self, sorted@, now)[k].name@,
    {
        self.select_removals(sorted, now)
    }
}

/// With `KeepNum(n)`, `n ≥ 0`, at most `n` archives sharing the stem survive
/// a sweep.
pub proof fn lemma_keep_num_survivors(n: i64, s: Seq<LogFileEntry>, now: u64)
    requires
        n >= 0,
    ensures
        spec_survivors(KeepType::KeepNum(n), s, now).len() <= n,
{
}

proof fn lemma_expired_none(t: Seq<LogFileEntry>, d: u64, now: u64)
    requires
        forall|i: int| 0 <= i < t.len() ==> !(t[i].created + d < now),
    ensures
        spec_expired(t, d, now).len() == 0,
    decreases t.len(),
{
    reveal(Seq::filter);
    if t.len() > 0 {
        lemma_expired_none(t.drop_last(), d, now);
    }
}

/// Retention is idempotent: a second sweep over the survivors of a first
/// sweep, at the same instant, removes nothing.
pub proof fn lemma_retention_idempotent(k: KeepType, s: Seq<LogFileEntry>, now: u64)
    ensures
        spec_removed(k, spec_survivors(k, s, now), now).len() == 0,
{
    match k {
        KeepType::All => {
        },
        KeepType::KeepNum(n) => {
        },
        KeepType::KeepTime(d) => {
            broadcast use vstd::seq_lib::group_filter_ensures;

            let t = spec_retained(s, d, now);
            assert forall|i: int| 0 <= i < t.len() implies !(t[i].created + d < now) by {
            }
            lemma_expired_none(t, d, now);
        },
    }
}

/// The bytes a record contributes to the active file: the UTF-8 encoding of
/// its rendered text.
pub open spec fn spec_payload(r: FastLogRecord) -> Seq<u8> {
    vstd::utf8::encode_utf8(r.formated@)
}

/// What one queued record adds to the file: its payload for a write command,
/// nothing for the control commands.
pub open spec fn spec_record_piece(r: FastLogRecord) -> Seq<u8> {
    match r.command {
        Command::CommandRecord => spec_payload(r),
        _ => Seq::<u8>::empty(),
    }
}

/// The bytes a whole batch adds, in batch order.
pub open spec fn spec_batch_payload(rs: Seq<FastLogRecord>) -> Seq<u8>
    decreases rs.len(),
{
    if rs.len() == 0 {
        Seq::<u8>::empty()
    } else {
        spec_record_piece(rs[0]) + spec_batch_payload(rs.drop_first())
    }
}

proof fn lemma_batch_payload_push(rs: Seq<FastLogRecord>, r: FastLogRecord)
    ensures
        spec_batch_payload(rs.push(r)) == spec_batch_payload(rs) + spec_record_piece(r),
    decreases rs.len(),
{
    if rs.len() == 0 {
        assert(rs.push(r).len() == 1);
        assert(rs.push(r)[0] == r);
        assert(rs.push(r).drop_first() =~= Seq::<FastLogRecord>::empty());
        assert(spec_batch_payload(rs.push(r)) == spec_record_piece(r) + spec_batch_payload(
            Seq::<FastLogRecord>::empty(),
        ));
        assert(spec_batch_payload(rs.push(r)) =~= spec_batch_payload(rs) + spec_record_piece(r));
    } else {
        assert(rs.push(r)[0] == rs[0]);
        assert(rs.push(r).drop_first() =~= rs.drop_first().push(r));
        lemma_batch_payload_push(rs.drop_first(), r);
        assert(spec_batch_payload(rs.push(r)) =~= spec_batch_payload(rs) + spec_record_piece(r));
    }
}

/// Within one batch, payloads land in batch order: the bytes contributed by
/// the first `k` records form a prefix of the whole batch payload, so an
/// earlier record's bytes always sit at a lower offset than a later one's.
pub proof fn lemma_batch_payload_split(rs: Seq<FastLogRecord>, k: int)
    requires
        0 <= k <= rs.len(),
    ensures
        spec_batch_payload(rs) == spec_batch_payload(rs.take(k)) + spec_batch_payload(rs.skip(k)),
    decreases rs.len(),
{
    if k == 0 {
        assert(rs.take(0) =~= Seq::<FastLogRecord>::empty());
        assert(rs.skip(0) =~= rs);
        assert(spec_batch_payload(rs) =~= spec_batch_payload(rs.take(0)) + spec_batch_payload(
            rs.skip(0),
        ));
    } else {
        lemma_batch_payload_split(rs.drop_first(), k - 1);
        assert(rs.drop_first().take(k - 1) =~= rs.take(k).drop_first());
        assert(rs.drop_first().skip(k - 1) =~= rs.skip(k));
        assert(rs.take(k).len() > 0 && rs.take(k)[0] == rs[0]);
        assert(spec_batch_payload(rs.take(k)) == spec_record_piece(rs[0]) + spec_batch_payload(
            rs.take(k).drop_first(),
        ));
        assert(spec_batch_payload(rs) =~= spec_batch_payload(rs.take(k)) + spec_batch_payload(
            rs.skip(k),
        ));
    }
}

/// All the bytes of a sequence of files, in order.
pub open spec fn spec_cat(files: Seq<Seq<u8>>) -> Seq<u8>
    decreases files.len(),
{
    if files.len() == 0 {
        Seq::<u8>::empty()
    } else {
        files[0] + spec_cat(files.drop_first())
    }
}

proof fn lemma_spec_cat_push(files: Seq<Seq<u8>>, f: Seq<u8>)
    ensures
        spec_cat(files.push(f)) == spec_cat(files) + f,
    decreases files.len(),
{
    if files.len() == 0 {
        assert(files.push(f).len() == 1);
        assert(files.push(f)[0] == f);
        assert(files.push(f).drop_first() =~= Seq::<Seq<u8>>::empty());
        assert(spec_cat(files.push(f)) == f + spec_cat(Seq::<Seq<u8>>::empty()));
        assert(spec_cat(files.push(f)) =~= spec_cat(files) + f);
    } else {
        assert(files.push(f)[0] == files[0]);
        assert(files.push(f).drop_first() =~= files.drop_first().push(f));
        lemma_spec_cat_push(files.drop_first(), f);
        assert(spec_cat(files.push(f)) == files[0] + spec_cat(files.drop_first().push(f)));
        assert(spec_cat(files.push(f)) =~= spec_cat(files) + f);
    }
}

proof fn lemma_prefix_trans<A>(a: Seq<A>, b: Seq<A>, c: Seq<A>)
    requires
        a.is_prefix_of(b),
        b.is_prefix_of(c),
    ensures
        a.is_prefix_of(c),
{
    assert(a =~= c.subrange(0, a.len() as int));
}

/// The record index of the most recent cut, or the batch start.
pub open spec fn spec_last_cut(cuts: Seq<int>) -> int {
    if cuts.len() == 0 {
        0
    } else {
        cuts.last()
    }
}

/// How one batch carved the byte stream into files. `cuts` are the record
/// indices at which rotations fell: the first closed file holds whatever the
/// active file held when the batch began plus the whole payloads of the
/// records before the first cut, every later closed file holds the whole
/// payloads between two cuts, and the active file ends with the whole
/// payloads after the last cut. A record's bytes are never split across a
/// file boundary.
pub open spec fn spec_cut_points(
    old_file: Seq<u8>,
    old_archives: Seq<Seq<u8>>,
    new_archives: Seq<Seq<u8>>,
    new_file: Seq<u8>,
    rs: Seq<FastLogRecord>,
    cuts: Seq<int>,
) -> bool {
    &&& new_archives.len() == old_archives.len() + cuts.len()
    &&& old_archives.is_prefix_of(new_archives)
    &&& forall|j: int| 0 <= j < cuts.len() ==> 0 <= #[trigger] cuts[j] <= rs.len()
    &&& forall|j: int| 0 <= j && j + 1 < cuts.len() ==> #[trigger] cuts[j] <= cuts[j + 1]
    &&& cuts.len() > 0 ==> new_archives[old_archives.len() as int] == old_file
        + spec_batch_payload(rs.take(cuts[0]))
    &&& forall|j: int|
        1 <= j < cuts.len() ==> new_archives[old_archives.len() + j] == spec_batch_payload(
            rs.subrange(cuts[j - 1], #[trigger] cuts[j]),
        )
    &&& new_file == (if cuts.len() == 0 {
        old_file
    } else {
        Seq::<u8>::empty()
    }) + spec_batch_payload(rs.skip(spec_last_cut(cuts)))
}

/// One rotation step of the cut bookkeeping: closing the active file at
/// record `i` turns a valid cut description for `cuts` into one for
/// `cuts.push(i)`, the closed file holding exactly the payloads since the
/// previous cut (behind the pre-batch bytes, for the first cut).
proof fn lemma_cut_step(
    file0: Seq<u8>,
    arch0: Seq<Seq<u8>>,
    arch_mid: Seq<Seq<u8>>,
    arch_new: Seq<Seq<u8>>,
    filestart: Seq<u8>,
    temp0: Seq<u8>,
    rs: Seq<FastLogRecord>,
    cuts: Seq<int>,
    i: int,
)
    requires
        0 <= i <= rs.len(),
        forall|j: int| 0 <= j < cuts.len() ==> 0 <= #[trigger] cuts[j] <= i,
        forall|j: int| 0 <= j && j + 1 < cuts.len() ==> #[trigger] cuts[j] <= cuts[j + 1],
        arch_mid.len() == arch0.len() + cuts.len(),
        cuts.len() > 0 ==> arch_mid[arch0.len() as int] == file0 + spec_batch_payload(
            rs.take(cuts[0]),
        ),
        forall|j: int|
            1 <= j < cuts.len() ==> arch_mid[arch0.len() + j] == spec_batch_payload(
                rs.subrange(cuts[j - 1], #[trigger] cuts[j]),
            ),
        filestart == (if cuts.len() == 0 {
            file0
        } else {
            Seq::<u8>::empty()
        }),
        temp0 == spec_batch_payload(rs.subrange(spec_last_cut(cuts), i)),
        arch_new == arch_mid.push(filestart + temp0),
    ensures
        ({
            let c2 = cuts.push(i);
            &&& forall|j: int| 0 <= j < c2.len() ==> 0 <= #[trigger] c2[j] <= i
            &&& forall|j: int| 0 <= j && j + 1 < c2.len() ==> #[trigger] c2[j] <= c2[j + 1]
            &&& arch_new.len() == arch0.len() + c2.len()
            &&& arch_new[arch0.len() as int] == file0 + spec_batch_payload(rs.take(c2[0]))
            &&& forall|j: int|
                1 <= j < c2.len() ==> arch_new[arch0.len() + j] == spec_batch_payload(
                    rs.subrange(c2[j - 1], #[trigger] c2[j]),
                )
        }),
{
    let c2 = cuts.push(i);
    assert(c2.len() == cuts.len() + 1);
    assert(c2[cuts.len() as int] == i);
    if cuts.len() == 0 {
        assert(rs.subrange(0, i) =~= rs.take(i));
        assert(arch_new[arch0.len() as int] == file0 + spec_batch_payload(rs.take(i)));
    } else {
        assert(filestart + temp0 =~= temp0);
        assert(arch_new[arch0.len() + cuts.len() as int] == spec_batch_payload(
            rs.subrange(cuts.last(), i),
        ));
    }
    assert forall|j: int| 0 <= j < c2.len() implies 0 <= #[trigger] c2[j] <= i by {
        if j < cuts.len() {
            assert(c2[j] == cuts[j]);
        } else {
            assert(c2[j] == i);
        }
    }
    assert forall|j: int| 0 <= j && j + 1 < c2.len() implies #[trigger] c2[j] <= c2[j + 1] by {
        assert(0 <= j < cuts.len());
        assert(c2[j] == cuts[j]);
        if j + 1 < cuts.len() {
            assert(c2[j + 1] == cuts[j + 1]);
        } else {
            assert(c2[j + 1] == i);
        }
    }
    if cuts.len() > 0 {
        assert(c2[0] == cuts[0]);
        assert(arch_new[arch0.len() as int] == arch_mid[arch0.len() as int]);
    }
    assert forall|j: int|
        1 <= j < c2.len() implies arch_new[arch0.len() + j] == spec_batch_payload(
        rs.subrange(c2[j - 1], #[trigger] c2[j]),
    ) by {
        if j < cuts.len() {
            assert(c2[j] == cuts[j]);
            assert(c2[j - 1] == cuts[j - 1]);
            assert(arch_new[arch0.len() + j] == arch_mid[arch0.len() + j]);
        } else {
            assert(c2[j] == i);
            assert(c2[j - 1] == cuts[j - 1]);
            assert(cuts[j - 1] == spec_last_cut(cuts));
        }
    }
}

/// The name of the active file derived from a destination path; an empty
/// file-name part falls back to `temp.log`.
pub open spec fn spec_temp_name(path: Seq<char>) -> Seq<char> {
    if spec_extract_file_name(path).len() == 0 {
        "temp.log"@
    } else {
        spec_extract_file_name(path)
    }
}

/// The directory part: the path with the active-file name stripped off its
/// end (or the whole path when the name does not end it); a path that is
/// nothing but a file name resolves to `.`, the working directory.
pub open spec fn spec_dir_path(path: Seq<char>) -> Seq<char> {
    let t = spec_temp_name(path);
    let stripped = if spec_ends_with(path, t) {
        path.take(path.len() - t.len())
    } else {
        path
    };
    if stripped.len() == 0 {
        "."@
    } else {
        stripped
    }
}

/// One pack job as it went onto the saver's queue, described abstractly:
/// the directory retention sweeps, the archive path (empty for a pure flush
/// sentinel), and whether a flush barrier rides along.
pub struct SentPack {
    pub dir: Seq<char>,
    pub new_log_name: Seq<char>,
    pub has_wg: bool,
}

/// The archive path `send_pack` composes: the directory, a separator when
/// the directory does not already end with one, then the archive name.
pub open spec fn spec_archive_path(dir: Seq<char>, name: Seq<char>) -> Seq<char> {
    if dir.len() > 0 && dir.last() != '/' {
        dir + seq!['/'] + name
    } else {
        dir + name
    }
}

/// How many of these queued jobs carry a flush barrier.
pub open spec fn spec_wg_count(jobs: Seq<SentPack>) -> int
    decreases jobs.len(),
{
    if jobs.len() == 0 {
        0
    } else {
        spec_wg_count(jobs.drop_last()) + if jobs.last().has_wg {
            1int
        } else {
            0int
        }
    }
}

/// How many records of a batch are flush commands.
pub open spec fn spec_flush_count(rs: Seq<FastLogRecord>) -> int
    decreases rs.len(),
{
    if rs.len() == 0 {
        0
    } else {
        spec_flush_count(rs.drop_last()) + (match rs.last().command {
            Command::CommandFlush(_) => 1int,
            _ => 0int,
        })
    }
}

proof fn lemma_wg_count_push(jobs: Seq<SentPack>, x: SentPack)
    ensures
        spec_wg_count(jobs.push(x)) == spec_wg_count(jobs) + if x.has_wg {
            1int
        } else {
            0int
        },
{
    assert(jobs.push(x).drop_last() =~= jobs);
    assert(jobs.push(x).last() == x);
}

proof fn lemma_flush_count_push(rs: Seq<FastLogRecord>, r: FastLogRecord)
    ensures
        spec_flush_count(rs.push(r)) == spec_flush_count(rs) + (match r.command {
            Command::CommandFlush(_) => 1int,
            _ => 0int,
        }),
{
    assert(rs.push(r).drop_last() =~= rs);
    assert(rs.push(r).last() == r);
}

/// The instant the rolling policy remembers after the first `k` records of
/// a batch: the instant of the last record it was consulted for (exit
/// commands are not consulted), or its own when none was.
pub open spec fn spec_prev_instant(init: u64, rs: Seq<FastLogRecord>, k: int) -> u64
    decreases k,
{
    if k <= 0 {
        init
    } else {
        match rs[k - 1].command {
            Command::CommandExit => spec_prev_instant(init, rs, k - 1),
            _ => rs[k - 1].now,
        }
    }
}

/// One enqueue step of the job bookkeeping: pushing a job keeps the earlier
/// jobs a prefix, keeps every batch job aimed at the one directory, and
/// raises the barrier count exactly when the job carries one.
proof fn lemma_sent_step(
    sent0: Seq<SentPack>,
    sent_mid: Seq<SentPack>,
    sent_new: Seq<SentPack>,
    job: SentPack,
    dirv: Seq<char>,
)
    requires
        sent0.is_prefix_of(sent_mid),
        sent_new == sent_mid.push(job),
        job.dir == dirv,
        forall|j: int| sent0.len() <= j < sent_mid.len() ==> (#[trigger] sent_mid[j]).dir == dirv,
    ensures
        sent0.is_prefix_of(sent_new),
        forall|j: int| sent0.len() <= j < sent_new.len() ==> (#[trigger] sent_new[j]).dir == dirv,
        spec_wg_count(sent_new.skip(sent0.len() as int)) == spec_wg_count(
            sent_mid.skip(sent0.len() as int),
        ) + if job.has_wg {
            1int
        } else {
            0int
        },
{
    assert(sent0 =~= sent_new.subrange(0, sent0.len() as int));
    assert(sent_new.skip(sent0.len() as int) =~= sent_mid.skip(sent0.len() as int).push(job));
    lemma_wg_count_push(sent_mid.skip(sent0.len() as int), job);
    assert forall|j: int|
        sent0.len() <= j < sent_new.len() implies (#[trigger] sent_new[j]).dir == dirv by {
        if j < sent_mid.len() {
            assert(sent_new[j] == sent_mid[j]);
        }
    }
}

/// The path the appender opens its active file at: the directory, a
/// separator when there is a directory part, then the active-file name.
pub open spec fn spec_active_path(path: Seq<char>) -> Seq<char> {
    let d = spec_dir_path(path);
    let t = spec_temp_name(path);
    if d.len() > 0 {
        d + seq!['/'] + t
    } else {
        d + t
    }
}

/// The stateful sink at the end of the pipeline: it appends rendered records
/// to the active file, cuts it when the rolling policy says so, and hands
/// each closed file to the saver through `sender`.
pub struct FileSplitAppender<F: SplitFile> {
    pub file: F,
    pub dir_path: String,
    pub sender: crossbeam_channel::Sender<LogPack>,
    pub rolling: Rolling,
    pub temp_bytes: usize,
    pub temp_name: String,
    /// The contents of every closed file, one entry per rotation, oldest
    /// first; it keeps where the cuts fell, not only the bytes.
    pub archived: Ghost<Seq<Seq<u8>>>,
    /// Every job this appender has queued for the saver, in queue order.
    pub sent: Ghost<Seq<SentPack>>,
}

impl<F: SplitFile> FileSplitAppender<F> {
    /// The byte counter always mirrors the active file, and the rolling
    /// policy's memory stays within the calendar range.
    pub open spec fn wf(self) -> bool {
        self.temp_bytes == self.file.data().len() && rolling_wf(self.rolling)
    }

    /// Everything this appender has durably produced: the archives in
    /// rotation order, then the active file.
    pub open spec fn spec_history(self) -> Seq<u8> {
        spec_cat(self.archived@) + self.file.data()
    }

    /// Opens the appender over `file_path`: derives the active-file name and
    /// directory, opens the file keeping its contents, and returns the
    /// receiving end of the pack-job queue for the saver to drain. The
    /// directory must already exist; whoever performs I/O creates it first.
    pub fn new(file_path: &str, rolling: Rolling) -> (r: Result<
        (FileSplitAppender<F>, crossbeam_channel::Receiver<LogPack>),
        LogError,
    >)
        requires
            rolling_wf(rolling),
        ensures
            r matches Ok(pair) ==> {
                &&& pair.0.wf()
                &&& pair.0.temp_name@ == spec_temp_name(file_path@)
                &&& pair.0.dir_path@ == spec_dir_path(file_path@)
                &&& pair.0.file.spec_path() == spec_active_path(file_path@)
                &&& pair.0.temp_bytes == pair.0.file.data().len()
                &&& pair.0.archived@ == Seq::<Seq<u8>>::empty()
                &&& pair.0.sent@ == Seq::<SentPack>::empty()
                &&& pair.0.rolling == rolling
            },
    {
        let extracted = extract_file_name(file_path);
        let temp_name: String = if extracted.as_str().unicode_len() == 0 {
            "temp.log".to_owned()
        } else {
            extracted
        };
        let n = file_path.unicode_len();
        let tn = temp_name.as_str().unicode_len();
        let stripped: String = if ends_with(file_path, temp_name.as_str()) {
            substr_string(file_path, 0, n - tn)
        } else {
            file_path.to_owned()
        };
        let dir_path: String = if stripped.as_str().unicode_len() == 0 {
            ".".to_owned()
        } else {
            stripped
        };
        let mut temp_file = dir_path.clone();
        if !temp_file.as_str().is_empty() {
            push_char(&mut temp_file, '/');
        }
        temp_file.append(temp_name.as_str());
        let file = match F::new(temp_file.as_str()) {
            Ok(f) => f,
            Err(e) => {
                return Err(e);
            },
        };
        let temp_bytes = file.len();
        let mut file = file;
        file.seek_end();
        let (sender, receiver) = chan::<LogPack>(None);
        Ok(
            (
                FileSplitAppender {
                    file,
                    dir_path,
                    sender,
                    rolling,
                    temp_bytes,
                    temp_name,
                    archived: Ghost(Seq::<Seq<u8>>::empty()),
                    sent: Ghost(Seq::<SentPack>::empty()),
                },
                receiver,
            ),
        )
    }

    /// Closes the current epoch: flushes the handle, copies the active file
    /// to the archive name, queues the pack job (with the barrier, if any),
    /// then truncates the active file and resets the byte counter. The old
    /// active file becomes, whole, the newest archive.
    pub fn send_pack(&mut self, new_log_name: String, wg: Option<crossbeam_utils::sync::WaitGroup>)
        ensures
            final(self).temp_bytes == 0,
            final(self).file.data() == Seq::<u8>::empty(),
            final(self).archived@ == old(self).archived@.push(old(self).file.data()),
            final(self).spec_history() == old(self).spec_history(),
            final(self).sent@ == old(self).sent@.push(
                SentPack {
                    dir: old(self).dir_path@,
                    new_log_name: spec_archive_path(old(self).dir_path@, new_log_name@),
                    has_wg: wg is Some,
                },
            ),
            final(self).temp_name == old(self).temp_name,
            final(self).dir_path == old(self).dir_path,
            final(self).rolling == old(self).rolling,
    {
        proof {
            reveal_strlit("/");
            assert("/"@ =~= seq!['/']);
            if self.dir_path@.len() > 0 {
                assert(self.dir_path@.subrange(
                    self.dir_path@.len() - 1,
                    self.dir_path@.len() as int,
                ) =~= seq![self.dir_path@.last()]);
                if self.dir_path@.last() == '/' {
                    assert(seq![self.dir_path@.last()] =~= seq!['/']);
                } else {
                    assert(seq![self.dir_path@.last()][0] != seq!['/'][0]);
                }
                assert(spec_ends_with(self.dir_path@, "/"@) == (self.dir_path@.last() == '/'));
            } else {
                assert(!spec_ends_with(self.dir_path@, "/"@));
            }
        }
        let ghost has_wg = wg is Some;
        let needs_sep = !self.dir_path.as_str().is_empty() && !ends_with(
            self.dir_path.as_str(),
            "/",
        );
        let mut new_log_path = self.dir_path.clone();
        if needs_sep {
            push_char(&mut new_log_path, '/');
        }
        new_log_path.append(new_log_name.as_str());
        proof {
            assert(new_log_path@ =~= spec_archive_path(self.dir_path@, new_log_name@));
        }
        self.sent = Ghost(
            self.sent@.push(
                SentPack {
                    dir: self.dir_path@,
                    new_log_name: new_log_path@,
                    has_wg,
                },
            ),
        );
        self.file.flush();
        let _ = self.file.copy_to(new_log_path.as_str());
        let _ = chan_send(
            &self.sender,
            LogPack { dir: self.dir_path.clone(), new_log_name: new_log_path, wg },
        );
        self.archived = Ghost(self.archived@.push(self.file.data()));
        self.file.truncate();
        self.temp_bytes = 0;
        proof {
            lemma_spec_cat_push(old(self).archived@, old(self).file.data());
            assert(self.spec_history() =~= old(self).spec_history());
        }
    }

    /// Empties the active file and resets the byte counter.
    pub fn truncate(&mut self)
        ensures
            final(self).temp_bytes == 0,
            final(self).file.data() == Seq::<u8>::empty(),
            final(self).archived == old(self).archived,
            final(self).sent == old(self).sent,
            final(self).temp_name == old(self).temp_name,
            final(self).dir_path == old(self).dir_path,
            final(self).rolling == old(self).rolling,
    {
        self.file.truncate();
        self.temp_bytes = 0;
    }

    pub fn temp_name(&self) -> (r: &str)
        ensures
            r@ == self.temp_name@,
    {
        self.temp_name.as_str()
    }

    /// Writes the buffered batch text to the active file and empties the
    /// buffer. The result says whether every byte reached the file; a short
    /// OS write (or a buffer that can no longer fit the counter) loses the
    /// unwritten tail, and only shortens the file's history.
    fn flush_buffer(&mut self, temp: &mut Vec<u8>) -> (ok: bool)
        requires
            old(self).wf(),
        ensures
            final(self).wf(),
            final(temp)@.len() == 0,
            final(self).archived == old(self).archived,
            final(self).sent == old(self).sent,
            final(self).temp_name == old(self).temp_name,
            final(self).dir_path == old(self).dir_path,
            final(self).rolling == old(self).rolling,
            final(self).spec_history().len() <= old(self).spec_history().len() + old(temp)@.len(),
            old(self).spec_history().is_prefix_of(final(self).spec_history()),
            ok <==> final(self).spec_history() == old(self).spec_history() + old(temp)@,
            ok ==> final(self).file.data() == old(self).file.data() + old(temp)@,
            !ok ==> final(self).spec_history().len() < old(self).spec_history().len() + old(
                temp,
            )@.len(),
    {
        if self.temp_bytes <= usize::MAX - temp.len() {
            let w = self.file.write(temp.as_slice());
            self.temp_bytes = self.temp_bytes + w;
            let ok = w == temp.len();
            proof {
                assert(self.spec_history() =~= old(self).spec_history() + temp@.subrange(
                    0,
                    w as int,
                ));
                assert(old(self).spec_history() =~= self.spec_history().subrange(
                    0,
                    old(self).spec_history().len() as int,
                ));
                if ok {
                    assert(temp@.subrange(0, w as int) =~= temp@);
                    assert(final(self).spec_history() =~= old(self).spec_history() + temp@);
                } else {
                    assert(final(self).spec_history().len() < old(self).spec_history().len()
                        + temp@.len());
                }
            }
            temp.clear();
            ok
        } else {
            proof {
                assert(old(self).spec_history() =~= self.spec_history().subrange(
                    0,
                    self.spec_history().len() as int,
                ));
            }
            temp.clear();
            false
        }
    }

    /// The batched write path. Each write command's payload is appended to
    /// the batch buffer; when the rolling policy fires, the buffer is
    /// flushed and the file is cut, so the firing record starts the new
    /// file. A flush command queues its barrier behind all earlier packs:
    /// every flush contributes exactly one barrier-carrying job to `sent`,
    /// in order. The result says whether every byte reached the file;
    /// exactly then the appender's history has grown by the batch payload,
    /// carved at the cut points, in batch order. The policy's memory
    /// advances to the last consulted record's instant.
    #[verifier::rlimit(100)]
    pub fn do_logs(&mut self, records: &[FastLogRecord]) -> (all_ok: bool)
        requires
            old(self).wf(),
            forall|k: int| 0 <= k < records@.len() ==> record_wf(records@[k]),
        ensures
            final(self).wf(),
            final(self).temp_name == old(self).temp_name,
            final(self).dir_path == old(self).dir_path,
            all_ok <==> final(self).spec_history() == old(self).spec_history()
                + spec_batch_payload(records@),
            old(self).spec_history().is_prefix_of(final(self).spec_history()),
            old(self).archived@.is_prefix_of(final(self).archived@),
            final(self).spec_history().len() <= old(self).spec_history().len()
                + spec_batch_payload(records@).len(),
            all_ok ==> exists|cuts: Seq<int>|
                spec_cut_points(
                    old(self).file.data(),
                    old(self).archived@,
                    final(self).archived@,
                    final(self).file.data(),
                    records@,
                    cuts,
                ),
            old(self).sent@.is_prefix_of(final(self).sent@),
            forall|j: int|
                old(self).sent@.len() <= j < final(self).sent@.len()
                    ==> (#[trigger] final(self).sent@[j]).dir == old(self).dir_path@,
            spec_wg_count(final(self).sent@.skip(old(self).sent@.len() as int))
                == spec_flush_count(records@),
            final(self).rolling.offset_sec == old(self).rolling.offset_sec,
            !(old(self).rolling.how is ByDuration) ==> final(self).rolling.how == old(
                self,
            ).rolling.how,
            final(self).rolling.last == spec_prev_instant(
                old(self).rolling.last,
                records@,
                records@.len() as int,
            ),
    {
        let ghost base = old(self).spec_history();
        let ghost arch0 = old(self).archived@;
        let ghost sent0 = old(self).sent@;
        let ghost file0 = old(self).file.data();
        let ghost rolling0 = old(self).rolling;
        let ghost mut cuts: Seq<int> = Seq::<int>::empty();
        let ghost tn = old(self).temp_name;
        let ghost dp = old(self).dir_path;
        let mut temp: Vec<u8> = Vec::new();
        let mut all_ok: bool = true;
        let n = records.len();
        proof {
            assert(spec_batch_payload(records@.take(0)) =~= Seq::<u8>::empty());
        }
        proof {
            assert(base =~= self.spec_history().subrange(0, base.len() as int));
            assert(arch0 =~= self.archived@.subrange(0, arch0.len() as int));
            assert(records@.subrange(0, 0) =~= Seq::<FastLogRecord>::empty());
            assert(temp@ == spec_batch_payload(records@.subrange(spec_last_cut(cuts), 0)));
            assert(sent0 =~= self.sent@.subrange(0, sent0.len() as int));
            assert(self.sent@.skip(sent0.len() as int) =~= Seq::<SentPack>::empty());
            assert(spec_flush_count(records@.take(0)) == 0);
            assert(self.rolling.last == spec_prev_instant(rolling0.last, records@, 0));
        }
        let mut i: usize = 0;
        while i < n
            invariant
                i <= n,
                n == records@.len(),
                forall|k: int| 0 <= k < records@.len() ==> record_wf(records@[k]),
                self.wf(),
                self.temp_name == tn,
                self.dir_path == dp,
                self.rolling.offset_sec == rolling0.offset_sec,
                !(rolling0.how is ByDuration) ==> self.rolling.how == rolling0.how,
                self.rolling.last == spec_prev_instant(rolling0.last, records@, i as int),
                base.is_prefix_of(self.spec_history()),
                arch0.is_prefix_of(self.archived@),
                sent0.is_prefix_of(self.sent@),
                forall|j: int|
                    sent0.len() <= j < self.sent@.len() ==> (#[trigger] self.sent@[j]).dir == dp@,
                spec_wg_count(self.sent@.skip(sent0.len() as int)) == spec_flush_count(
                    records@.take(i as int),
                ),
                (self.spec_history() + temp@).len() <= base.len() + spec_batch_payload(
                    records@.take(i as int),
                ).len(),
                all_ok ==> self.spec_history() + temp@ == base + spec_batch_payload(
                    records@.take(i as int),
                ),
                !all_ok ==> (self.spec_history() + temp@).len() < base.len() + spec_batch_payload(
                    records@.take(i as int),
                ).len(),
                all_ok ==> {
                    &&& forall|j: int| 0 <= j < cuts.len() ==> 0 <= #[trigger] cuts[j] <= i as int
                    &&& forall|j: int| 0 <= j && j + 1 < cuts.len() ==> #[trigger] cuts[j] <= cuts[j + 1]
                    &&& self.archived@.len() == arch0.len() + cuts.len()
                    &&& (cuts.len() > 0 ==> self.archived@[arch0.len() as int] == file0
                        + spec_batch_payload(records@.take(cuts[0])))
                    &&& (forall|j: int|
                        1 <= j < cuts.len() ==> self.archived@[arch0.len() + j]
                            == spec_batch_payload(
                            records@.subrange(cuts[j - 1], #[trigger] cuts[j]),
                        ))
                    &&& self.file.data() == (if cuts.len() == 0 {
                        file0
                    } else {
                        Seq::<u8>::empty()
                    })
                    &&& temp@ == spec_batch_payload(
                        records@.subrange(spec_last_cut(cuts), i as int),
                    )
                },
            decreases n - i,
        {
            let ghost hist0 = self.spec_history();
            let ghost temp0 = temp@;
            let ghost filestart = self.file.data();
            proof {
                assert(records@.take(i as int + 1) =~= records@.take(i as int).push(
                    records@[i as int],
                ));
                lemma_batch_payload_push(records@.take(i as int), records@[i as int]);
                lemma_flush_count_push(records@.take(i as int), records@[i as int]);
            }
            let x = vstd::slice::slice_index_get(records, i);
            match &x.command {
                Command::CommandRecord => {
                    let fmt_len = x.formated.as_str().len();
                    let projected = self.temp_bytes.saturating_add(temp.len()).saturating_add(
                        fmt_len,
                    );
                    let can = Rolling::can(
                        &mut self.rolling,
                        self.temp_name.as_str(),
                        projected,
                        x,
                    );
                    if let Some(new_log_name) = can {
                        let ghost arch_mid = self.archived@;
                        let ghost sent_mid = self.sent@;
                        let fok = self.flush_buffer(&mut temp);
                        if !fok {
                            all_ok = false;
                        }
                        proof {
                            lemma_prefix_trans(base, hist0, self.spec_history());
                        }
                        self.send_pack(new_log_name, None);
                        proof {
                            assert(arch_mid =~= self.archived@.subrange(0, arch_mid.len() as int));
                            lemma_prefix_trans(arch0, arch_mid, self.archived@);
                            lemma_sent_step(
                                sent0,
                                sent_mid,
                                self.sent@,
                                self.sent@.last(),
                                dp@,
                            );
                            let cuts_old = cuts;
                            cuts = cuts.push(i as int);
                            if all_ok {
                                lemma_cut_step(
                                    file0,
                                    arch0,
                                    arch_mid,
                                    self.archived@,
                                    filestart,
                                    temp0,
                                    records@,
                                    cuts_old,
                                    i as int,
                                );
                                assert(records@.subrange(i as int, i as int)
                                    =~= Seq::<FastLogRecord>::empty());
                                assert(temp@ == spec_batch_payload(
                                    records@.subrange(spec_last_cut(cuts), i as int),
                                ));
                            }
                        }
                    }
                    let mut bytes = x.formated.as_str().as_bytes_vec();
                    proof {
                        assert(*x == records@[i as int]);
                        assert(records@[i as int].command is CommandRecord);
                        assert(bytes@ == vstd::utf8::encode_utf8(x.formated@));
                        assert(bytes@ == spec_record_piece(records@[i as int]));
                    }
                    temp.append(&mut bytes);
                    proof {
                        let piece = spec_record_piece(records@[i as int]);
                        assert(base + spec_batch_payload(records@.take(i as int + 1)) =~= (base
                            + spec_batch_payload(records@.take(i as int))) + piece);
                        if all_ok {
                            assert(self.spec_history() + temp@ =~= (hist0 + temp0) + piece);
                            assert(self.spec_history() + temp@ =~= base + spec_batch_payload(
                                records@.take(i as int + 1),
                            ));
                            assert(records@.subrange(spec_last_cut(cuts), i as int + 1)
                                =~= records@.subrange(spec_last_cut(cuts), i as int).push(
                                records@[i as int],
                            ));
                            lemma_batch_payload_push(
                                records@.subrange(spec_last_cut(cuts), i as int),
                                records@[i as int],
                            );
                            assert(temp@ == spec_batch_payload(
                                records@.subrange(spec_last_cut(cuts), i as int + 1),
                            ));
                        } else {
                            assert((self.spec_history() + temp@).len() < base.len()
                                + spec_batch_payload(records@.take(i as int + 1)).len());
                        }
                        assert(self.rolling.last == spec_prev_instant(
                            rolling0.last,
                            records@,
                            i as int + 1,
                        ));
                    }
                },
                Command::CommandExit => {
                    proof {
                        assert(spec_record_piece(records@[i as int]) =~= Seq::<u8>::empty());
                        if all_ok {
                            assert(self.spec_history() + temp@ =~= base + spec_batch_payload(
                                records@.take(i as int + 1),
                            ));
                            assert(records@.subrange(spec_last_cut(cuts), i as int + 1)
                                =~= records@.subrange(spec_last_cut(cuts), i as int).push(
                                records@[i as int],
                            ));
                            lemma_batch_payload_push(
                                records@.subrange(spec_last_cut(cuts), i as int),
                                records@[i as int],
                            );
                            assert(temp@ == spec_batch_payload(
                                records@.subrange(spec_last_cut(cuts), i as int + 1),
                            ));
                        } else {
                            assert((self.spec_history() + temp@).len() < base.len()
                                + spec_batch_payload(records@.take(i as int + 1)).len());
                        }
                        assert(self.rolling.last == spec_prev_instant(
                            rolling0.last,
                            records@,
                            i as int + 1,
                        ));
                    }
                },
                Command::CommandFlush(w) => {
                    let current = self.temp_bytes;
                    let can = Rolling::can(
                        &mut self.rolling,
                        self.temp_name.as_str(),
                        current,
                        x,
                    );
                    let wg2 = w.clone();
                    if let Some(new_log_name) = can {
                        let ghost arch_mid = self.archived@;
                        let ghost sent_mid = self.sent@;
                        let fok = self.flush_buffer(&mut temp);
                        if !fok {
                            all_ok = false;
                        }
                        proof {
                            lemma_prefix_trans(base, hist0, self.spec_history());
                        }
                        self.send_pack(new_log_name, Some(wg2));
                        proof {
                            assert(arch_mid =~= self.archived@.subrange(0, arch_mid.len() as int));
                            lemma_prefix_trans(arch0, arch_mid, self.archived@);
                            lemma_sent_step(
                                sent0,
                                sent_mid,
                                self.sent@,
                                self.sent@.last(),
                                dp@,
                            );
                            let cuts_old = cuts;
                            cuts = cuts.push(i as int);
                            if all_ok {
                                lemma_cut_step(
                                    file0,
                                    arch0,
                                    arch_mid,
                                    self.archived@,
                                    filestart,
                                    temp0,
                                    records@,
                                    cuts_old,
                                    i as int,
                                );
                                assert(records@.subrange(i as int, i as int)
                                    =~= Seq::<FastLogRecord>::empty());
                                assert(temp@ == spec_batch_payload(
                                    records@.subrange(spec_last_cut(cuts), i as int),
                                ));
                            }
                        }
                    } else {
                        let ghost sent_mid = self.sent@;
                        self.sent = Ghost(
                            self.sent@.push(
                                SentPack {
                                    dir: self.dir_path@,
                                    new_log_name: Seq::<char>::empty(),
                                    has_wg: true,
                                },
                            ),
                        );
                        let _ = chan_send(
                            &self.sender,
                            LogPack {
                                dir: self.dir_path.clone(),
                                new_log_name: String::new(),
                                wg: Some(wg2),
                            },
                        );
                        proof {
                            lemma_sent_step(
                                sent0,
                                sent_mid,
                                self.sent@,
                                self.sent@.last(),
                                dp@,
                            );
                        }
                    }
                    proof {
                        assert(spec_record_piece(records@[i as int]) =~= Seq::<u8>::empty());
                        if all_ok {
                            assert(self.spec_history() + temp@ =~= base + spec_batch_payload(
                                records@.take(i as int + 1),
                            ));
                            assert(records@.subrange(spec_last_cut(cuts), i as int + 1)
                                =~= records@.subrange(spec_last_cut(cuts), i as int).push(
                                records@[i as int],
                            ));
                            lemma_batch_payload_push(
                                records@.subrange(spec_last_cut(cuts), i as int),
                                records@[i as int],
                            );
                            assert(temp@ == spec_batch_payload(
                                records@.subrange(spec_last_cut(cuts), i as int + 1),
                            ));
                        } else {
                            assert((self.spec_history() + temp@).len() < base.len()
                                + spec_batch_payload(records@.take(i as int + 1)).len());
                        }
                        assert(self.rolling.last == spec_prev_instant(
                            rolling0.last,
                            records@,
                            i as int + 1,
                        ));
                    }
                },
            }
            i += 1;
        }
        proof {
            assert(records@.take(n as int) =~= records@);
        }
        let ghost hist_end = self.spec_history();
        let ghost file_end = self.file.data();
        let ghost temp_end = temp@;
        if temp.len() > 0 {
            let fok = self.flush_buffer(&mut temp);
            if !fok {
                all_ok = false;
            }
            proof {
                lemma_prefix_trans(base, hist_end, self.spec_history());
            }
        }
        proof {
            if all_ok {
                assert(self.spec_history() =~= base + spec_batch_payload(records@));
                assert(self.file.data() =~= file_end + temp_end);
                assert(records@.subrange(spec_last_cut(cuts), n as int) =~= records@.skip(
                    spec_last_cut(cuts),
                ));
                assert(self.file.data() =~= (if cuts.len() == 0 {
                    file0
                } else {
                    Seq::<u8>::empty()
                }) + spec_batch_payload(records@.skip(spec_last_cut(cuts))));
                assert(spec_cut_points(
                    file0,
                    arch0,
                    self.archived@,
                    self.file.data(),
                    records@,
                    cuts,
                ));
            } else {
                assert(self.spec_history().len() < base.len() + spec_batch_payload(
                    records@,
                ).len());
            }
        }
        all_ok
    }
}

/// What ties rotation to retention: an archive name made for the active
/// file `temp` (a bare file name, free of separators) starts with `temp`'s
/// stem and is never `temp` itself, so a retention scan over the directory
/// recognizes exactly the rotated files and never touches the active one.
pub proof fn lemma_archive_name_matches_retention(temp: Seq<char>, d: CalDate)
    requires
        forall|j: int| 0 <= j < temp.len() ==> !crate::plugin::file_name::is_sep(temp[j]),
    ensures
        spec_starts_with(spec_archive_name(temp, d), spec_base_name(temp)),
        spec_archive_name(temp, d) != temp,
{
    crate::plugin::file_name::lemma_extract_no_sep(temp);
    lemma_last_dot_bounds(temp);
    let name = spec_archive_name(temp, d);
    let i = spec_last_dot(temp);
    assert(spec_stamp(d).len() == 26);
    if i < 0 {
        assert(name.subrange(0, temp.len() as int) =~= temp);
        assert(spec_starts_with(name, spec_base_name(temp)));
    } else {
        assert(name.subrange(0, i) =~= temp.take(i));
        assert(spec_starts_with(name, spec_base_name(temp)));
    }
    assert(name.len() == temp.len() + 26);
}

/// A shared prefix, then one of two equal-length ordered middles, then a
/// shared suffix: the concatenations order as the middles do.
proof fn lemma_chars_le_middle(p: Seq<char>, s1: Seq<char>, s2: Seq<char>, suf: Seq<char>)
    requires
        s1.len() == s2.len(),
        chars_le(s1, s2),
    ensures
        chars_le(p + (s1 + suf), p + (s2 + suf)),
{
    lemma_chars_le_concat(p, s1 + suf, p, s2 + suf);
    lemma_chars_le_concat(s1, suf, s2, suf);
    if s1 == s2 {
        lemma_chars_le_refl(suf);
    }
}

/// Archive names of one active file sort like their rotation instants:
/// ordering them by name descending, as retention does, is newest-first.
pub proof fn lemma_archive_names_sort_by_instant(temp: Seq<char>, d1: CalDate, d2: CalDate)
    requires
        cal_wf(d1),
        cal_wf(d2),
        crate::date::spec_cal_le(d1, d2),
    ensures
        chars_le(spec_archive_name(temp, d1), spec_archive_name(temp, d2)),
{
    crate::date::lemma_stamp_sorts_by_instant(d1, d2);
    lemma_last_dot_bounds(temp);
    let i = spec_last_dot(temp);
    if i < 0 {
        lemma_chars_le_middle(temp, spec_stamp(d1), spec_stamp(d2), Seq::<char>::empty());
        assert(spec_archive_name(temp, d1) =~= temp + (spec_stamp(d1) + Seq::<char>::empty()));
        assert(spec_archive_name(temp, d2) =~= temp + (spec_stamp(d2) + Seq::<char>::empty()));
    } else {
        lemma_chars_le_middle(temp.take(i), spec_stamp(d1), spec_stamp(d2), temp.skip(i));
        assert(spec_archive_name(temp, d1) =~= temp.take(i) + (spec_stamp(d1) + temp.skip(i)));
        assert(spec_archive_name(temp, d2) =~= temp.take(i) + (spec_stamp(d2) + temp.skip(i)));
    }
}

/// A size policy rotates exactly at its limit: a projected size equal to the
/// limit cuts the file, one byte less does not.
pub proof fn lemma_by_size_boundary(r: Rolling, limit: usize, now: u64)
    requires
        r.how == RollingType::BySize(limit),
    ensures
        r.spec_due(limit, now),
        limit > 0 ==> !r.spec_due((limit - 1) as usize, now),
{
}

/// Crossing a day boundary rotates exactly once: the decision that observes
/// the new day fires, and the next decision, made after the policy's memory
/// has advanced into the new day, does not fire again within it.
pub proof fn lemma_by_date_day_once(a: CalDate, b: CalDate, c: CalDate)
    requires
        a.day != b.day,
        b.day == c.day,
    ensures
        spec_date_differs(DateType::Day, a, b),
        !spec_date_differs(DateType::Day, b, c),
{
}

} // verus!
