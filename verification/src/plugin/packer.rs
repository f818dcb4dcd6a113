//! The built-in packers. A packer turns the bytes of a closed log file into
//! what should be written for its archive: the no-op packer keeps the copied
//! `.log` as it is, the gzip packer plans a compressed `.gz` beside it.

use vstd::prelude::*;
use vstd::string::StrSliceExecFns;
use vstd::string::StringExecFns;
use crate::error::LogError;
use crate::plugin::file_split::PackOutcome;
use crate::plugin::file_split::PackPlan;
use crate::plugin::file_split::Packer;
use crate::strutil::ends_with;
use crate::strutil::spec_ends_with;
use crate::strutil::substr_string;

verus! {

/// Keeps the copied `.log` archive untouched; retention prunes it later.
#[derive(Clone)]
pub struct LogPacker {}

impl LogPacker {
    /// The plan of the no-op packer: write nothing, keep the source.
    pub fn plan(&self) -> (r: Result<PackOutcome, LogError>)
        ensures
            r matches Ok(p) && !p.remove_log_file && p.output is None,
    {
        Ok(PackOutcome { remove_log_file: false, output: None })
    }
}

impl Packer for LogPacker {
    /// Plans nothing: the pack always comes back, writes nothing, and keeps
    /// the source.
    open spec fn spec_plan(&self, contents: Seq<u8>, path: Seq<char>) -> PackPlan {
        PackPlan { ok: true, remove_log_file: false, output: None }
    }

    fn pack_name(&self) -> (r: &'static str)
        ensures
            r@ == "log"@,
    {
        "log"
    }

    /// The no-op plan: write nothing, keep the source.
    fn do_pack(&self, _contents: &Vec<u8>, _log_file_path: &str) -> (r: Result<
        PackOutcome,
        LogError,
    >)
        ensures
            r matches Ok(p) && !p.remove_log_file && p.output is None,
    {
        self.plan()
    }

    fn retry(&self) -> (r: i32)
        ensures
            r == 0,
    {
        0
    }
}

/// The gzip encoding of a byte string, at flate2's default compression; a
/// function of the bytes alone.
pub uninterp spec fn gzip_of(data: Seq<u8>) -> Seq<u8>;

/// Relies on flate2's `GzEncoder` writing into an in-memory buffer at
/// default compression: the gzip encoding of the input bytes. Encoding into
/// a `Vec` cannot fail: the only error source of `write_all` and `finish`
/// is the inner writer, and `Vec`'s writer is infallible.
#[verifier::external_body]
fn gzip_bytes(data: &[u8]) -> (r: Option<Vec<u8>>)
    ensures
        r is Some,
        r matches Some(v) ==> v@ == gzip_of(data@),
{
    let mut enc = flate2::write::GzEncoder::new(Vec::new(), flate2::Compression::default());
    if std::io::Write::write_all(&mut enc, data).is_err() {
        return None;
    }
    enc.finish().ok()
}

/// The archive path of a gzip pack: the `.log` extension rewritten to `.gz`
/// (appended, for a source that does not end in `.log`).
pub open spec fn spec_gz_path(path: Seq<char>) -> Seq<char> {
    if spec_ends_with(path, ".log"@) {
        path.take(path.len() - ".log"@.len()) + ".gz"@
    } else {
        path + ".gz"@
    }
}

pub fn gz_path(path: &str) -> (r: String)
    ensures
        r@ == spec_gz_path(path@),
{
    proof {
        reveal_strlit(".log");
        reveal_strlit(".gz");
    }
    let n = path.unicode_len();
    if ends_with(path, ".log") {
        let mut s = substr_string(path, 0, n - 4);
        s.append(".gz");
        proof {
            assert(s@ =~= spec_gz_path(path@));
        }
        s
    } else {
        let mut s = path.to_owned();
        s.append(".gz");
        s
    }
}

/// Compresses each closed log file into a `.gz` archive and has the saver
/// remove the `.log` source.
#[derive(Clone)]
pub struct GZipPacker {}

impl GZipPacker {
    /// The plan of the gzip packer: write the gzip encoding of the source
    /// under the rewritten name, then remove the source. Encoding in memory
    /// cannot fail, so the plan always comes back.
    pub fn plan(&self, contents: &Vec<u8>, log_file_path: &str) -> (r: Result<
        PackOutcome,
        LogError,
    >)
        ensures
            r is Ok,
            r matches Ok(p) ==> {
                &&& p.remove_log_file
                &&& p.output matches Some(o) && o.0@ == spec_gz_path(log_file_path@) && o.1@
                    == gzip_of(contents@)
            },
    {
        match gzip_bytes(contents.as_slice()) {
            Some(packed) => {
                Ok(PackOutcome { remove_log_file: true, output: Some((gz_path(log_file_path), packed)) })
            },
            None => {
                proof {
                    assert(false);
                }
                unreached()
            },
        }
    }
}

impl Packer for GZipPacker {
    /// Plans the gzip archival: always comes back, writes the gzip encoding
    /// under the rewritten path, and removes the source.
    open spec fn spec_plan(&self, contents: Seq<u8>, path: Seq<char>) -> PackPlan {
        PackPlan {
            ok: true,
            remove_log_file: true,
            output: Some((spec_gz_path(path), gzip_of(contents))),
        }
    }

    fn pack_name(&self) -> (r: &'static str)
        ensures
            r@ == "gz"@,
    {
        "gz"
    }

    /// The gzip plan, which always comes back: the archive path rewritten to
    /// `.gz`, the gzip bytes, and the order to remove the source.
    fn do_pack(&self, contents: &Vec<u8>, log_file_path: &str) -> (r: Result<
        PackOutcome,
        LogError,
    >)
        ensures
            r is Ok,
            r matches Ok(p) ==> {
                &&& p.remove_log_file
                &&& p.output matches Some(o) && o.0@ == spec_gz_path(log_file_path@) && o.1@
                    == gzip_of(contents@)
            },
    {
        self.plan(contents, log_file_path)
    }

    fn retry(&self) -> (r: i32)
        ensures
            r == 0,
    {
        0
    }
}

} // verus!
