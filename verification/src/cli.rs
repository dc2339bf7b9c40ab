//! The command line: options, log levels and the version text.

use vstd::prelude::*;

verus! {

/// How much the program logs.
#[derive(Clone, Copy, Debug, PartialEq, Eq, Structural)]
pub enum LogLevel {
    Trace,
    Debug,
    Info,
    Warn,
    Error,
}

impl LogLevel {
    /// The level's name in lower case.
    pub open spec fn spec_name(self) -> Seq<char> {
        match self {
            LogLevel::Trace => "trace"@,
            LogLevel::Debug => "debug"@,
            LogLevel::Info => "info"@,
            LogLevel::Warn => "warn"@,
            LogLevel::Error => "error"@,
        }
    }

    /// The level's name in lower case, as the logger's filter takes it.
    pub fn name(&self) -> (s: &'static str)
        ensures
            s@ == self.spec_name(),
    {
        match self {
            LogLevel::Trace => "trace",
            LogLevel::Debug => "debug",
            LogLevel::Info => "info",
            LogLevel::Warn => "warn",
            LogLevel::Error => "error",
        }
    }
}

impl Default for LogLevel {
    /// Informational messages and above.
    fn default() -> (l: Self)
        ensures
            l == LogLevel::Info,
    {
        LogLevel::Info
    }
}

/// The command-line options.
pub struct Cli {
    /// Use the provided config file instead of the default.
    pub config: Option<String>,
    /// Configure the log level.
    pub log_level: LogLevel,
    /// Enable dry-run mode, i.e. no files are being moved.
    pub dry_run: bool,
}

/// `konst::slice::slice_from`: the elements of `slice` from index `start` on,
/// or none when `start` is past the end. The contract states exactly that, as the
/// crate's source computes it.
#[verifier::external_body]
fn slice_from(slice: &[u8], start: usize) -> (r: &[u8])
    ensures
        r@ == if start <= slice@.len() {
            slice@.subrange(start as int, slice@.len() as int)
        } else {
            Seq::<u8>::empty()
        },
{
    konst::slice::slice_from(slice, start)
}

/// The version text without the leading `v` (byte 118) of a tag name.
pub fn remove_leading_v(bytes: &[u8]) -> (r: &[u8])
    ensures
        r@ == if bytes@.len() > 0 && bytes@[0] == 118u8 {
            bytes@.subrange(1, bytes@.len() as int)
        } else {
            bytes@
        },
{
    if bytes.len() > 0 && bytes[0] == 118u8 {
        slice_from(bytes, 1)
    } else {
        bytes
    }
}

} // verus!
