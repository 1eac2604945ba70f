//! Append-only diagnostic log that traces what the environment and the debugger do.
//!
//! Disabled by default. Set `BRUTO_IDE_LOG=1` (or any non-empty value) to enable it; the log is
//! written to `/tmp/bruto-ide-trace.log` or where `BRUTO_IDE_LOG_PATH` says.

use vstd::prelude::*;

use crate::number::{decimal, push_decimal};
use crate::text::{opt_str, opt_text, owned};

verus! {

/// Whether the log is written, and where.
pub struct LogState {
    enabled: bool,
    path: String,
}

/// The log, over plain values.
#[verifier::ext_equal]
pub struct LogView {
    pub enabled: bool,
    pub path: Seq<char>,
}

impl View for LogState {
    type V = LogView;

    closed spec fn view(&self) -> LogView {
        LogView { enabled: self.enabled, path: self.path@ }
    }
}

/// The log that the two settings ask for.
pub open spec fn log_of(log: Option<Seq<char>>, path: Option<Seq<char>>) -> LogView {
    LogView {
        enabled: match log {
            Some(v) => v.len() > 0,
            None => false,
        },
        path: match path {
            Some(p) => p,
            None => "/tmp/bruto-ide-trace.log"@,
        },
    }
}

/// The first line of the log.
pub open spec fn log_banner(pid: u32) -> Seq<char> {
    "=== bruto-ide trace start (pid "@ + decimal(pid as nat) + ") ==="@
}

/// A line of the log.
pub open spec fn log_line(elapsed: Seq<char>, event: Seq<char>) -> Seq<char> {
    "["@ + elapsed + "] "@ + event
}

impl LogState {
    /// The log that the settings `BRUTO_IDE_LOG` and `BRUTO_IDE_LOG_PATH` ask for.
    pub fn from_settings(log: Option<&str>, path: Option<&str>) -> (r: LogState)
        ensures
            r@ == log_of(opt_str(log), opt_str(path)),
    {
        let enabled = match log {
            Some(v) => !v.is_empty(),
            None => false,
        };
        let path = match path {
            Some(p) => owned(p),
            None => owned("/tmp/bruto-ide-trace.log"),
        };
        LogState { enabled, path }
    }

    /// Where the log is written.
    pub fn path(&self) -> (r: &str)
        ensures
            r@ == self@.path,
    {
        self.path.as_str()
    }

    /// The line that a new log starts with, where the log is written.
    pub fn banner(&self, pid: u32) -> (r: Option<String>)
        ensures
            opt_text(r) == if self@.enabled {
                Some(log_banner(pid))
            } else {
                None
            },
    {
        if !self.enabled {
            return None;
        }
        let mut out: String = owned("=== bruto-ide trace start (pid ");
        push_decimal(&mut out, pid as u64);
        out.append(") ===");
        Some(out)
    }

    /// The line for an event, where the log is written. `elapsed` is the time since the start.
    pub fn event_line(&self, elapsed: &str, event: &str) -> (r: Option<String>)
        ensures
            opt_text(r) == if self@.enabled {
                Some(log_line(elapsed@, event@))
            } else {
                None
            },
    {
        if !self.enabled {
            return None;
        }
        let mut out: String = owned("[");
        out.append(elapsed);
        out.append("] ");
        out.append(event);
        Some(out)
    }
}

/// Tells whether the log is written.
pub fn is_enabled(state: &LogState) -> (r: bool)
    ensures
        r == state@.enabled,
{
    state.enabled
}

/// The log is written exactly where its setting is there and not empty, to the path that is set or
/// else to the one in the directory for temporary files.
pub proof fn lemma_log_by_settings(log: Option<Seq<char>>, path: Option<Seq<char>>, pid: u32)
    ensures
        log_of(log, path).enabled <==> log is Some && log->0 != Seq::<char>::empty(),
        path is Some ==> log_of(log, path).path == path->0,
        path is None ==> log_of(log, path).path == "/tmp/bruto-ide-trace.log"@,
        log_banner(pid) == "=== bruto-ide trace start (pid "@ + decimal(pid as nat) + ") ==="@,
{
    if let Some(v) = log {
        if v.len() == 0 {
            assert(v =~= Seq::<char>::empty());
        }
    }
}

/// A line of the log holds the time in brackets and then the event.
pub proof fn lemma_log_line(elapsed: Seq<char>, event: Seq<char>)
    ensures
        log_line(elapsed, event) == seq!['['] + elapsed + seq![']', ' '] + event,
{
    reveal_strlit("[");
    reveal_strlit("] ");
    assert(log_line(elapsed, event) =~= seq!['['] + elapsed + seq![']', ' '] + event);
}

} // verus!
