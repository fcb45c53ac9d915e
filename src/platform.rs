//! Platform facts and path conventions. The platform is handed in as plain
//! values; `windows` chooses the Windows conventions in the path helpers.

use vstd::prelude::*;
use vstd::string::StringExecFns;
use crate::load_balancing::str_eq;

verus! {

pub struct PlatformInfo {
    pub os: String,
    pub arch: String,
    pub family: String,
}

impl PlatformInfo {
    pub fn with_values(os: String, arch: String, family: String) -> (r: Self)
        ensures
            r.os == os,
            r.arch == arch,
            r.family == family,
    {
        PlatformInfo { os, arch, family }
    }

    pub fn is_windows(&self) -> (r: bool)
        ensures
            r == (self.os@ == "windows"@),
    {
        str_eq(self.os.as_str(), "windows")
    }

    pub fn is_unix(&self) -> (r: bool)
        ensures
            r == (self.family@ == "unix"@),
    {
        str_eq(self.family.as_str(), "unix")
    }

    pub fn is_linux(&self) -> (r: bool)
        ensures
            r == (self.os@ == "linux"@),
    {
        str_eq(self.os.as_str(), "linux")
    }

    pub fn is_macos(&self) -> (r: bool)
        ensures
            r == (self.os@ == "macos"@),
    {
        str_eq(self.os.as_str(), "macos")
    }

    /// Every supported platform has asynchronous I/O.
    pub fn supports_async_io(&self) -> (r: bool)
        ensures
            r,
    {
        true
    }

    pub fn get_default_config_path(&self) -> (r: String)
        ensures
            r@ == if self.os@ == "windows"@ { "C:\\ProgramData\\nginx\\nginx.conf"@ } else { "/etc/nginx/nginx.conf"@ },
    {
        if self.is_windows() {
            "C:\\ProgramData\\nginx\\nginx.conf".to_owned()
        } else {
            "/etc/nginx/nginx.conf".to_owned()
        }
    }

    pub fn get_default_log_path(&self) -> (r: String)
        ensures
            r@ == if self.os@ == "windows"@ { "C:\\ProgramData\\nginx\\logs"@ } else { "/var/log/nginx"@ },
    {
        if self.is_windows() {
            "C:\\ProgramData\\nginx\\logs".to_owned()
        } else {
            "/var/log/nginx".to_owned()
        }
    }

    pub fn get_default_pid_path(&self) -> (r: String)
        ensures
            r@ == if self.os@ == "windows"@ { "C:\\ProgramData\\nginx\\nginx.pid"@ } else { "/var/run/nginx.pid"@ },
    {
        if self.is_windows() {
            "C:\\ProgramData\\nginx\\nginx.pid".to_owned()
        } else {
            "/var/run/nginx.pid".to_owned()
        }
    }
}

/// The path separator of a platform.
pub open spec fn separator(windows: bool) -> char {
    if windows { '\\' } else { '/' }
}

/// `s` with every `from` replaced by `to`.
pub open spec fn replace_char(s: Seq<char>, from: char, to: char) -> Seq<char> {
    s.map_values(|c: char| if c == from { to } else { c })
}

/// The parts joined with `sep` between each two.
pub open spec fn join_with(parts: Seq<Seq<char>>, sep: char) -> Seq<char>
    decreases parts.len(),
{
    if parts.len() == 0 {
        Seq::empty()
    } else if parts.len() == 1 {
        parts[0]
    } else {
        join_with(parts.drop_last(), sep) + seq![sep] + parts.last()
    }
}

pub struct PathUtils;

impl PathUtils {
    /// Writes every separator the platform's way: `\` on Windows, `/` elsewhere.
    pub fn normalize_path(path: &str, windows: bool) -> (r: String)
        ensures
            r@ == replace_char(path@, if windows { '/' } else { '\\' }, separator(windows)),
    {
        let from = if windows { '/' } else { '\\' };
        let sep: &str = if windows { "\\" } else { "/" };
        proof {
            reveal_strlit("\\");
            reveal_strlit("/");
        }
        let n = path.unicode_len();
        let mut out = String::new();
        let mut i: usize = 0;
        while i < n
            invariant
                n == path@.len(),
                i <= n,
                sep@ == seq![separator(windows)],
                out@ == replace_char(path@.take(i as int), from, separator(windows)),
            decreases n - i,
        {
            let c = path.get_char(i);
            if c == from {
                out.append(sep);
            } else {
                out.append(path.substring_char(i, i + 1));
            }
            i = i + 1;
            assert(out@ =~= replace_char(path@.take(i as int), from, separator(windows)));
        }
        assert(path@.take(n as int) =~= path@);
        out
    }

    /// Joins the parts with the platform's separator.
    pub fn join_paths(paths: &[&str], windows: bool) -> (r: String)
        ensures
            r@ == join_with(paths@.map_values(|p: &str| p@), separator(windows)),
    {
        let ghost ps = paths@.map_values(|p: &str| p@);
        let sep: &str = if windows { "\\" } else { "/" };
        proof {
            reveal_strlit("\\");
            reveal_strlit("/");
        }
        let mut out = String::new();
        let mut i: usize = 0;
        while i < paths.len()
            invariant
                ps == paths@.map_values(|p: &str| p@),
                i <= paths@.len(),
                sep@ == seq![separator(windows)],
                out@ == join_with(ps.take(i as int), separator(windows)),
            decreases paths@.len() - i,
        {
            assert(ps.take(i as int + 1).drop_last() =~= ps.take(i as int));
            if i > 0 {
                out.append(sep);
            }
            out.append(paths[i]);
            i = i + 1;
            assert(out@ =~= join_with(ps.take(i as int), separator(windows)));
        }
        assert(ps.take(paths@.len() as int) =~= ps);
        out
    }

    /// Unix: a leading `/`. Windows: a drive letter (`C:`) or a `\\server` prefix.
    pub fn is_absolute_path(path: &str, windows: bool) -> (r: bool)
        ensures
            r == if windows {
                (path@.len() >= 2 && path@[1] == ':') || crate::text::has_prefix(path@, "\\\\"@)
            } else {
                path@.len() >= 1 && path@[0] == '/'
            },
    {
        let n = path.unicode_len();
        if windows {
            (n >= 2 && path.get_char(1) == ':') || crate::text::starts_with(path, "\\\\")
        } else {
            n >= 1 && path.get_char(0) == '/'
        }
    }
}

/// The process signals that the server reacts to.
#[derive(PartialEq, Eq, Structural, Clone, Copy, Debug)]
pub enum ProcessSignal {
    /// SIGTERM.
    Terminate,
    /// SIGINT, or Ctrl+C.
    Interrupt,
    /// SIGHUP, or a change of the configuration file where there is no SIGHUP.
    Hangup,
}

/// What the process does on a signal.
#[derive(PartialEq, Eq, Structural, Clone, Copy, Debug)]
pub enum SignalAction {
    /// Stop accepting and let requests in flight finish.
    Shutdown,
    /// Read the configuration file again and put it in force.
    Reload,
}

pub struct SignalHandler;

impl SignalHandler {
    /// Termination and interruption shut down gracefully; a hangup reloads
    /// the configuration.
    pub fn action_for(signal: ProcessSignal) -> (r: SignalAction)
        ensures
            r == match signal {
                ProcessSignal::Hangup => SignalAction::Reload,
                _ => SignalAction::Shutdown,
            },
    {
        match signal {
            ProcessSignal::Hangup => SignalAction::Reload,
            _ => SignalAction::Shutdown,
        }
    }
}

} // verus!
