use vstd::prelude::*;

use crate::style::push_str;
use crate::text::{decimal, decimal_string, from_utf8_lossy, owned, same_text, utf8_lossy};

verus! {

/// Seconds a quick lookup (whois, dig, curl) may take before it is stopped.
pub const DEFAULT_TIMEOUT_SECS: u64 = 20;

/// Milliseconds to sleep between two checks on a running tool.
pub const POLL_INTERVAL_MILLIS: u64 = 100;

/// The apt package that provides a binary, where the two names differ.
pub open spec fn package_name(bin: Seq<char>) -> Seq<char> {
    if bin == "dig"@ {
        "dnsutils"@
    } else if bin == "theHarvester"@ {
        "theharvester"@
    } else {
        bin
    }
}

/// Maps a binary name to the apt package that provides it (`dig` ships in
/// `dnsutils`, `theHarvester` in `theharvester`; other names are their own
/// package).
pub fn package_for(bin: &str) -> (r: &str)
    ensures
        r@ == package_name(bin@),
{
    if same_text(bin, "dig") {
        "dnsutils"
    } else if same_text(bin, "theHarvester") {
        "theharvester"
    } else {
        bin
    }
}

/// Why running a tool gave no output.
#[derive(Clone, Debug, PartialEq, Eq)]
pub enum ShellError {
    /// The binary is not on `PATH`; `package` is where apt has it.
    NotInstalled { bin: String, package: String },
    /// Starting or watching the process failed; the text of the I/O error.
    Io(String),
    /// The tool ran longer than its timeout and was killed.
    TimedOut { bin: String, secs: u64 },
    /// The tool exited unsuccessfully; what it wrote to stderr.
    Failed { bin: String, stderr: String },
}

impl ShellError {
    /// The error's text, as the command line shows it.
    pub open spec fn text(&self) -> Seq<char> {
        match self {
            ShellError::NotInstalled { bin, package } => "'"@ + bin@
                + "' is not installed or not on PATH. Install it with: sudo apt install "@
                + package@,
            ShellError::Io(m) => m@,
            ShellError::TimedOut { bin, secs } => "'"@ + bin@ + "' timed out after "@ + decimal(
                *secs as nat,
            )
                + "s (target may be unreachable, or silently dropping/filtering the scan)"@,
            ShellError::Failed { bin, stderr } => "'"@ + bin@ + "' exited with an error: "@
                + stderr@,
        }
    }

    /// A copy of the error.
    pub fn duplicate(&self) -> (r: ShellError)
        ensures
            r == *self,
    {
        match self {
            ShellError::NotInstalled { bin, package } => ShellError::NotInstalled {
                bin: bin.clone(),
                package: package.clone(),
            },
            ShellError::Io(m) => ShellError::Io(m.clone()),
            ShellError::TimedOut { bin, secs } => ShellError::TimedOut { bin: bin.clone(), secs: *secs },
            ShellError::Failed { bin, stderr } => ShellError::Failed {
                bin: bin.clone(),
                stderr: stderr.clone(),
            },
        }
    }

    /// The error's text.
    pub fn message(&self) -> (r: String)
        ensures
            r@ == self.text(),
    {
        match self {
            ShellError::NotInstalled { bin, package } => {
                let mut r = owned("'");
                push_str(&mut r, bin.as_str());
                push_str(
                    &mut r,
                    "' is not installed or not on PATH. Install it with: sudo apt install ",
                );
                push_str(&mut r, package.as_str());
                r
            },
            ShellError::Io(m) => m.clone(),
            ShellError::TimedOut { bin, secs } => {
                let mut r = owned("'");
                push_str(&mut r, bin.as_str());
                push_str(&mut r, "' timed out after ");
                let d = decimal_string(*secs);
                push_str(&mut r, d.as_str());
                push_str(
                    &mut r,
                    "s (target may be unreachable, or silently dropping/filtering the scan)",
                );
                r
            },
            ShellError::Failed { bin, stderr } => {
                let mut r = owned("'");
                push_str(&mut r, bin.as_str());
                push_str(&mut r, "' exited with an error: ");
                push_str(&mut r, stderr.as_str());
                r
            },
        }
    }
}

/// A tool to run: the binary, its arguments, and how long it may take.
#[derive(Clone, Debug, PartialEq, Eq)]
pub struct Invocation {
    pub bin: String,
    pub args: Vec<String>,
    pub timeout_secs: u64,
}

/// What to do next while a tool runs.
#[derive(Clone, Copy, Debug, PartialEq, Eq, Structural)]
pub enum Poll {
    /// The tool has exited; whether its status was success.
    Exited(bool),
    /// The timeout has passed: kill the tool and report it.
    Kill,
    /// Sleep `POLL_INTERVAL_MILLIS` and look again.
    Wait,
}

fn owned_args(args: &[&str]) -> (r: Vec<String>)
    ensures
        r.len() == args.len(),
        forall|i: int| 0 <= i < args.len() ==> (#[trigger] r[i])@ == args[i]@,
{
    let mut r: Vec<String> = Vec::new();
    let mut i: usize = 0;
    while i < args.len()
        invariant
            i <= args.len(),
            r.len() == i,
            forall|j: int| 0 <= j < i ==> (#[trigger] r[j])@ == args[j]@,
        decreases args.len() - i,
    {
        r.push(owned(args[i]));
        i = i + 1;
    }
    r
}

/// The invocation of `bin` with `args` and an explicit timeout. A firewalled
/// or dead target can make whois/nmap/etc. hang with no reply ever coming
/// back; the timeout makes one bad target fail visibly instead.
pub fn run_timeout(bin: &str, args: &[&str], timeout_secs: u64) -> (r: Invocation)
    ensures
        r.bin@ == bin@,
        r.args.len() == args.len(),
        forall|i: int| 0 <= i < args.len() ==> (#[trigger] r.args[i])@ == args[i]@,
        r.timeout_secs == timeout_secs,
{
    Invocation { bin: owned(bin), args: owned_args(args), timeout_secs }
}

/// The invocation of `bin` with `args` under the default timeout.
pub fn run(bin: &str, args: &[&str]) -> (r: Invocation)
    ensures
        r.bin@ == bin@,
        r.args.len() == args.len(),
        forall|i: int| 0 <= i < args.len() ==> (#[trigger] r.args[i])@ == args[i]@,
        r.timeout_secs == DEFAULT_TIMEOUT_SECS,
{
    run_timeout(bin, args, DEFAULT_TIMEOUT_SECS)
}

/// Fetches a URL with the system `curl`: curl's own `--max-time 12` is the
/// first line of defence, an 18 second timeout the backstop.
pub fn curl(url: &str) -> (r: Invocation)
    ensures
        r.bin@ == "curl"@,
        r.args.len() == 4,
        r.args[0]@ == "-s"@,
        r.args[1]@ == "--max-time"@,
        r.args[2]@ == "12"@,
        r.args[3]@ == url@,
        r.timeout_secs == 18,
{
    let args: [&str; 4] = ["-s", "--max-time", "12", url];
    run_timeout("curl", &args, 18)
}

impl Invocation {
    /// The error for a binary that is not on `PATH`: it names the apt
    /// package to install.
    pub fn not_installed(&self) -> (r: ShellError)
        ensures
            r matches ShellError::NotInstalled { bin, package } && bin@ == self.bin@ && package@
                == package_name(self.bin@),
    {
        ShellError::NotInstalled { bin: self.bin.clone(), package: owned(package_for(self.bin.as_str())) }
    }

    /// One check on the running tool: `exited` is its exit status if it has
    /// exited (`Some(success)`), `elapsed_nanos` the time since it started.
    pub fn poll(&self, exited: Option<bool>, elapsed_nanos: u64) -> (r: Poll)
        ensures
            match exited {
                Some(ok) => r == Poll::Exited(ok),
                None => if elapsed_nanos > self.timeout_secs * 1_000_000_000 {
                    r == Poll::Kill
                } else {
                    r == Poll::Wait
                },
            },
    {
        match exited {
            Some(ok) => Poll::Exited(ok),
            None => {
                let limit: u128 = (self.timeout_secs as u128) * 1_000_000_000;
                if (elapsed_nanos as u128) > limit {
                    Poll::Kill
                } else {
                    Poll::Wait
                }
            },
        }
    }

    /// The error for a tool that was killed at its timeout.
    pub fn timed_out(&self) -> (r: ShellError)
        ensures
            r matches ShellError::TimedOut { bin, secs } && bin@ == self.bin@ && secs
                == self.timeout_secs,
    {
        ShellError::TimedOut { bin: self.bin.clone(), secs: self.timeout_secs }
    }

    /// The result of a tool that exited: its stdout when the status was
    /// success, else an error carrying its stderr (both read as lossy UTF-8).
    pub fn finish(&self, success: bool, stdout: &[u8], stderr: &[u8]) -> (r: Result<
        String,
        ShellError,
    >)
        ensures
            success ==> (r matches Ok(out) && out@ == utf8_lossy(stdout@)),
            !success ==> (r matches Err(ShellError::Failed { bin, stderr: e }) && bin@
                == self.bin@ && e@ == utf8_lossy(stderr@)),
    {
        if success {
            Ok(from_utf8_lossy(stdout))
        } else {
            Err(ShellError::Failed { bin: self.bin.clone(), stderr: from_utf8_lossy(stderr) })
        }
    }
}

/// A tool's result as text that never fails: its output, or a friendly
/// `[skipped] <reason>` line in place of the error.
pub fn run_soft(result: &Result<String, ShellError>) -> (r: String)
    ensures
        r@ == match result {
            Ok(out) => out@,
            Err(e) => "[skipped] "@ + e.text(),
        },
{
    match result {
        Ok(out) => out.clone(),
        Err(e) => {
            let mut r = owned("[skipped] ");
            let m = e.message();
            push_str(&mut r, m.as_str());
            r
        },
    }
}

} // verus!
