//! Process termination and signal sending.
use vstd::prelude::*;

use crate::text::{
    ascii_lower, ascii_upper, chars_of, has_prefix, is_ascii_text, is_upper_or_digit, lemma_lower_then_upper,
    same_chars, to_uppercase, unicode_uppercase,
};

verus! {

/// Represents the type of signal to send to a process.
#[derive(Debug, Clone, Copy, PartialEq, Eq, Structural)]
pub enum KillSignal {
    Term,
    Kill,
    Hup,
    Int,
    Usr1,
    Usr2,
}

impl KillSignal {
    /// The signal name, e.g. `"SIGTERM"`.
    pub open spec fn signal_name(self) -> Seq<char> {
        match self {
            KillSignal::Term => "SIGTERM"@,
            KillSignal::Kill => "SIGKILL"@,
            KillSignal::Hup => "SIGHUP"@,
            KillSignal::Int => "SIGINT"@,
            KillSignal::Usr1 => "SIGUSR1"@,
            KillSignal::Usr2 => "SIGUSR2"@,
        }
    }

    /// The signal name without its `SIG` prefix, e.g. `"TERM"`.
    pub open spec fn short_name(self) -> Seq<char> {
        match self {
            KillSignal::Term => "TERM"@,
            KillSignal::Kill => "KILL"@,
            KillSignal::Hup => "HUP"@,
            KillSignal::Int => "INT"@,
            KillSignal::Usr1 => "USR1"@,
            KillSignal::Usr2 => "USR2"@,
        }
    }

    /// A human-readable description of the signal.
    pub open spec fn signal_description(self) -> Seq<char> {
        match self {
            KillSignal::Term => "Graceful termination request"@,
            KillSignal::Kill => "Force kill (cannot be caught)"@,
            KillSignal::Hup => "Hangup / reload configuration"@,
            KillSignal::Int => "Interrupt (like Ctrl+C)"@,
            KillSignal::Usr1 => "User-defined (Node.js: activate debugger)"@,
            KillSignal::Usr2 => "User-defined signal"@,
        }
    }

    /// Get the signal name (e.g., "SIGTERM").
    pub fn name(&self) -> (s: &'static str)
        ensures
            s@ == self.signal_name(),
    {
        match self {
            KillSignal::Term => "SIGTERM",
            KillSignal::Kill => "SIGKILL",
            KillSignal::Hup => "SIGHUP",
            KillSignal::Int => "SIGINT",
            KillSignal::Usr1 => "SIGUSR1",
            KillSignal::Usr2 => "SIGUSR2",
        }
    }

    /// Get a human-readable description of the signal.
    pub fn description(&self) -> (s: &'static str)
        ensures
            s@ == self.signal_description(),
    {
        match self {
            KillSignal::Term => "Graceful termination request",
            KillSignal::Kill => "Force kill (cannot be caught)",
            KillSignal::Hup => "Hangup / reload configuration",
            KillSignal::Int => "Interrupt (like Ctrl+C)",
            KillSignal::Usr1 => "User-defined (Node.js: activate debugger)",
            KillSignal::Usr2 => "User-defined signal",
        }
    }

    /// All available kill signals, in picker order.
    pub open spec fn all_signals() -> Seq<KillSignal> {
        seq![
            KillSignal::Term,
            KillSignal::Kill,
            KillSignal::Hup,
            KillSignal::Int,
            KillSignal::Usr1,
            KillSignal::Usr2,
        ]
    }

    /// Return all available kill signals for the platform.
    pub fn all() -> (v: Vec<KillSignal>)
        ensures
            v@ == Self::all_signals(),
    {
        let v = vec![
            KillSignal::Term,
            KillSignal::Kill,
            KillSignal::Hup,
            KillSignal::Int,
            KillSignal::Usr1,
            KillSignal::Usr2,
        ];
        assert(v@ =~= Self::all_signals());
        v
    }

    /// The signal an uppercased name denotes: a leading `SIG` is dropped,
    /// and the rest must be a short signal name.
    pub open spec fn parse_upper(upper: Seq<char>) -> Option<KillSignal> {
        let n = if has_prefix(upper, "SIG"@) {
            upper.skip(3)
        } else {
            upper
        };
        if n == "TERM"@ {
            Some(KillSignal::Term)
        } else if n == "KILL"@ {
            Some(KillSignal::Kill)
        } else if n == "HUP"@ {
            Some(KillSignal::Hup)
        } else if n == "INT"@ {
            Some(KillSignal::Int)
        } else if n == "USR1"@ {
            Some(KillSignal::Usr1)
        } else if n == "USR2"@ {
            Some(KillSignal::Usr2)
        } else {
            None
        }
    }

    /// The signal a name denotes: the name is uppercased, a leading `SIG`
    /// is dropped, and the rest must be a short signal name.
    pub open spec fn parse(s: Seq<char>) -> Option<KillSignal> {
        Self::parse_upper(unicode_uppercase(s))
    }

    /// Parse a signal name string (case-insensitive).
    /// Accepts both "SIGTERM" and "TERM" forms.
    pub fn from_str(s: &str) -> (r: Option<KillSignal>)
        ensures
            r == Self::parse(s@),
            is_ascii_text(s@) ==> r == Self::parse_upper(ascii_upper(s@)),
    {
        let upper = chars_of(to_uppercase(s).as_str());
        let sig = chars_of("SIG");
        let mut n: Vec<char> = Vec::new();
        if crate::text::starts_with_chars(&upper, &sig) {
            proof {
                reveal_strlit("SIG");
            }
            assert(upper@.subrange(3, 3) =~= n@);
            let mut i: usize = 3;
            while i < upper.len()
                invariant
                    3 <= i <= upper.len(),
                    n@ == upper@.subrange(3, i as int),
                decreases upper.len() - i,
            {
                n.push(upper[i]);
                assert(upper@.subrange(3, i + 1) == upper@.subrange(3, i as int).push(
                    upper@[i as int],
                ));
                i += 1;
            }
            assert(n@ =~= upper@.skip(3));
        } else {
            crate::text::extend_chars(&mut n, &upper);
            assert(n@ =~= upper@);
        }
        if same_chars(&n, &chars_of("TERM")) {
            Some(KillSignal::Term)
        } else if same_chars(&n, &chars_of("KILL")) {
            Some(KillSignal::Kill)
        } else if same_chars(&n, &chars_of("HUP")) {
            Some(KillSignal::Hup)
        } else if same_chars(&n, &chars_of("INT")) {
            Some(KillSignal::Int)
        } else if same_chars(&n, &chars_of("USR1")) {
            Some(KillSignal::Usr1)
        } else if same_chars(&n, &chars_of("USR2")) {
            Some(KillSignal::Usr2)
        } else {
            None
        }
    }
}

/// Result of attempting to send a signal to a process.
#[derive(Debug)]
pub enum KillResult {
    Success,
    AlreadyDead,
    PermissionDenied,
    Error(String),
}

/// Result of a graceful kill attempt (SIGTERM + polling).
#[derive(Debug)]
pub enum GracefulResult {
    Terminated,
    TimedOut,
    AlreadyDead,
    PermissionDenied,
    Error(String),
}

/// What the operating system answered to a `kill(2)` request.
#[derive(Debug)]
pub enum SignalOutcome {
    /// The signal was delivered (or, with no signal, the process exists).
    Delivered,
    /// `ESRCH`: there is no such process.
    NoSuchProcess,
    /// `EPERM`: the caller may not signal this process.
    NotPermitted,
    /// Any other error, with its text.
    Failed(String),
}

/// `nix::sys::signal::Signal`, the signal numbers of the platform.
#[verifier::external_type_specification]
#[verifier::external_body]
pub struct ExNixSignal(nix::sys::signal::Signal);

impl KillSignal {
    /// The platform signal for this kill signal (`SIGTERM` for `Term`, and
    /// so on); nothing is stated of the platform's value.
    #[verifier::external_body]
    pub fn to_nix_signal(&self) -> nix::sys::signal::Signal {
        match self {
            KillSignal::Term => nix::sys::signal::Signal::SIGTERM,
            KillSignal::Kill => nix::sys::signal::Signal::SIGKILL,
            KillSignal::Hup => nix::sys::signal::Signal::SIGHUP,
            KillSignal::Int => nix::sys::signal::Signal::SIGINT,
            KillSignal::Usr1 => nix::sys::signal::Signal::SIGUSR1,
            KillSignal::Usr2 => nix::sys::signal::Signal::SIGUSR2,
        }
    }
}

/// A request handed to `kill(2)`: the raw `pid_t` and the signal (`None`
/// asks only whether the process can be signalled).
pub type SignalRequest = (i32, Option<KillSignal>);

/// One call of `kill(2)`: the request handed to it and the system's answer.
pub type Delivery = (SignalRequest, SignalOutcome);

/// The request for `pid` and `signal`: the raw `pid_t` (`pid as i32`, which
/// wraps above `i32::MAX` as the platform's cast does) and the signal.
pub open spec fn request_of(pid: u32, signal: Option<KillSignal>) -> SignalRequest {
    (pid as i32, signal)
}

/// `nix::sys::signal::kill` on `pid` with `signal` (`None` only checks
/// that the process can be signalled), the library's signal turned into
/// nix's by `to_nix_signal` and the `Result` told apart by errno. Returned
/// beside the answer is a ghost record of the call: the request it was
/// handed and the answer. The answer itself depends on the state of the
/// system and is not stated.
#[verifier::external_body]
fn deliver(pid: i32, signal: Option<KillSignal>) -> (r: (SignalOutcome, Ghost<Delivery>))
    ensures
        r.1@ == ((pid, signal), r.0),
{
    let nix_signal = match signal {
        Some(s) => Some(s.to_nix_signal()),
        None => None,
    };
    let o = match nix::sys::signal::kill(nix::unistd::Pid::from_raw(pid), nix_signal) {
        Ok(()) => SignalOutcome::Delivered,
        Err(nix::errno::Errno::ESRCH) => SignalOutcome::NoSuchProcess,
        Err(nix::errno::Errno::EPERM) => SignalOutcome::NotPermitted,
        Err(e) => SignalOutcome::Failed(e.to_string()),
    };
    (o, Ghost(((pid, signal), o)))
}

/// The request handed to `kill(2)` for `pid` and `signal`.
pub fn kill_request(pid: u32, signal: Option<KillSignal>) -> (r: SignalRequest)
    ensures
        r == request_of(pid, signal),
{
    (pid as i32, signal)
}

/// Provides static methods for sending signals and killing processes.
pub struct ProcessKiller;

impl ProcessKiller {
    /// The `KillResult` for what the system answered.
    pub open spec fn kill_result_of(o: SignalOutcome) -> KillResult {
        match o {
            SignalOutcome::Delivered => KillResult::Success,
            SignalOutcome::NoSuchProcess => KillResult::AlreadyDead,
            SignalOutcome::NotPermitted => KillResult::PermissionDenied,
            SignalOutcome::Failed(t) => KillResult::Error(t),
        }
    }

    /// Map the system's answer to a signal request onto a `KillResult`.
    pub fn kill_result(o: SignalOutcome) -> (r: KillResult)
        ensures
            r == Self::kill_result_of(o),
    {
        match o {
            SignalOutcome::Delivered => KillResult::Success,
            SignalOutcome::NoSuchProcess => KillResult::AlreadyDead,
            SignalOutcome::NotPermitted => KillResult::PermissionDenied,
            SignalOutcome::Failed(t) => KillResult::Error(t),
        }
    }

    /// Send `signal` to `pid`: one call of `kill(2)` with `pid as i32` and
    /// the signal, whose record comes back beside the result. The result
    /// reports the answer of that call: `Success`, `AlreadyDead` (no such
    /// process), `PermissionDenied`, or `Error` with the error text.
    pub fn send_signal(pid: u32, signal: KillSignal) -> (r: (KillResult, Ghost<Delivery>))
        ensures
            r.1@.0 == request_of(pid, Some(signal)),
            r.0 == Self::kill_result_of(r.1@.1),
    {
        let (raw_pid, sig) = kill_request(pid, Some(signal));
        let (o, sent) = deliver(raw_pid, sig);
        let res = Self::kill_result(o);
        (res, sent)
    }

    /// A process counts as alive exactly when the null signal reached it.
    pub open spec fn alive_of(o: SignalOutcome) -> bool {
        o is Delivered
    }

    /// Whether the answer to a null signal shows the process alive: only
    /// `Delivered` does (no such process, no permission or any other error
    /// all count as not alive).
    pub fn alive_from(o: SignalOutcome) -> (b: bool)
        ensures
            b == Self::alive_of(o),
    {
        match o {
            SignalOutcome::Delivered => true,
            _ => false,
        }
    }

    /// Whether `pid` exists and may be signalled: one call of `kill(2)` with
    /// `pid as i32` and no signal, read by `alive_from`; its record comes
    /// back beside the answer.
    pub fn is_alive(pid: u32) -> (r: (bool, Ghost<Delivery>))
        ensures
            r.1@.0 == request_of(pid, None),
            r.0 == Self::alive_of(r.1@.1),
    {
        let (raw_pid, sig) = kill_request(pid, None);
        let (o, sent) = deliver(raw_pid, sig);
        let b = Self::alive_from(o);
        (b, sent)
    }

    /// Send `SIGKILL` to `pid`: one call of `kill(2)` with `pid as i32` and
    /// `SIGKILL`, whose answer is the result.
    pub fn force_kill(pid: u32) -> (r: (KillResult, Ghost<Delivery>))
        ensures
            r.1@.0 == request_of(pid, Some(KillSignal::Kill)),
            r.0 == Self::kill_result_of(r.1@.1),
    {
        Self::send_signal(pid, KillSignal::Kill)
    }

    /// Send `signal` to every PID of a subtree, last-listed first: one call
    /// of `kill(2)` per PID, in reverse order, each PID paired with the
    /// answer of its call; the records of the calls come back in order.
    pub fn kill_tree(pids: &Vec<u32>, signal: KillSignal) -> (r: (Vec<(u32, KillResult)>, Ghost<Seq<Delivery>>))
        ensures
            r.0@.len() == pids@.len(),
            r.1@.len() == pids@.len(),
            forall|i: int| 0 <= i < r.0@.len() ==> {
                &&& #[trigger] r.0@[i].0 == pids@[pids@.len() - 1 - i]
                &&& r.1@[i].0 == request_of(pids@[pids@.len() - 1 - i], Some(signal))
                &&& r.0@[i].1 == Self::kill_result_of(r.1@[i].1)
            },
    {
        let mut out: Vec<(u32, KillResult)> = Vec::new();
        let ghost mut sent: Seq<Delivery> = Seq::empty();
        let mut i: usize = pids.len();
        while i > 0
            invariant
                i <= pids.len(),
                out@.len() == pids.len() - i,
                sent.len() == out@.len(),
                forall|k: int| 0 <= k < out@.len() ==> {
                    &&& #[trigger] out@[k].0 == pids@[pids@.len() - 1 - k]
                    &&& sent[k].0 == request_of(pids@[pids@.len() - 1 - k], Some(signal))
                    &&& out@[k].1 == Self::kill_result_of(sent[k].1)
                },
            decreases i,
        {
            i -= 1;
            let pid = pids[i];
            let (res, one) = Self::send_signal(pid, signal);
            out.push((pid, res));
            proof {
                sent = sent.push(one@);
            }
        }
        let r = (out, Ghost(sent));
        assert(r.1@ == sent);
        assert forall|k: int| 0 <= k < r.0@.len() implies {
            &&& #[trigger] r.0@[k].0 == pids@[pids@.len() - 1 - k]
            &&& r.1@[k].0 == request_of(pids@[pids@.len() - 1 - k], Some(signal))
            &&& r.0@[k].1 == Self::kill_result_of(r.1@[k].1)
        } by {
            assert(r.0@[k] == out@[k]);
            assert(out@[k].0 == pids@[pids@.len() - 1 - k]);
            assert(sent[k].0 == request_of(pids@[pids@.len() - 1 - k], Some(signal)));
        }
        r
    }

    /// How a graceful kill ends right after `SIGTERM` was requested:
    /// `None` when the signal was delivered (polling follows), otherwise the
    /// failure.
    pub open spec fn graceful_start_of(o: SignalOutcome) -> Option<GracefulResult> {
        match o {
            SignalOutcome::Delivered => None,
            SignalOutcome::NoSuchProcess => Some(GracefulResult::AlreadyDead),
            SignalOutcome::NotPermitted => Some(GracefulResult::PermissionDenied),
            SignalOutcome::Failed(t) => Some(GracefulResult::Error(t)),
        }
    }

    /// Decide how a graceful kill continues after `SIGTERM` was requested.
    pub fn graceful_start(o: SignalOutcome) -> (r: Option<GracefulResult>)
        ensures
            r == Self::graceful_start_of(o),
    {
        match o {
            SignalOutcome::Delivered => None,
            SignalOutcome::NoSuchProcess => Some(GracefulResult::AlreadyDead),
            SignalOutcome::NotPermitted => Some(GracefulResult::PermissionDenied),
            SignalOutcome::Failed(t) => Some(GracefulResult::Error(t)),
        }
    }

    /// Request `SIGTERM` for a graceful kill: one call of `kill(2)` with
    /// `pid as i32` and `SIGTERM`, read by `graceful_start` (`None` means
    /// polling follows); its record comes back beside the answer.
    pub fn graceful_request(pid: u32) -> (r: (Option<GracefulResult>, Ghost<Delivery>))
        ensures
            r.1@.0 == request_of(pid, Some(KillSignal::Term)),
            r.0 == Self::graceful_start_of(r.1@.1),
    {
        let (raw_pid, sig) = kill_request(pid, Some(KillSignal::Term));
        let (o, sent) = deliver(raw_pid, sig);
        let res = Self::graceful_start(o);
        (res, sent)
    }


    /// One polling step of a graceful kill: `elapsed_ms` is the time slept so
    /// far (already including the latest 200 ms sleep) and `alive` whether
    /// the process still exists. A dead process is `Terminated`; a live one
    /// keeps being polled while `elapsed_ms` is below the timeout and is
    /// `TimedOut` once it is not.
    pub fn graceful_poll(elapsed_ms: u64, timeout_ms: u64, alive: bool) -> (r: Option<
        GracefulResult,
    >)
        ensures
            !alive ==> r == Some(GracefulResult::Terminated),
            alive && elapsed_ms < timeout_ms ==> r is None,
            alive && elapsed_ms >= timeout_ms ==> r == Some(GracefulResult::TimedOut),
    {
        if !alive {
            Some(GracefulResult::Terminated)
        } else if elapsed_ms < timeout_ms {
            None
        } else {
            Some(GracefulResult::TimedOut)
        }
    }
}

// ─── Laws ─────────────────────────────────────────────────────────────

/// Every signal of `all()` has a distinct name.
pub proof fn law_signal_names_distinct(i: int, j: int)
    requires
        0 <= i < KillSignal::all_signals().len(),
        0 <= j < KillSignal::all_signals().len(),
        i != j,
    ensures
        KillSignal::all_signals()[i].signal_name() != KillSignal::all_signals()[j].signal_name(),
{
    reveal_strlit("SIGTERM");
    reveal_strlit("SIGKILL");
    reveal_strlit("SIGHUP");
    reveal_strlit("SIGINT");
    reveal_strlit("SIGUSR1");
    reveal_strlit("SIGUSR2");
    assert("SIGTERM"@[4] == 'E');
    assert("SIGKILL"@[4] == 'I');
    assert("SIGHUP"@[4] == 'U');
    assert("SIGINT"@[4] == 'N');
    assert("SIGUSR1"@[6] == '1');
    assert("SIGUSR2"@[6] == '2');
}

/// Parsing a signal's own name, with or without its `SIG` prefix, gives the
/// signal back, provided uppercasing leaves the name as it is (which
/// `to_uppercase` guarantees for ASCII capitals and digits).
pub proof fn law_parse_name_roundtrip(s: KillSignal)
    requires
        unicode_uppercase(s.signal_name()) == s.signal_name(),
        unicode_uppercase(s.short_name()) == s.short_name(),
    ensures
        KillSignal::parse(s.signal_name()) == Some(s),
        KillSignal::parse(s.short_name()) == Some(s),
{
    lemma_parse_upper_names(s);
}

/// Signal names are read whatever the case of their ASCII letters, with or
/// without the `SIG` prefix: text whose ASCII uppercase is a signal's name
/// (`"sigterm"`, `"SiGtErM"`, `"term"`) denotes that signal (and `from_str`
/// reads ASCII text through its ASCII uppercase).
pub proof fn law_parse_ignores_case(s: KillSignal, t: Seq<char>)
    requires
        ascii_upper(t) == s.signal_name() || ascii_upper(t) == s.short_name(),
    ensures
        KillSignal::parse_upper(ascii_upper(t)) == Some(s),
{
    lemma_parse_upper_names(s);
}

/// The uppercase signal names, with and without `SIG`, denote their signal.
proof fn lemma_parse_upper_names(s: KillSignal)
    ensures
        KillSignal::parse_upper(s.signal_name()) == Some(s),
        KillSignal::parse_upper(s.short_name()) == Some(s),
{
    reveal_strlit("SIG");
    reveal_strlit("SIGTERM");
    reveal_strlit("SIGKILL");
    reveal_strlit("SIGHUP");
    reveal_strlit("SIGINT");
    reveal_strlit("SIGUSR1");
    reveal_strlit("SIGUSR2");
    reveal_strlit("TERM");
    reveal_strlit("KILL");
    reveal_strlit("HUP");
    reveal_strlit("INT");
    reveal_strlit("USR1");
    reveal_strlit("USR2");
    let n = s.signal_name();
    let sh = s.short_name();
    assert(n.take(3) =~= "SIG"@);
    assert(n.skip(3) =~= sh);
    assert(!has_prefix(sh, "SIG"@)) by {
        assert(sh[0] != 'S' || sh[1] != 'I');
        if has_prefix(sh, "SIG"@) {
            assert(sh.take(3)[0] == 'S');
            assert(sh.take(3)[1] == 'I');
        }
    }
    assert("TERM"@[0] == 'T' && "KILL"@[0] == 'K' && "HUP"@[0] == 'H' && "INT"@[0] == 'I');
    assert("USR1"@[0] == 'U' && "USR2"@[0] == 'U' && "USR1"@[3] == '1' && "USR2"@[3] == '2');
    match s {
        KillSignal::Term => {},
        KillSignal::Kill => {
            assert(sh != "TERM"@);
        },
        KillSignal::Hup => {
            assert(sh != "TERM"@ && sh != "KILL"@);
        },
        KillSignal::Int => {
            assert(sh != "TERM"@ && sh != "KILL"@ && sh != "HUP"@);
        },
        KillSignal::Usr1 => {
            assert(sh != "TERM"@ && sh != "KILL"@ && sh != "HUP"@ && sh != "INT"@);
        },
        KillSignal::Usr2 => {
            assert(sh != "TERM"@ && sh != "KILL"@ && sh != "HUP"@ && sh != "INT"@);
            assert(sh != "USR1"@);
        },
    }
}

/// A signal's names are made of ASCII capitals and digits.
proof fn lemma_names_upper(s: KillSignal)
    ensures
        forall|i: int| 0 <= i < s.signal_name().len() ==> is_upper_or_digit(#[trigger] s.signal_name()[i]),
        forall|i: int| 0 <= i < s.short_name().len() ==> is_upper_or_digit(#[trigger] s.short_name()[i]),
{
    reveal_strlit("SIGTERM");
    reveal_strlit("SIGKILL");
    reveal_strlit("SIGHUP");
    reveal_strlit("SIGINT");
    reveal_strlit("SIGUSR1");
    reveal_strlit("SIGUSR2");
    reveal_strlit("TERM");
    reveal_strlit("KILL");
    reveal_strlit("HUP");
    reveal_strlit("INT");
    reveal_strlit("USR1");
    reveal_strlit("USR2");
}

/// A signal's name in ASCII lowercase (`"sigterm"`, `"term"`) reads back
/// as the signal: the lowercase is ASCII text, which `to_lowercase` gives
/// for the name and `from_str` reads through its ASCII uppercase.
pub proof fn law_lowercase_name_reads_back(s: KillSignal)
    ensures
        is_ascii_text(ascii_lower(s.signal_name())),
        KillSignal::parse_upper(ascii_upper(ascii_lower(s.signal_name()))) == Some(s),
        is_ascii_text(ascii_lower(s.short_name())),
        KillSignal::parse_upper(ascii_upper(ascii_lower(s.short_name()))) == Some(s),
{
    lemma_names_upper(s);
    lemma_lower_then_upper(s.signal_name());
    lemma_lower_then_upper(s.short_name());
    lemma_parse_upper_names(s);
}

/// Every signal of `all()` has a non-empty description.
pub proof fn law_signal_descriptions_non_empty(s: KillSignal)
    ensures
        s.signal_description().len() > 0,
{
    reveal_strlit("Graceful termination request");
    reveal_strlit("Force kill (cannot be caught)");
    reveal_strlit("Hangup / reload configuration");
    reveal_strlit("Interrupt (like Ctrl+C)");
    reveal_strlit("User-defined (Node.js: activate debugger)");
    reveal_strlit("User-defined signal");
}

/// `all()` lists every signal.
pub proof fn law_all_signals_complete(s: KillSignal)
    ensures
        KillSignal::all_signals().contains(s),
{
    match s {
        KillSignal::Term => assert(KillSignal::all_signals()[0] == s),
        KillSignal::Kill => assert(KillSignal::all_signals()[1] == s),
        KillSignal::Hup => assert(KillSignal::all_signals()[2] == s),
        KillSignal::Int => assert(KillSignal::all_signals()[3] == s),
        KillSignal::Usr1 => assert(KillSignal::all_signals()[4] == s),
        KillSignal::Usr2 => assert(KillSignal::all_signals()[5] == s),
    }
}

} // verus!
