//! Framework + runtime detection.
//!
//! The dictionaries live in `framework_rules`. This file only contains the
//! matching pipeline. Detection is process-local only — based on the
//! process name and command line; the working directory is never consulted.
use vstd::prelude::*;

use crate::config::{Config, FilterConfig};
use crate::text::{
    basename, basename_of, chars_of, contains_chars, has_substring, same_chars, split_whitespace,
    string_of, tokens,
};
use super::framework_rules::{
    framework_rules, framework_rules_spec, rules_view, runtime_rules, runtime_rules_spec, strs_view,
    Rule, RuleView,
};
use super::{FrameworkKind, ProcessInfo, ProcessView, Runtime};

verus! {

// ─── Specification ────────────────────────────────────────────────────

/// Index of the first element of `s` satisfying `p`.
pub open spec fn first_match<A>(s: Seq<A>, p: spec_fn(A) -> bool) -> Option<int>
    decreases s.len(),
{
    if s.len() == 0 {
        None
    } else if p(s[0]) {
        Some(0)
    } else {
        match first_match(s.drop_first(), p) {
            Some(i) => Some(i + 1),
            None => None,
        }
    }
}

pub open spec fn shifted(o: Option<int>, k: int) -> Option<int> {
    match o {
        Some(i) => Some(i + k),
        None => None,
    }
}

/// The process name with any trailing blob dropped: its first
/// whitespace-separated word, or the name itself when it has none.
pub open spec fn normalized_name(name: Seq<char>) -> Seq<char> {
    let t = tokens(name);
    if t.len() > 0 {
        t[0]
    } else {
        name
    }
}

/// Basename of the command's first whitespace-separated word, when that is
/// not empty.
pub open spec fn command_binary_of(command: Seq<char>) -> Option<Seq<char>> {
    let t = tokens(command);
    if t.len() == 0 {
        None
    } else if basename(t[0]).len() == 0 {
        None
    } else {
        Some(basename(t[0]))
    }
}

pub open spec fn name_signal(n: Seq<char>) -> spec_fn(RuleView) -> bool {
    |r: RuleView| r.name_exact.contains(n)
}

pub open spec fn binary_signal(b: Seq<char>) -> spec_fn(RuleView) -> bool {
    |r: RuleView| r.command_binary.contains(b)
}

pub open spec fn substring_signal(command: Seq<char>) -> spec_fn(RuleView) -> bool {
    |r: RuleView|
        exists|k: int|
            0 <= k < r.command_contains.len() && has_substring(command, r.command_contains[k])
}

/// The rule of a tier that fires, by name → binary → substring priority:
/// the first rule whose exact names hold the normalized name; else the
/// first whose binaries hold the command's binary; else the first with a
/// substring of the command.
pub open spec fn tier_match(rules: Seq<RuleView>, name: Seq<char>, command: Seq<char>) -> Option<
    int,
> {
    match first_match(rules, name_signal(normalized_name(name))) {
        Some(i) => Some(i),
        None => {
            let by_binary = match command_binary_of(command) {
                Some(b) => first_match(rules, binary_signal(b)),
                None => None,
            };
            match by_binary {
                Some(i) => Some(i),
                None => first_match(rules, substring_signal(command)),
            }
        },
    }
}

/// `(runtime, framework)` of a process, or `None` if it is not a
/// recognized server: framework rules first, then runtime rules, then the
/// config-gated dev runners `tsx` and `ts-node` (as generic Node).
pub open spec fn classification(name: Seq<char>, command: Seq<char>, filter: FilterConfig) -> Option<
    (Runtime, FrameworkKind),
> {
    let fr = framework_rules_spec();
    let rr = runtime_rules_spec();
    match tier_match(fr, name, command) {
        Some(i) => Some((fr[i].runtime, fr[i].framework)),
        None => match tier_match(rr, name, command) {
            Some(i) => Some((rr[i].runtime, rr[i].framework)),
            None => {
                let nn = normalized_name(name);
                let bin = command_binary_of(command);
                if filter.include_tsx && (nn == "tsx"@ || bin == Some("tsx"@)) {
                    Some((Runtime::Node, FrameworkKind::Generic))
                } else if filter.include_ts_node && (nn == "ts-node"@ || bin == Some(
                    "ts-node"@,
                )) {
                    Some((Runtime::Node, FrameworkKind::Generic))
                } else {
                    None
                }
            },
        },
    }
}

/// The framework named by the framework tier, or `Generic`.
pub open spec fn detected_framework(name: Seq<char>, command: Seq<char>) -> FrameworkKind {
    let fr = framework_rules_spec();
    match tier_match(fr, name, command) {
        Some(i) => fr[i].framework,
        None => FrameworkKind::Generic,
    }
}

// ─── Lemmas ───────────────────────────────────────────────────────────

pub proof fn lemma_first_match_bounds<A>(s: Seq<A>, p: spec_fn(A) -> bool)
    ensures
        first_match(s, p) matches Some(i) ==> 0 <= i < s.len() && p(s[i]),
    decreases s.len(),
{
    if s.len() > 0 && !p(s[0]) {
        lemma_first_match_bounds(s.drop_first(), p);
    }
}

proof fn lemma_first_match_step<A>(s: Seq<A>, p: spec_fn(A) -> bool, i: int)
    requires
        0 <= i < s.len(),
        !p(s[i]),
    ensures
        shifted(first_match(s.skip(i), p), i) == shifted(first_match(s.skip(i + 1), p), i + 1),
{
    assert(s.skip(i).drop_first() =~= s.skip(i + 1));
    assert(s.skip(i)[0] == s[i]);
}

// ─── Executable matching ──────────────────────────────────────────────

/// Whether one of `list` equals `x`.
fn list_has(list: &Vec<&'static str>, x: &Vec<char>) -> (r: bool)
    ensures
        r == strs_view(list@).contains(x@),
{
    let mut i: usize = 0;
    while i < list.len()
        invariant
            i <= list.len(),
            forall|k: int| 0 <= k < i ==> strs_view(list@)[k] != x@,
        decreases list.len() - i,
    {
        if same_chars(&chars_of(list[i]), x) {
            assert(strs_view(list@)[i as int] == x@);
            return true;
        }
        i += 1;
    }
    false
}

/// Whether one of `list` occurs in `command`.
fn list_occurs_in(list: &Vec<&'static str>, command: &Vec<char>) -> (r: bool)
    ensures
        r == exists|k: int|
            0 <= k < strs_view(list@).len() && has_substring(command@, strs_view(list@)[k]),
{
    let mut i: usize = 0;
    while i < list.len()
        invariant
            i <= list.len(),
            forall|k: int| 0 <= k < i ==> !has_substring(command@, #[trigger] strs_view(list@)[k]),
        decreases list.len() - i,
    {
        if contains_chars(command, &chars_of(list[i])) {
            assert(has_substring(command@, strs_view(list@)[i as int]));
            return true;
        }
        i += 1;
    }
    false
}

/// The normalized process name.
fn normalize_name(name: &Vec<char>) -> (r: Vec<char>)
    ensures
        r@ == normalized_name(name@),
{
    let mut t = split_whitespace(name);
    if t.len() > 0 {
        t.swap_remove(0)
    } else {
        let mut r: Vec<char> = Vec::new();
        crate::text::extend_chars(&mut r, name);
        assert(r@ =~= name@);
        r
    }
}

/// Basename of the command's first whitespace-separated token, if not empty.
fn command_binary(command: &Vec<char>) -> (r: Option<Vec<char>>)
    ensures
        match r {
            Some(b) => command_binary_of(command@) == Some(b@),
            None => command_binary_of(command@) is None,
        },
{
    let t = split_whitespace(command);
    if t.len() == 0 {
        return None;
    }
    let b = basename_of(&t[0]);
    if b.len() == 0 {
        None
    } else {
        Some(b)
    }
}

fn first_by_name(rules: &Vec<Rule>, nn: &Vec<char>) -> (r: Option<usize>)
    ensures
        first_match(rules_view(rules@), name_signal(nn@)) == match r {
            Some(i) => Some(i as int),
            None => None,
        },
        r matches Some(i) ==> i < rules@.len(),
{
    let ghost rv = rules_view(rules@);
    let ghost p = name_signal(nn@);
    let mut i: usize = 0;
    assert(rv.skip(0) =~= rv);
    while i < rules.len()
        invariant
            i <= rules.len(),
            rv == rules_view(rules@),
            p == name_signal(nn@),
            first_match(rv, p) == shifted(first_match(rv.skip(i as int), p), i as int),
        decreases rules.len() - i,
    {
        assert(rv[i as int] == rules@[i as int]@);
        if list_has(&rules[i].name_exact, nn) {
            assert(rv.skip(i as int)[0] == rv[i as int]);
            return Some(i);
        }
        proof {
            lemma_first_match_step(rv, p, i as int);
        }
        i += 1;
    }
    None
}

fn first_by_binary(rules: &Vec<Rule>, b: &Vec<char>) -> (r: Option<usize>)
    ensures
        first_match(rules_view(rules@), binary_signal(b@)) == match r {
            Some(i) => Some(i as int),
            None => None,
        },
        r matches Some(i) ==> i < rules@.len(),
{
    let ghost rv = rules_view(rules@);
    let ghost p = binary_signal(b@);
    let mut i: usize = 0;
    assert(rv.skip(0) =~= rv);
    while i < rules.len()
        invariant
            i <= rules.len(),
            rv == rules_view(rules@),
            p == binary_signal(b@),
            first_match(rv, p) == shifted(first_match(rv.skip(i as int), p), i as int),
        decreases rules.len() - i,
    {
        assert(rv[i as int] == rules@[i as int]@);
        if list_has(&rules[i].command_binary, b) {
            assert(rv.skip(i as int)[0] == rv[i as int]);
            return Some(i);
        }
        proof {
            lemma_first_match_step(rv, p, i as int);
        }
        i += 1;
    }
    None
}

fn first_by_substring(rules: &Vec<Rule>, command: &Vec<char>) -> (r: Option<usize>)
    ensures
        first_match(rules_view(rules@), substring_signal(command@)) == match r {
            Some(i) => Some(i as int),
            None => None,
        },
        r matches Some(i) ==> i < rules@.len(),
{
    let ghost rv = rules_view(rules@);
    let ghost p = substring_signal(command@);
    let mut i: usize = 0;
    assert(rv.skip(0) =~= rv);
    while i < rules.len()
        invariant
            i <= rules.len(),
            rv == rules_view(rules@),
            p == substring_signal(command@),
            first_match(rv, p) == shifted(first_match(rv.skip(i as int), p), i as int),
        decreases rules.len() - i,
    {
        assert(rv[i as int] == rules@[i as int]@);
        if list_occurs_in(&rules[i].command_contains, command) {
            assert(rv.skip(i as int)[0] == rv[i as int]);
            proof {
                let cc = strs_view(rules@[i as int].command_contains@);
                let k = choose|k: int| 0 <= k < cc.len() && has_substring(command@, cc[k]);
                assert(rv[i as int].command_contains == cc);
                assert(0 <= k < rv[i as int].command_contains.len() && has_substring(
                    command@,
                    rv[i as int].command_contains[k],
                ));
            }
            return Some(i);
        }
        proof {
            lemma_first_match_step(rv, p, i as int);
        }
        i += 1;
    }
    None
}

/// Match a single tier of rules using name → binary → substring priority.
fn match_tier(rules: &Vec<Rule>, name: &Vec<char>, command: &Vec<char>) -> (r: Option<usize>)
    ensures
        tier_match(rules_view(rules@), name@, command@) == match r {
            Some(i) => Some(i as int),
            None => None,
        },
        r matches Some(i) ==> i < rules@.len(),
{
    let normalized = normalize_name(name);
    if let Some(i) = first_by_name(rules, &normalized) {
        return Some(i);
    }
    if let Some(bin) = command_binary(command) {
        if let Some(i) = first_by_binary(rules, &bin) {
            return Some(i);
        }
    }
    first_by_substring(rules, command)
}

/// Detects the runtime and framework of a process.
pub struct FrameworkDetector;

impl FrameworkDetector {
    /// Classify a process into `(Runtime, FrameworkKind)`, or `None` if it is
    /// not a recognized server.
    pub fn classify(name: &str, command: &str, config: &Config) -> (r: Option<
        (Runtime, FrameworkKind),
    >)
        ensures
            r == classification(name@, command@, config.filter),
    {
        let n = chars_of(name);
        let c = chars_of(command);
        let fr = framework_rules();
        if let Some(i) = match_tier(&fr, &n, &c) {
            assert(rules_view(fr@)[i as int] == fr@[i as int]@);
            return Some((fr[i].runtime, fr[i].framework));
        }
        let rr = runtime_rules();
        if let Some(i) = match_tier(&rr, &n, &c) {
            assert(rules_view(rr@)[i as int] == rr@[i as int]@);
            return Some((rr[i].runtime, rr[i].framework));
        }
        let nn = normalize_name(&n);
        let bin = command_binary(&c);
        let tsx = chars_of("tsx");
        let ts_node = chars_of("ts-node");
        let bin_is_tsx = match &bin {
            Some(b) => same_chars(b, &tsx),
            None => false,
        };
        let bin_is_ts_node = match &bin {
            Some(b) => same_chars(b, &ts_node),
            None => false,
        };
        if config.filter.include_tsx && (same_chars(&nn, &tsx) || bin_is_tsx) {
            return Some((Runtime::Node, FrameworkKind::Generic));
        }
        if config.filter.include_ts_node && (same_chars(&nn, &ts_node) || bin_is_ts_node) {
            return Some((Runtime::Node, FrameworkKind::Generic));
        }
        None
    }

    /// Framework-only detection (priority across name → binary → substring),
    /// returning `Generic` when no framework rule matches. Runtime-generic
    /// rules are not consulted, and neither is `_cwd`; no version is
    /// reported.
    pub fn detect(name: &str, command: &str, _cwd: &str) -> (r: (FrameworkKind, Option<String>))
        ensures
            r.0 == detected_framework(name@, command@),
            r.1 is None,
    {
        let n = chars_of(name);
        let c = chars_of(command);
        let fr = framework_rules();
        match match_tier(&fr, &n, &c) {
            Some(i) => {
                assert(rules_view(fr@)[i as int] == fr@[i as int]@);
                (fr[i].framework, None)
            },
            None => (FrameworkKind::Generic, None),
        }
    }

    /// Detect a framework by process name only.
    pub fn detect_by_name(name: &str) -> (r: Option<FrameworkKind>)
        ensures
            r == match first_match(framework_rules_spec(), name_signal(normalized_name(name@))) {
                Some(i) => Some(framework_rules_spec()[i].framework),
                None => None,
            },
    {
        let n = normalize_name(&chars_of(name));
        let fr = framework_rules();
        match first_by_name(&fr, &n) {
            Some(i) => {
                assert(rules_view(fr@)[i as int] == fr@[i as int]@);
                Some(fr[i].framework)
            },
            None => None,
        }
    }

    /// Detect a framework by command substring only.
    pub fn detect_by_command(command: &str) -> (r: Option<FrameworkKind>)
        ensures
            r == match first_match(framework_rules_spec(), substring_signal(command@)) {
                Some(i) => Some(framework_rules_spec()[i].framework),
                None => None,
            },
    {
        let c = chars_of(command);
        let fr = framework_rules();
        match first_by_substring(&fr, &c) {
            Some(i) => {
                assert(rules_view(fr@)[i as int] == fr@[i as int]@);
                Some(fr[i].framework)
            },
            None => None,
        }
    }

    /// Tag each process with the framework `detect` finds from its name and
    /// command, with no version; nothing else changes.
    pub fn apply_detection(procs: &mut Vec<ProcessInfo>)
        ensures
            final(procs)@.len() == old(procs)@.len(),
            forall|i: int| 0 <= i < old(procs)@.len() ==> #[trigger] final(procs)@[i]@ == ({
                let p = old(procs)@[i]@;
                ProcessView { framework: detected_framework(p.name, p.command), framework_version: None, ..p }
            }),
    {
        let ghost orig = procs@;
        let mut rest: Vec<ProcessInfo> = Vec::new();
        std::mem::swap(&mut rest, procs);
        let mut out: Vec<ProcessInfo> = Vec::new();
        let ghost n = orig.len();
        while rest.len() > 0
            invariant
                rest.len() <= n,
                n == orig.len(),
                rest@ == orig.skip(n - rest.len()),
                out@.len() == n - rest.len(),
                forall|i: int| 0 <= i < out@.len() ==> #[trigger] out@[i]@ == ({
                    let p = orig[i]@;
                    ProcessView { framework: detected_framework(p.name, p.command), framework_version: None, ..p }
                }),
            decreases rest.len(),
        {
            let ghost done = n - rest.len();
            let mut p = rest.remove(0);
            assert(p == orig[done]);
            let (framework, version) = Self::detect(p.name.as_str(), p.command.as_str(), p.cwd.as_str());
            p.framework = framework;
            p.framework_version = version;
            out.push(p);
            assert(rest@ =~= orig.skip(done + 1));
        }
        *procs = out;
    }
}

// ─── Laws ─────────────────────────────────────────────────────────────

/// Whenever `detect` names a framework (not `Generic`), `classify` tags the
/// process with that same framework.
pub proof fn law_classify_agrees_with_detect(name: Seq<char>, command: Seq<char>, filter: FilterConfig)
    requires
        detected_framework(name, command) != FrameworkKind::Generic,
    ensures
        classification(name, command, filter) matches Some((_, f)) && f == detected_framework(
            name,
            command,
        ),
{
}

/// The process name takes priority over the command line: a framework found
/// by name alone is what `detect` reports, whatever the command.
pub proof fn law_name_beats_command(name: Seq<char>, command: Seq<char>)
    requires
        first_match(framework_rules_spec(), name_signal(normalized_name(name))) is Some,
    ensures
        detected_framework(name, command) == framework_rules_spec()[first_match(
            framework_rules_spec(),
            name_signal(normalized_name(name)),
        )->0].framework,
{
}

/// The opt-in runners only add servers: turning an `include_*` flag on never
/// changes a classification that was already made with it off.
pub proof fn law_filter_flags_only_add(
    name: Seq<char>,
    command: Seq<char>,
    off: FilterConfig,
    on: FilterConfig,
)
    requires
        off.include_tsx ==> on.include_tsx,
        off.include_ts_node ==> on.include_ts_node,
        classification(name, command, off) is Some,
    ensures
        classification(name, command, on) == classification(name, command, off),
{
}

} // verus!

verus! {

/// The opt-in dev runners: a process that no framework or runtime rule
/// claims is a generic Node server when its name or binary is `tsx` and
/// `tsx` is opted in, or when it is `ts-node` and `ts-node` is opted in,
/// each whatever the other option says; with neither matching opt-in it is
/// not a server.
pub proof fn law_dev_runner_opt_in(name: Seq<char>, command: Seq<char>, filter: FilterConfig)
    requires
        tier_match(framework_rules_spec(), name, command) is None,
        tier_match(runtime_rules_spec(), name, command) is None,
    ensures
        filter.include_tsx && (normalized_name(name) == "tsx"@ || command_binary_of(command) == Some("tsx"@))
            ==> classification(name, command, filter) == Some((Runtime::Node, FrameworkKind::Generic)),
        filter.include_ts_node && (normalized_name(name) == "ts-node"@ || command_binary_of(command) == Some(
            "ts-node"@,
        )) ==> classification(name, command, filter) == Some((Runtime::Node, FrameworkKind::Generic)),
        !(filter.include_tsx && (normalized_name(name) == "tsx"@ || command_binary_of(command) == Some("tsx"@)))
            && !(filter.include_ts_node && (normalized_name(name) == "ts-node"@ || command_binary_of(command)
            == Some("ts-node"@))) ==> classification(name, command, filter) is None,
{
}

} // verus!
