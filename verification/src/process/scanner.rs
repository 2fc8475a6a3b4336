//! Process scanner rules: which processes are monitored, which parents are
//! added for tree context, and how environment entries split.
use vstd::prelude::*;

use crate::config::{Config, FilterConfig};
use crate::text::{basename, basename_of, chars_of, same_chars, split_whitespace, string_of, tokens};
use super::ProcessInfo;

verus! {

/// Names of processes that are always Node processes.
pub open spec fn node_process_names() -> Seq<Seq<char>> {
    seq!["node"@, "next-server"@, "next-router-worker"@, "next-router-page-worker"@]
}

/// The name is a Node process name, or an opt-in runtime enabled in `filter`.
pub open spec fn node_name_with(name: Seq<char>, filter: FilterConfig) -> bool {
    ||| node_process_names().contains(name)
    ||| name == "bun"@ && filter.include_bun
    ||| name == "tsx"@ && filter.include_tsx
    ||| name == "ts-node"@ && filter.include_ts_node
}

/// The command's first word has the basename `node`.
pub open spec fn node_command(command: Seq<char>) -> bool {
    let t = tokens(command);
    t.len() > 0 && basename(t[0]) == "node"@
}

/// Some element of `found` has PID `q`.
pub open spec fn has_pid(found: Seq<ProcessInfo>, q: u32) -> bool {
    exists|j: int| 0 <= j < found.len() && found[j].pid == q
}

/// `q` is a nonzero parent PID of one of the first `upto` elements of
/// `found`, and no element of `found` has PID `q`.
pub open spec fn is_missing_parent(found: Seq<ProcessInfo>, q: u32, upto: int) -> bool {
    q != 0 && !has_pid(found, q) && exists|k: int| 0 <= k < upto && #[trigger] found[k].ppid == q
}

proof fn lemma_missing_parent_step(found: Seq<ProcessInfo>, q: u32, i: int)
    requires
        0 <= i < found.len(),
    ensures
        is_missing_parent(found, q, i + 1) == (is_missing_parent(found, q, i) || (q != 0
            && !has_pid(found, q) && found[i].ppid == q)),
{
    if is_missing_parent(found, q, i + 1) {
        let k = choose|k: int| 0 <= k < i + 1 && #[trigger] found[k].ppid == q;
        if k < i {
            assert(is_missing_parent(found, q, i));
        }
    }
    if is_missing_parent(found, q, i) {
        let k = choose|k: int| 0 <= k < i && #[trigger] found[k].ppid == q;
        assert(0 <= k < i + 1 && found[k].ppid == q);
    }
}

proof fn lemma_push_contains(s: Seq<u32>, x: u32, q: u32)
    ensures
        s.push(x).contains(q) == (s.contains(q) || x == q),
{
    if s.push(x).contains(q) {
        let m = choose|m: int| 0 <= m < s.push(x).len() && s.push(x)[m] == q;
        if m < s.len() {
            assert(s[m] == q);
        }
    }
    if s.contains(q) {
        let m = choose|m: int| 0 <= m < s.len() && s[m] == q;
        assert(s.push(x)[m] == q);
    }
    if x == q {
        assert(s.push(x)[s.len() as int] == q);
    }
}

/// Discovers the processes worth monitoring.
pub struct ProcessScanner<'a> {
    config: &'a Config,
}

impl<'a> ProcessScanner<'a> {
    /// The filter settings the scanner applies.
    pub closed spec fn filter(&self) -> FilterConfig {
        self.config.filter
    }

    pub fn new(config: &'a Config) -> (s: Self)
        ensures
            s.filter() == config.filter,
    {
        Self { config }
    }

    /// The scanner's configuration.
    pub fn config(&self) -> (c: &'a Config)
        ensures
            c.filter == self.filter(),
    {
        self.config
    }

    pub fn is_node_process_name(name: &str) -> (b: bool)
        ensures
            b == node_process_names().contains(name@),
    {
        let n = chars_of(name);
        let names = vec!["node", "next-server", "next-router-worker", "next-router-page-worker"];
        let ghost views = names@.map_values(|s: &str| s@);
        assert(views =~= node_process_names());
        let mut i: usize = 0;
        while i < names.len()
            invariant
                i <= names.len(),
                views == names@.map_values(|s: &str| s@),
                views == node_process_names(),
                n@ == name@,
                forall|k: int| 0 <= k < i ==> views[k] != n@,
            decreases names.len() - i,
        {
            if same_chars(&n, &chars_of(names[i])) {
                assert(views[i as int] == n@);
                assert(node_process_names()[i as int] == n@);
                assert(0 <= i < node_process_names().len());
                assert(node_process_names().contains(name@));
                return true;
            }
            i += 1;
        }
        false
    }

    pub fn is_node_process_name_with_config(name: &str, config: &Config) -> (b: bool)
        ensures
            b == node_name_with(name@, config.filter),
    {
        if Self::is_node_process_name(name) {
            return true;
        }
        let n = chars_of(name);
        if same_chars(&n, &chars_of("bun")) && config.filter.include_bun {
            return true;
        }
        if same_chars(&n, &chars_of("tsx")) && config.filter.include_tsx {
            return true;
        }
        if same_chars(&n, &chars_of("ts-node")) && config.filter.include_ts_node {
            return true;
        }
        false
    }

    pub fn is_node_command(command: &str) -> (b: bool)
        ensures
            b == node_command(command@),
    {
        let parts = split_whitespace(&chars_of(command));
        if parts.len() == 0 {
            return false;
        }
        let binary = basename_of(&parts[0]);
        same_chars(&binary, &chars_of("node"))
    }

    /// Whether the scan keeps a process with this name and command.
    pub fn is_candidate(&self, name: &str, command: &str) -> (b: bool)
        ensures
            b == (node_name_with(name@, self.filter()) || node_command(command@)),
    {
        Self::is_node_process_name_with_config(name, self.config) || Self::is_node_command(command)
    }

    /// Parents to add for tree context: each nonzero parent PID of `found`
    /// that is not itself among `found`, listed once.
    pub fn missing_parents(found: &Vec<ProcessInfo>) -> (r: Vec<u32>)
        ensures
            r@.no_duplicates(),
            forall|q: u32| r@.contains(q) <==> is_missing_parent(found@, q, found@.len() as int),
    {
        let mut r: Vec<u32> = Vec::new();
        let mut i: usize = 0;
        while i < found.len()
            invariant
                i <= found.len(),
                r@.no_duplicates(),
                forall|q: u32| r@.contains(q) <==> is_missing_parent(found@, q, i as int),
            decreases found.len() - i,
        {
            let q = found[i].ppid;
            let mut known = false;
            let mut j: usize = 0;
            while j < found.len()
                invariant
                    j <= found.len(),
                    known == exists|m: int| 0 <= m < j && found@[m].pid == q,
                decreases found.len() - j,
            {
                if found[j].pid == q {
                    known = true;
                }
                j += 1;
            }
            assert(known == has_pid(found@, q));
            let mut listed = false;
            let mut k: usize = 0;
            while k < r.len()
                invariant
                    k <= r.len(),
                    listed == r@.take(k as int).contains(q),
                decreases r.len() - k,
            {
                proof {
                    lemma_push_contains(r@.take(k as int), r@[k as int], q);
                    assert(r@.take(k + 1) == r@.take(k as int).push(r@[k as int]));
                }
                if r[k] == q {
                    listed = true;
                }
                k += 1;
            }
            assert(r@.take(r.len() as int) == r@);
            let ghost old_r = r@;
            if q != 0 && !known && !listed {
                r.push(q);
            }
            proof {
                assert forall|x: u32| r@.contains(x) <==> is_missing_parent(found@, x, i + 1) by {
                    lemma_missing_parent_step(found@, x, i as int);
                    if q != 0 && !known && !listed {
                        lemma_push_contains(old_r, q, x);
                    }
                }
            }
            i += 1;
        }
        r
    }

    /// Split an environment entry `KEY=VALUE` at its first `=`; an entry
    /// without `=` is a key with an empty value.
    pub fn split_env_entry(entry: &str) -> (r: (String, String))
        ensures
            (forall|i: int| 0 <= i < entry@.len() ==> entry@[i] != '=') ==> r.0@ == entry@
                && r.1@.len() == 0,
            forall|k: int|
                0 <= k < entry@.len() && entry@[k] == '=' && (forall|i: int|
                    0 <= i < k ==> entry@[i] != '=') ==> r.0@ == entry@.take(k) && r.1@
                    == entry@.skip(k + 1),
    {
        let s = chars_of(entry);
        let mut k: usize = 0;
        while k < s.len() && s[k] != '='
            invariant
                k <= s.len(),
                forall|i: int| 0 <= i < k ==> s@[i] != '=',
            decreases s.len() - k,
        {
            k += 1;
        }
        let mut key: Vec<char> = Vec::new();
        let mut i: usize = 0;
        while i < k
            invariant
                i <= k <= s.len(),
                key@ == s@.take(i as int),
            decreases k - i,
        {
            key.push(s[i]);
            assert(s@.take(i + 1) == s@.take(i as int).push(s@[i as int]));
            i += 1;
        }
        let mut value: Vec<char> = Vec::new();
        if k < s.len() {
            let mut j: usize = k + 1;
            while j < s.len()
                invariant
                    k < s.len(),
                    k + 1 <= j <= s.len(),
                    value@ == s@.subrange(k + 1, j as int),
                decreases s.len() - j,
            {
                value.push(s[j]);
                assert(s@.subrange(k + 1, j + 1) == s@.subrange(k + 1, j as int).push(s@[j as int]));
                j += 1;
            }
            assert(value@ =~= s@.skip(k + 1));
        } else {
            assert(key@ =~= s@);
        }
        (string_of(&key), string_of(&value))
    }
}

} // verus!
