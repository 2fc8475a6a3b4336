//! The lines read from a process's log file, and the choice of that file.
//!
//! The program finds candidate files and reads from the chosen one; the
//! streamer keeps the last lines read and decides which file to follow.
use vstd::prelude::*;
use std::collections::VecDeque;

use crate::text::{decimal, decimal_chars, string_of};

verus! {

/// At most this many lines are kept.
pub const MAX_BUFFER_LINES: usize = 1000;

/// A line without its trailing `'\n'` characters and then its trailing
/// `'\r'` characters.
pub open spec fn trim_line(s: Seq<char>) -> Seq<char> {
    strip_all(strip_all(s, '\n'), '\r')
}

/// `s` without the run of `c` at its end (`str::trim_end_matches`).
pub open spec fn strip_all(s: Seq<char>, c: char) -> Seq<char>
    decreases s.len(),
{
    if s.len() > 0 && s.last() == c {
        strip_all(s.drop_last(), c)
    } else {
        s
    }
}

/// The last `MAX_BUFFER_LINES` lines of `s` (all of them when fewer).
pub open spec fn keep_last(s: Seq<Seq<char>>) -> Seq<Seq<char>> {
    if s.len() > MAX_BUFFER_LINES {
        s.skip(s.len() - MAX_BUFFER_LINES)
    } else {
        s
    }
}

/// The texts of a list of strings.
pub open spec fn string_views(s: Seq<String>) -> Seq<Seq<char>> {
    s.map_values(|x: String| x@)
}

/// The log file patterns searched under a process's working directory, in
/// order.
pub open spec fn log_pattern_list() -> Seq<Seq<char>> {
    seq![
        "*.log"@,
        ".next/server/app/**/*.log"@,
        ".next/trace"@,
        "logs/*.log"@,
        "log/*.log"@,
        "npm-debug.log"@,
        "yarn-error.log"@,
    ]
}

/// The lines read from a log file: the path being followed, if any, and
/// the last lines read (at most `MAX_BUFFER_LINES`).
pub struct LogStreamer {
    path: Option<String>,
    buffer: VecDeque<String>,
}

impl LogStreamer {
    /// At most `MAX_BUFFER_LINES` lines are kept.
    pub closed spec fn wf(self) -> bool {
        self.buffer@.len() <= MAX_BUFFER_LINES
    }

    /// The path being followed.
    pub closed spec fn path_view(self) -> Option<Seq<char>> {
        match self.path {
            Some(p) => Some(p@),
            None => None,
        }
    }

    /// The lines kept, oldest first.
    pub closed spec fn lines(self) -> Seq<Seq<char>> {
        string_views(self.buffer@)
    }

    /// A streamer with no file and no lines.
    pub fn new() -> (s: LogStreamer)
        ensures
            s.wf(),
            s.path_view() is None,
            s.lines().len() == 0,
    {
        let s = LogStreamer { path: None, buffer: VecDeque::new() };
        assert(s.lines() =~= Seq::<Seq<char>>::empty());
        s
    }

    /// A streamer following the file at `path`, with no lines yet.
    pub fn opened(path: String) -> (s: LogStreamer)
        ensures
            s.wf(),
            s.path_view() == Some(path@),
            s.lines().len() == 0,
    {
        let s = LogStreamer { path: Some(path), buffer: VecDeque::new() };
        assert(s.lines() =~= Seq::<Seq<char>>::empty());
        s
    }

    /// Whether a log file is being followed.
    pub fn has_source(&self) -> (b: bool)
        ensures
            b == self.path_view() is Some,
    {
        self.path.is_some()
    }

    /// The path of the file being followed, if any.
    pub fn source_path(&self) -> (p: Option<&String>)
        ensures
            match p {
                Some(s) => self.path_view() == Some(s@),
                None => self.path_view() is None,
            },
    {
        match &self.path {
            Some(s) => Some(s),
            None => None,
        }
    }

    /// The lines kept, oldest first.
    pub fn buffer(&self) -> (b: &VecDeque<String>)
        ensures
            string_views(b@) == self.lines(),
    {
        &self.buffer
    }

    /// Take in the lines just read from the file (each as read, line ending
    /// included): each is stripped of its line ending and kept, the oldest
    /// kept lines giving way beyond `MAX_BUFFER_LINES`. Returns the stripped
    /// lines.
    pub fn record_lines(&mut self, raw: Vec<String>) -> (new_lines: Vec<String>)
        requires
            old(self).wf(),
        ensures
            final(self).wf(),
            string_views(new_lines@) == string_views(raw@).map_values(|l: Seq<char>| trim_line(l)),
            final(self).lines() == keep_last(old(self).lines() + string_views(new_lines@)),
            final(self).path_view() == old(self).path_view(),
    {
        let ghost start = string_views(self.buffer@);
        let ghost rv = string_views(raw@).map_values(|l: Seq<char>| trim_line(l));
        let mut new_lines: Vec<String> = Vec::new();
        let mut i: usize = 0;
        assert(string_views(new_lines@) =~= rv.take(0));
        assert(keep_last(start + rv.take(0)) =~= start);
        while i < raw.len()
            invariant
                i <= raw.len(),
                rv == string_views(raw@).map_values(|l: Seq<char>| trim_line(l)),
                string_views(new_lines@) == rv.take(i as int),
                string_views(self.buffer@) == keep_last(start + rv.take(i as int)),
                self.buffer@.len() <= MAX_BUFFER_LINES,
                self.path == old(self).path,
            decreases raw.len() - i,
        {
            let t = trim_end(&raw[i]);
            let t2 = trim_end_text(&t);
            let ghost prev = string_views(self.buffer@);
            self.buffer.push_back(copy_text(&t2));
            new_lines.push(t2);
            let ghost pushed = string_views(self.buffer@);
            assert(pushed =~= prev.push(rv[i as int]));
            while self.buffer.len() > MAX_BUFFER_LINES
                invariant
                    self.buffer@.len() <= MAX_BUFFER_LINES + 1,
                    string_views(self.buffer@) == keep_last(pushed) || (self.buffer@.len() == MAX_BUFFER_LINES + 1 && string_views(self.buffer@) == pushed),
                    pushed.len() <= MAX_BUFFER_LINES + 1,
                    self.path == old(self).path,
                decreases self.buffer@.len(),
            {
                let ghost before = self.buffer@;
                self.buffer.pop_front();
                assert(string_views(self.buffer@) =~= string_views(before).drop_first());
                assert(keep_last(pushed) =~= pushed.skip(1));
            }
            proof {
                let all = start + rv.take(i + 1);
                assert(rv.take(i + 1) =~= rv.take(i as int).push(rv[i as int]));
                assert(all =~= (start + rv.take(i as int)).push(rv[i as int]));
                assert(keep_last(all) =~= keep_last(prev.push(rv[i as int])));
                assert(string_views(new_lines@) =~= rv.take(i + 1));
            }
            i += 1;
        }
        assert(rv.take(raw.len() as int) =~= rv);
        new_lines
    }

    /// The log file patterns searched under a process's working directory,
    /// in order.
    pub fn log_patterns() -> (v: Vec<&'static str>)
        ensures
            v@.map_values(|s: &str| s@) == log_pattern_list(),
    {
        let v = vec![
            "*.log",
            ".next/server/app/**/*.log",
            ".next/trace",
            "logs/*.log",
            "log/*.log",
            "npm-debug.log",
            "yarn-error.log",
        ];
        assert(v@.map_values(|s: &str| s@) =~= log_pattern_list());
        v
    }

    /// Which of the candidate log files to follow, given their modification
    /// times: the most recent, the earliest listed among equals; `None` when
    /// there is no candidate.
    pub fn pick_most_recent(times: &Vec<i128>) -> (r: Option<usize>)
        ensures
            match r {
                Some(i) => i < times@.len() && (forall|j: int| 0 <= j < times@.len() ==> times@[j] <= times@[i as int])
                    && (forall|j: int| 0 <= j < i ==> times@[j] < times@[i as int]),
                None => times@.len() == 0,
            },
    {
        if times.len() == 0 {
            return None;
        }
        let mut best: usize = 0;
        let mut i: usize = 1;
        while i < times.len()
            invariant
                1 <= i <= times.len(),
                best < i,
                forall|j: int| 0 <= j < i ==> times@[j] <= times@[best as int],
                forall|j: int| 0 <= j < best ==> times@[j] < times@[best as int],
            decreases times.len() - i,
        {
            if times[i] > times[best] {
                best = i;
            }
            i += 1;
        }
        Some(best)
    }

    /// The path of a process's standard output under `/proc`, followed when
    /// no log file is found.
    pub fn proc_stdout_path(pid: u32) -> (p: String)
        ensures
            p@ == "/proc/"@ + decimal(pid as nat) + "/fd/1"@,
    {
        let mut v: Vec<char> = vec!['/', 'p', 'r', 'o', 'c', '/'];
        let d = decimal_chars(pid as u64);
        let mut i: usize = 0;
        let ghost v0 = v@;
        while i < d.len()
            invariant
                i <= d.len(),
                v@ == v0 + d@.take(i as int),
            decreases d.len() - i,
        {
            v.push(d[i]);
            assert(d@.take(i + 1) =~= d@.take(i as int).push(d@[i as int]));
            i += 1;
        }
        assert(d@.take(d.len() as int) =~= d@);
        v.push('/');
        v.push('f');
        v.push('d');
        v.push('/');
        v.push('1');
        proof {
            reveal_strlit("/proc/");
            reveal_strlit("/fd/1");
        }
        assert(v@ =~= "/proc/"@ + decimal(pid as nat) + "/fd/1"@);
        string_of(&v)
    }
}

/// `s` without the run of `'\n'` at its end.
fn trim_end(s: &String) -> (r: Vec<char>)
    ensures
        r@ == strip_all(s@, '\n'),
{
    let v = crate::text::chars_of(s.as_str());
    strip_end(&v, '\n')
}

/// The text of `v` without the run of `'\r'` at its end.
fn trim_end_text(v: &Vec<char>) -> (r: String)
    ensures
        r@ == strip_all(v@, '\r'),
{
    let w = strip_end(v, '\r');
    string_of(&w)
}

fn copy_text(s: &String) -> (r: String)
    ensures
        r@ == s@,
{
    s.clone()
}

proof fn lemma_strip_all_at(s: Seq<char>, c: char, k: int)
    requires
        0 <= k <= s.len(),
        forall|j: int| k <= j < s.len() ==> #[trigger] s[j] == c,
        k == 0 || s[k - 1] != c,
    ensures
        strip_all(s, c) == s.take(k),
    decreases s.len(),
{
    if s.len() > 0 && s.last() == c {
        assert forall|j: int| k <= j < s.drop_last().len() implies #[trigger] s.drop_last()[j] == c by {
            assert(s.drop_last()[j] == s[j]);
        }
        if k == s.len() {
            assert(s[k - 1] == c);
        }
        lemma_strip_all_at(s.drop_last(), c, k);
        assert(s.drop_last().take(k) =~= s.take(k));
    } else {
        if k < s.len() {
            assert(s[s.len() - 1] == c);
        }
        assert(s.take(k) =~= s);
    }
}

fn strip_end(v: &Vec<char>, c: char) -> (r: Vec<char>)
    ensures
        r@ == strip_all(v@, c),
{
    let mut k: usize = v.len();
    while k > 0 && v[k - 1] == c
        invariant
            k <= v.len(),
            forall|j: int| k <= j < v.len() ==> #[trigger] v@[j] == c,
        decreases k,
    {
        k -= 1;
    }
    proof {
        lemma_strip_all_at(v@, c, k as int);
    }
    let r = crate::text::slice_chars(v, 0, k);
    assert(r@ =~= v@.take(k as int));
    r
}

} // verus!
