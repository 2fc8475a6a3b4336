//! `ProcessInfo`: one monitored process with its metrics and children.
use vstd::prelude::*;
use core::time::Duration;

use crate::text::{decimal, decimal_chars, string_of};
use super::{duration_nanos, FrameworkKind, HealthStatus, Runtime};

verus! {

/// Information about a running server process.
///
/// `cpu_percent_bits` holds the IEEE-754 bit pattern of the `f32` CPU
/// percentage (`f32::to_bits`), so that the value is carried exactly.
pub struct ProcessInfo {
    pub pid: u32,
    pub ppid: u32,
    pub name: String,
    pub command: String,
    pub cwd: String,
    pub framework: FrameworkKind,
    pub framework_version: Option<String>,
    pub ports: Vec<u16>,
    pub cpu_percent_bits: u32,
    pub memory_rss: u64,
    pub memory_vms: u64,
    pub threads: u32,
    pub uptime: Duration,
    pub user: String,
    pub status: String,
    pub open_fds: u32,
    pub children: Vec<ProcessInfo>,
    pub env_vars: Vec<(String, String)>,
    /// `Some(runtime)` for processes classified as servers; `None` for
    /// tree-context parents kept only so the tree view is rooted.
    pub runtime: Option<Runtime>,
}

/// The mathematical value of a `ProcessInfo`.
pub struct ProcessView {
    pub pid: u32,
    pub ppid: u32,
    pub name: Seq<char>,
    pub command: Seq<char>,
    pub cwd: Seq<char>,
    pub framework: FrameworkKind,
    pub framework_version: Option<Seq<char>>,
    pub ports: Seq<u16>,
    pub cpu_percent_bits: u32,
    pub memory_rss: u64,
    pub memory_vms: u64,
    pub threads: u32,
    pub uptime_nanos: u128,
    pub user: Seq<char>,
    pub status: Seq<char>,
    pub open_fds: u32,
    pub children: Seq<ProcessView>,
    pub env_vars: Seq<(Seq<char>, Seq<char>)>,
    pub runtime: Option<Runtime>,
}

pub open spec fn opt_text(o: Option<String>) -> Option<Seq<char>> {
    match o {
        Some(s) => Some(s@),
        None => None,
    }
}

pub open spec fn env_view(e: Seq<(String, String)>) -> Seq<(Seq<char>, Seq<char>)> {
    e.map_values(|kv: (String, String)| (kv.0@, kv.1@))
}

impl ProcessInfo {
    /// The value of this process, children included.
    pub open spec fn pview(&self) -> ProcessView
        decreases self,
    {
        ProcessView {
            pid: self.pid,
            ppid: self.ppid,
            name: self.name@,
            command: self.command@,
            cwd: self.cwd@,
            framework: self.framework,
            framework_version: opt_text(self.framework_version),
            ports: self.ports@,
            cpu_percent_bits: self.cpu_percent_bits,
            memory_rss: self.memory_rss,
            memory_vms: self.memory_vms,
            threads: self.threads,
            uptime_nanos: duration_nanos(self.uptime),
            user: self.user@,
            status: self.status@,
            open_fds: self.open_fds,
            children: Self::pviews(self.children@),
            env_vars: env_view(self.env_vars@),
            runtime: self.runtime,
        }
    }

    /// The values of a sequence of processes.
    pub open spec fn pviews(s: Seq<ProcessInfo>) -> Seq<ProcessView>
        decreases s,
    {
        if s.len() == 0 {
            Seq::empty()
        } else {
            Self::pviews(s.drop_last()).push(s.last().pview())
        }
    }
}

impl View for ProcessInfo {
    type V = ProcessView;

    open spec fn view(&self) -> ProcessView {
        self.pview()
    }
}

pub proof fn lemma_pviews_len(s: Seq<ProcessInfo>)
    ensures
        ProcessInfo::pviews(s).len() == s.len(),
    decreases s.len(),
{
    if s.len() > 0 {
        lemma_pviews_len(s.drop_last());
    }
}

pub proof fn lemma_pviews_index(s: Seq<ProcessInfo>, i: int)
    requires
        0 <= i < s.len(),
    ensures
        ProcessInfo::pviews(s)[i] == s[i]@,
    decreases s.len(),
{
    lemma_pviews_len(s.drop_last());
    if i < s.len() - 1 {
        lemma_pviews_index(s.drop_last(), i);
    }
}

/// Two sequences of processes have equal values element by element.
pub proof fn lemma_pviews_ext(a: Seq<ProcessInfo>, b: Seq<ProcessInfo>)
    requires
        a.len() == b.len(),
        forall|i: int| 0 <= i < a.len() ==> #[trigger] a[i]@ == b[i]@,
    ensures
        ProcessInfo::pviews(a) == ProcessInfo::pviews(b),
{
    lemma_pviews_len(a);
    lemma_pviews_len(b);
    assert forall|i: int| 0 <= i < a.len() implies ProcessInfo::pviews(a)[i]
        == ProcessInfo::pviews(b)[i] by {
        lemma_pviews_index(a, i);
        lemma_pviews_index(b, i);
    }
    assert(ProcessInfo::pviews(a) =~= ProcessInfo::pviews(b));
}

/// The values of a sequence of processes, element by element.
pub open spec fn views(s: Seq<ProcessInfo>) -> Seq<ProcessView> {
    s.map_values(|p: ProcessInfo| p@)
}

/// `pviews` is the element-wise view.
pub proof fn lemma_pviews_views(s: Seq<ProcessInfo>)
    ensures
        ProcessInfo::pviews(s) == views(s),
{
    lemma_pviews_len(s);
    assert forall|i: int| 0 <= i < s.len() implies ProcessInfo::pviews(s)[i] == views(s)[i] by {
        lemma_pviews_index(s, i);
    }
    assert(ProcessInfo::pviews(s) =~= views(s));
}

/// A copy of `s`.
pub fn copy_string(s: &String) -> (r: String)
    ensures
        r@ == s@,
{
    s.clone()
}

/// A copy of the port list.
pub fn copy_ports(v: &Vec<u16>) -> (r: Vec<u16>)
    ensures
        r@ == v@,
{
    let mut r: Vec<u16> = Vec::new();
    let mut i: usize = 0;
    while i < v.len()
        invariant
            i <= v.len(),
            r@ == v@.take(i as int),
        decreases v.len() - i,
    {
        r.push(v[i]);
        assert(v@.take(i + 1) == v@.take(i as int).push(v@[i as int]));
        i += 1;
    }
    assert(v@.take(v.len() as int) == v@);
    r
}

fn copy_env(v: &Vec<(String, String)>) -> (r: Vec<(String, String)>)
    ensures
        env_view(r@) == env_view(v@),
{
    let mut r: Vec<(String, String)> = Vec::new();
    let mut i: usize = 0;
    while i < v.len()
        invariant
            i <= v.len(),
            env_view(r@) == env_view(v@.take(i as int)),
        decreases v.len() - i,
    {
        let k = copy_string(&v[i].0);
        let val = copy_string(&v[i].1);
        r.push((k, val));
        assert(env_view(v@.take(i + 1)) =~= env_view(v@.take(i as int)).push((v@[i as int].0@, v@[i as int].1@)));
        assert(env_view(r@) =~= env_view(r@.drop_last()).push((k@, val@)));
        i += 1;
    }
    assert(v@.take(v.len() as int) == v@);
    r
}

fn copy_opt_string(o: &Option<String>) -> (r: Option<String>)
    ensures
        opt_text(r) == opt_text(*o),
{
    match o {
        Some(s) => Some(copy_string(s)),
        None => None,
    }
}

/// The value of a freshly made process record (see `ProcessInfo::new`).
pub open spec fn fresh_view(pid: u32, name: Seq<char>) -> ProcessView {
    ProcessView {
        pid,
        ppid: 0,
        name,
        command: Seq::empty(),
        cwd: Seq::empty(),
        framework: FrameworkKind::Generic,
        framework_version: None,
        ports: Seq::empty(),
        cpu_percent_bits: 0,
        memory_rss: 0,
        memory_vms: 0,
        threads: 0,
        uptime_nanos: 0,
        user: Seq::empty(),
        status: "Running"@,
        open_fds: 0,
        children: Seq::empty(),
        env_vars: Seq::empty(),
        runtime: None,
    }
}

impl ProcessInfo {
    /// A new process record with the given PID and name and default values:
    /// no parent, no command, `Generic` framework, zero metrics, status
    /// `"Running"`, no children and no runtime.
    pub fn new(pid: u32, name: &str) -> (r: ProcessInfo)
        ensures
            r@.pid == pid,
            r@.ppid == 0,
            r@.name == name@,
            r@.command.len() == 0,
            r@.cwd.len() == 0,
            r@.framework == FrameworkKind::Generic,
            r@.framework_version is None,
            r@.ports.len() == 0,
            r@.cpu_percent_bits == 0,
            r@.memory_rss == 0,
            r@.memory_vms == 0,
            r@.threads == 0,
            r@.uptime_nanos == 0,
            r@.user.len() == 0,
            r@.status == "Running"@,
            r@.open_fds == 0,
            r@.children.len() == 0,
            r@.env_vars.len() == 0,
            r@.runtime is None,
            r@ == fresh_view(pid, name@),
    {
        let r = ProcessInfo {
            pid,
            ppid: 0,
            name: String::from_str(name),
            command: String::new(),
            cwd: String::new(),
            framework: FrameworkKind::Generic,
            framework_version: None,
            ports: Vec::new(),
            cpu_percent_bits: 0,
            memory_rss: 0,
            memory_vms: 0,
            threads: 0,
            uptime: Duration::from_secs(0),
            user: String::new(),
            status: String::from_str("Running"),
            open_fds: 0,
            children: Vec::new(),
            env_vars: Vec::new(),
            runtime: None,
        };
        assert(Self::pviews(r.children@) =~= Seq::<ProcessView>::empty());
        assert(r@.command =~= Seq::<char>::empty());
        assert(r@.cwd =~= Seq::<char>::empty());
        assert(r@.ports =~= Seq::<u16>::empty());
        assert(r@.user =~= Seq::<char>::empty());
        assert(r@.env_vars =~= Seq::<(Seq<char>, Seq<char>)>::empty());
        r
    }

    /// True if this process is a classified server (any runtime).
    pub fn is_server(&self) -> (b: bool)
        ensures
            b == self.runtime.is_some(),
    {
        self.runtime.is_some()
    }

    /// True if this process is a Node server specifically.
    pub fn is_node(&self) -> (b: bool)
        ensures
            b == (self.runtime == Some(Runtime::Node)),
    {
        match self.runtime {
            Some(Runtime::Node) => true,
            _ => false,
        }
    }

    /// A deep copy of this process and its subtree.
    pub fn duplicate(&self) -> (r: ProcessInfo)
        ensures
            r@ == self@,
        decreases self,
    {
        let mut children: Vec<ProcessInfo> = Vec::new();
        let mut i: usize = 0;
        while i < self.children.len()
            invariant
                i <= self.children.len(),
                children@.len() == i,
                forall|k: int| 0 <= k < i ==> #[trigger] children@[k]@ == self.children@[k]@,
            decreases self.children.len() - i,
        {
            assert(decreases_to!(self => self.children@[i as int]));
            let c = self.children[i].duplicate();
            children.push(c);
            i += 1;
        }
        proof {
            lemma_pviews_ext(children@, self.children@);
        }
        ProcessInfo {
            pid: self.pid,
            ppid: self.ppid,
            name: copy_string(&self.name),
            command: copy_string(&self.command),
            cwd: copy_string(&self.cwd),
            framework: self.framework,
            framework_version: copy_opt_string(&self.framework_version),
            ports: copy_ports(&self.ports),
            cpu_percent_bits: self.cpu_percent_bits,
            memory_rss: self.memory_rss,
            memory_vms: self.memory_vms,
            threads: self.threads,
            uptime: self.uptime,
            user: copy_string(&self.user),
            status: copy_string(&self.status),
            open_fds: self.open_fds,
            children,
            env_vars: copy_env(&self.env_vars),
            runtime: self.runtime,
        }
    }
}

impl Clone for ProcessInfo {
    fn clone(&self) -> (r: Self)
        ensures
            r@ == self@,
    {
        self.duplicate()
    }
}

} // verus!
