//! The process model: runtimes, frameworks, health, and `ProcessInfo`.
pub mod info;
pub mod health;
pub mod format;
pub mod framework_rules;
pub mod framework;
pub mod killer;
pub mod platform;
pub mod scanner;
pub mod tree;
pub mod network;

use vstd::prelude::*;
use core::time::Duration;

pub use info::ProcessInfo;
pub use info::ProcessView;

verus! {

/// Total nanoseconds held by a `Duration` (`Duration::as_nanos`).
pub uninterp spec fn duration_nanos(d: Duration) -> u128;

/// `Duration::from_secs`: a duration of exactly `secs` whole seconds.
pub assume_specification[ core::time::Duration::from_secs ](secs: u64) -> (d: Duration)
    ensures
        duration_nanos(d) == secs as int * 1_000_000_000,
;

/// `Duration::as_secs`: the whole seconds of a duration.
pub assume_specification[ core::time::Duration::as_secs ](d: &Duration) -> (r: u64)
    ensures
        r as int == duration_nanos(*d) as int / 1_000_000_000,
;

/// `Duration::as_nanos`: the total nanoseconds of a duration.
pub assume_specification[ core::time::Duration::as_nanos ](d: &Duration) -> (r: u128)
    ensures
        r == duration_nanos(*d),
;

/// Server runtime / language family a process belongs to.
#[derive(Debug, Clone, Copy, PartialEq, Eq, Structural)]
pub enum Runtime {
    Node,
    Python,
    Java,
    Deno,
    Bun,
    Ruby,
    Php,
    DotNet,
}

impl Runtime {
    /// The display text of the runtime.
    pub open spec fn label(self) -> Seq<char> {
        match self {
            Runtime::Node => "Node"@,
            Runtime::Python => "Python"@,
            Runtime::Java => "Java"@,
            Runtime::Deno => "Deno"@,
            Runtime::Bun => "Bun"@,
            Runtime::Ruby => "Ruby"@,
            Runtime::Php => "PHP"@,
            Runtime::DotNet => ".NET"@,
        }
    }

    /// The display text of the runtime, e.g. `"PHP"`.
    pub fn to_string(&self) -> (s: String)
        ensures
            s@ == self.label(),
    {
        match self {
            Runtime::Node => String::from_str("Node"),
            Runtime::Python => String::from_str("Python"),
            Runtime::Java => String::from_str("Java"),
            Runtime::Deno => String::from_str("Deno"),
            Runtime::Bun => String::from_str("Bun"),
            Runtime::Ruby => String::from_str("Ruby"),
            Runtime::Php => String::from_str("PHP"),
            Runtime::DotNet => String::from_str(".NET"),
        }
    }
}

/// Web framework detected for a monitored process, across all runtimes.
#[derive(Debug, Clone, Copy, PartialEq, Eq, Structural)]
pub enum FrameworkKind {
    NextJs,
    Express,
    Fastify,
    NestJs,
    Nuxt,
    Koa,
    Hapi,
    FastApi,
    Flask,
    Django,
    SpringBoot,
    Rails,
    Laravel,
    AspNet,
    Generic,
}

impl FrameworkKind {
    /// The display text of the framework.
    pub open spec fn label(self) -> Seq<char> {
        match self {
            FrameworkKind::NextJs => "Next.js"@,
            FrameworkKind::Express => "Express"@,
            FrameworkKind::Fastify => "Fastify"@,
            FrameworkKind::NestJs => "NestJs"@,
            FrameworkKind::Nuxt => "Nuxt.js"@,
            FrameworkKind::Koa => "Koa"@,
            FrameworkKind::Hapi => "Hapi"@,
            FrameworkKind::FastApi => "FastAPI"@,
            FrameworkKind::Flask => "Flask"@,
            FrameworkKind::Django => "Django"@,
            FrameworkKind::SpringBoot => "Spring Boot"@,
            FrameworkKind::Rails => "Rails"@,
            FrameworkKind::Laravel => "Laravel"@,
            FrameworkKind::AspNet => "ASP.NET"@,
            FrameworkKind::Generic => "Generic"@,
        }
    }

    /// The display text of the framework, e.g. `"Next.js"`.
    pub fn to_string(&self) -> (s: String)
        ensures
            s@ == self.label(),
    {
        match self {
            FrameworkKind::NextJs => String::from_str("Next.js"),
            FrameworkKind::Express => String::from_str("Express"),
            FrameworkKind::Fastify => String::from_str("Fastify"),
            FrameworkKind::NestJs => String::from_str("NestJs"),
            FrameworkKind::Nuxt => String::from_str("Nuxt.js"),
            FrameworkKind::Koa => String::from_str("Koa"),
            FrameworkKind::Hapi => String::from_str("Hapi"),
            FrameworkKind::FastApi => String::from_str("FastAPI"),
            FrameworkKind::Flask => String::from_str("Flask"),
            FrameworkKind::Django => String::from_str("Django"),
            FrameworkKind::SpringBoot => String::from_str("Spring Boot"),
            FrameworkKind::Rails => String::from_str("Rails"),
            FrameworkKind::Laravel => String::from_str("Laravel"),
            FrameworkKind::AspNet => String::from_str("ASP.NET"),
            FrameworkKind::Generic => String::from_str("Generic"),
        }
    }
}

/// Health status of a process based on resource usage or process state.
#[derive(Debug, Clone, Copy, PartialEq, Eq, Structural)]
pub enum HealthStatus {
    Healthy,
    Warning,
    Critical,
}

} // verus!
