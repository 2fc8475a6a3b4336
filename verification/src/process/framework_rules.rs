//! Framework + runtime detection rules — the dictionary that drives tagging.
//!
//! To add a new framework: append a `Rule` to `framework_rules`.
//! To add a new runtime:   append a `Rule` to `runtime_rules`.
//! Then add the variant to `FrameworkKind` / `Runtime` and to the matching
//! specification tables below.
use vstd::prelude::*;

use super::{FrameworkKind, Runtime};

verus! {

/// One detection rule = a (runtime, framework) tag plus the matchers that
/// fire it.
///
/// Three signal types, checked in reliability order within a tier:
/// 1. `name_exact`      — exact match against the normalized process name.
/// 2. `command_binary`  — exact match against the basename of the command's
///                        first whitespace-separated token.
/// 3. `command_contains`— substring search in the full command line.
pub struct Rule {
    pub runtime: Runtime,
    pub framework: FrameworkKind,
    pub name_exact: Vec<&'static str>,
    pub command_binary: Vec<&'static str>,
    pub command_contains: Vec<&'static str>,
}

/// The value of a rule.
pub struct RuleView {
    pub runtime: Runtime,
    pub framework: FrameworkKind,
    pub name_exact: Seq<Seq<char>>,
    pub command_binary: Seq<Seq<char>>,
    pub command_contains: Seq<Seq<char>>,
}

pub open spec fn strs_view(v: Seq<&'static str>) -> Seq<Seq<char>> {
    v.map_values(|s: &'static str| s@)
}

impl View for Rule {
    type V = RuleView;

    open spec fn view(&self) -> RuleView {
        RuleView {
            runtime: self.runtime,
            framework: self.framework,
            name_exact: strs_view(self.name_exact@),
            command_binary: strs_view(self.command_binary@),
            command_contains: strs_view(self.command_contains@),
        }
    }
}

pub open spec fn rules_view(v: Seq<Rule>) -> Seq<RuleView> {
    v.map_values(|r: Rule| r@)
}

pub open spec fn rule_spec(
    runtime: Runtime,
    framework: FrameworkKind,
    name_exact: Seq<Seq<char>>,
    command_binary: Seq<Seq<char>>,
    command_contains: Seq<Seq<char>>,
) -> RuleView {
    RuleView { runtime, framework, name_exact, command_binary, command_contains }
}

/// Framework-specific rules. Resolved FIRST, as a tier, so a specific
/// framework substring (e.g. `fastapi`) beats a generic runtime name match
/// (e.g. `python`).
pub open spec fn framework_rules_spec() -> Seq<RuleView> {
    seq![
        rule_spec(
            Runtime::Node,
            FrameworkKind::NextJs,
            seq!["next-server"@, "next-router-worker"@, "next-router-page-worker"@],
            seq!["next-server"@, "next-router-worker"@, "next-router-page-worker"@],
            seq!["node_modules/.bin/next"@],
        ),
        rule_spec(
            Runtime::Node,
            FrameworkKind::Nuxt,
            seq!["nuxt"@, "nuxi"@],
            seq!["nuxt"@, "nuxi"@],
            seq!["node_modules/.bin/nuxt"@],
        ),
        rule_spec(
            Runtime::Node,
            FrameworkKind::NestJs,
            seq![],
            seq![],
            seq!["node_modules/.bin/nest"@, "dist/main.js"@],
        ),
        rule_spec(
            Runtime::Python,
            FrameworkKind::Django,
            seq![],
            seq![],
            seq!["manage.py"@, "django"@],
        ),
        rule_spec(Runtime::Python, FrameworkKind::Flask, seq![], seq![], seq!["-m flask"@]),
        rule_spec(Runtime::Python, FrameworkKind::FastApi, seq![], seq![], seq!["fastapi"@]),
        rule_spec(
            Runtime::Java,
            FrameworkKind::SpringBoot,
            seq![],
            seq![],
            seq!["org.springframework"@, "spring-boot"@],
        ),
        rule_spec(
            Runtime::Ruby,
            FrameworkKind::Rails,
            seq!["rails"@],
            seq!["rails"@],
            seq!["bin/rails"@],
        ),
        rule_spec(Runtime::Php, FrameworkKind::Laravel, seq![], seq![], seq!["artisan"@]),
        rule_spec(
            Runtime::DotNet,
            FrameworkKind::AspNet,
            seq![],
            seq![],
            seq!["Microsoft.AspNetCore"@, "aspnet"@],
        ),
    ]
}

/// Runtime-generic rules. Resolved SECOND, only when no framework rule
/// fired. These match the bare interpreter / VM by name.
pub open spec fn runtime_rules_spec() -> Seq<RuleView> {
    seq![
        rule_spec(Runtime::Node, FrameworkKind::Generic, seq!["node"@], seq!["node"@], seq![]),
        rule_spec(
            Runtime::Python,
            FrameworkKind::Generic,
            seq!["python"@, "python3"@, "uvicorn"@, "gunicorn"@, "hypercorn"@, "celery"@],
            seq!["python"@, "python3"@, "uvicorn"@, "gunicorn"@, "hypercorn"@, "celery"@],
            seq![],
        ),
        rule_spec(Runtime::Java, FrameworkKind::Generic, seq!["java"@], seq!["java"@], seq![]),
        rule_spec(
            Runtime::Ruby,
            FrameworkKind::Generic,
            seq!["ruby"@, "puma"@, "unicorn"@, "rackup"@],
            seq!["ruby"@, "puma"@, "unicorn"@, "rackup"@],
            seq![],
        ),
        rule_spec(
            Runtime::Php,
            FrameworkKind::Generic,
            seq!["php"@, "php-fpm"@],
            seq!["php"@, "php-fpm"@],
            seq![],
        ),
        rule_spec(
            Runtime::DotNet,
            FrameworkKind::Generic,
            seq!["dotnet"@],
            seq!["dotnet"@],
            seq![],
        ),
        rule_spec(Runtime::Deno, FrameworkKind::Generic, seq!["deno"@], seq!["deno"@], seq![]),
        rule_spec(Runtime::Bun, FrameworkKind::Generic, seq!["bun"@], seq!["bun"@], seq![]),
    ]
}

fn rule(
    runtime: Runtime,
    framework: FrameworkKind,
    name_exact: Vec<&'static str>,
    command_binary: Vec<&'static str>,
    command_contains: Vec<&'static str>,
) -> (r: Rule)
    ensures
        r@ == rule_spec(
            runtime,
            framework,
            strs_view(name_exact@),
            strs_view(command_binary@),
            strs_view(command_contains@),
        ),
{
    Rule { runtime, framework, name_exact, command_binary, command_contains }
}

fn strs0() -> (v: Vec<&'static str>)
    ensures
        strs_view(v@) == Seq::<Seq<char>>::empty(),
{
    let v: Vec<&'static str> = Vec::new();
    assert(strs_view(v@) =~= Seq::<Seq<char>>::empty());
    v
}

fn strs1(a: &'static str) -> (v: Vec<&'static str>)
    ensures
        strs_view(v@) == seq![a@],
{
    let mut v: Vec<&'static str> = Vec::new();
    v.push(a);
    assert(strs_view(v@) =~= seq![a@]);
    v
}

fn strs2(a: &'static str, b: &'static str) -> (v: Vec<&'static str>)
    ensures
        strs_view(v@) == seq![a@, b@],
{
    let mut v: Vec<&'static str> = Vec::new();
    v.push(a);
    v.push(b);
    assert(strs_view(v@) =~= seq![a@, b@]);
    v
}

fn strs3(a: &'static str, b: &'static str, c: &'static str) -> (v: Vec<&'static str>)
    ensures
        strs_view(v@) == seq![a@, b@, c@],
{
    let mut v: Vec<&'static str> = Vec::new();
    v.push(a);
    v.push(b);
    v.push(c);
    assert(strs_view(v@) =~= seq![a@, b@, c@]);
    v
}

fn strs4(a: &'static str, b: &'static str, c: &'static str, d: &'static str) -> (v: Vec<
    &'static str,
>)
    ensures
        strs_view(v@) == seq![a@, b@, c@, d@],
{
    let mut v: Vec<&'static str> = Vec::new();
    v.push(a);
    v.push(b);
    v.push(c);
    v.push(d);
    assert(strs_view(v@) =~= seq![a@, b@, c@, d@]);
    v
}

fn strs6(
    a: &'static str,
    b: &'static str,
    c: &'static str,
    d: &'static str,
    e: &'static str,
    f: &'static str,
) -> (v: Vec<&'static str>)
    ensures
        strs_view(v@) == seq![a@, b@, c@, d@, e@, f@],
{
    let mut v: Vec<&'static str> = Vec::new();
    v.push(a);
    v.push(b);
    v.push(c);
    v.push(d);
    v.push(e);
    v.push(f);
    assert(strs_view(v@) =~= seq![a@, b@, c@, d@, e@, f@]);
    v
}

/// The framework tier, in priority order.
pub fn framework_rules() -> (r: Vec<Rule>)
    ensures
        rules_view(r@) == framework_rules_spec(),
{
    let r = vec![
        rule(
            Runtime::Node,
            FrameworkKind::NextJs,
            strs3("next-server", "next-router-worker", "next-router-page-worker"),
            strs3("next-server", "next-router-worker", "next-router-page-worker"),
            strs1("node_modules/.bin/next"),
        ),
        rule(
            Runtime::Node,
            FrameworkKind::Nuxt,
            strs2("nuxt", "nuxi"),
            strs2("nuxt", "nuxi"),
            strs1("node_modules/.bin/nuxt"),
        ),
        rule(
            Runtime::Node,
            FrameworkKind::NestJs,
            strs0(),
            strs0(),
            strs2("node_modules/.bin/nest", "dist/main.js"),
        ),
        rule(Runtime::Python, FrameworkKind::Django, strs0(), strs0(), strs2("manage.py", "django")),
        rule(Runtime::Python, FrameworkKind::Flask, strs0(), strs0(), strs1("-m flask")),
        rule(Runtime::Python, FrameworkKind::FastApi, strs0(), strs0(), strs1("fastapi")),
        rule(
            Runtime::Java,
            FrameworkKind::SpringBoot,
            strs0(),
            strs0(),
            strs2("org.springframework", "spring-boot"),
        ),
        rule(Runtime::Ruby, FrameworkKind::Rails, strs1("rails"), strs1("rails"), strs1("bin/rails")),
        rule(Runtime::Php, FrameworkKind::Laravel, strs0(), strs0(), strs1("artisan")),
        rule(
            Runtime::DotNet,
            FrameworkKind::AspNet,
            strs0(),
            strs0(),
            strs2("Microsoft.AspNetCore", "aspnet"),
        ),
    ];
    assert(rules_view(r@) =~= framework_rules_spec());
    r
}

/// The runtime tier, in priority order.
pub fn runtime_rules() -> (r: Vec<Rule>)
    ensures
        rules_view(r@) == runtime_rules_spec(),
{
    let r = vec![
        rule(Runtime::Node, FrameworkKind::Generic, strs1("node"), strs1("node"), strs0()),
        rule(
            Runtime::Python,
            FrameworkKind::Generic,
            strs6("python", "python3", "uvicorn", "gunicorn", "hypercorn", "celery"),
            strs6("python", "python3", "uvicorn", "gunicorn", "hypercorn", "celery"),
            strs0(),
        ),
        rule(Runtime::Java, FrameworkKind::Generic, strs1("java"), strs1("java"), strs0()),
        rule(
            Runtime::Ruby,
            FrameworkKind::Generic,
            strs4("ruby", "puma", "unicorn", "rackup"),
            strs4("ruby", "puma", "unicorn", "rackup"),
            strs0(),
        ),
        rule(Runtime::Php, FrameworkKind::Generic, strs2("php", "php-fpm"), strs2("php", "php-fpm"), strs0()),
        rule(Runtime::DotNet, FrameworkKind::Generic, strs1("dotnet"), strs1("dotnet"), strs0()),
        rule(Runtime::Deno, FrameworkKind::Generic, strs1("deno"), strs1("deno"), strs0()),
        rule(Runtime::Bun, FrameworkKind::Generic, strs1("bun"), strs1("bun"), strs0()),
    ];
    assert(rules_view(r@) =~= runtime_rules_spec());
    r
}

} // verus!
