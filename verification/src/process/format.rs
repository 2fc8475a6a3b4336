//! Human-readable renderings of a process: uptime, memory size, and a
//! display name derived from the command line.
use vstd::prelude::*;

use crate::text::{
    basename, basename_of, char_is_alphabetic, char_is_alphanumeric, chars_of, contains_chars,
    decimal, decimal_chars, digit_char, digit_of, ends_with_chars, extend_chars, has_prefix,
    has_substring, has_suffix, join, join_chars, same_chars, split_whitespace, starts_with_chars,
    string_of, tokens, unicode_alphabetic, unicode_alphanumeric, utf8_size, utf8_size_at_most,
};
use super::{duration_nanos, ProcessInfo};

verus! {

// ─── Uptime ───────────────────────────────────────────────────────────

/// `"{h}h {m}m {s}s"`, `"{m}m {s}s"` or `"{s}s"` for `total` seconds,
/// leaving out leading zero units.
pub open spec fn uptime_text(total: nat) -> Seq<char> {
    let h = total / 3600;
    let m = (total % 3600) / 60;
    let s = total % 60;
    if h > 0 {
        decimal(h) + seq!['h', ' '] + decimal(m) + seq!['m', ' '] + decimal(s) + seq!['s']
    } else if m > 0 {
        decimal(m) + seq!['m', ' '] + decimal(s) + seq!['s']
    } else {
        decimal(s) + seq!['s']
    }
}

/// `decimal(n)` followed by the unit letter `u`.
fn push_amount(v: &mut Vec<char>, n: u64, u: char)
    ensures
        final(v)@ == old(v)@ + decimal(n as nat) + seq![u],
{
    let d = decimal_chars(n);
    extend_chars(v, &d);
    v.push(u);
}

impl ProcessInfo {
    /// Format the uptime as a human-readable string, e.g. `"1h 2m 5s"`.
    pub fn uptime_display(&self) -> (s: String)
        ensures
            s@ == uptime_text((duration_nanos(self.uptime) / 1_000_000_000) as nat),
    {
        let total_secs = self.uptime.as_secs();
        let hours = total_secs / 3600;
        let minutes = (total_secs % 3600) / 60;
        let seconds = total_secs % 60;
        let mut v: Vec<char> = Vec::new();
        if hours > 0 {
            push_amount(&mut v, hours, 'h');
            v.push(' ');
            push_amount(&mut v, minutes, 'm');
            v.push(' ');
            push_amount(&mut v, seconds, 's');
        } else if minutes > 0 {
            push_amount(&mut v, minutes, 'm');
            v.push(' ');
            push_amount(&mut v, seconds, 's');
        } else {
            push_amount(&mut v, seconds, 's');
        }
        let ghost t = (duration_nanos(self.uptime) / 1_000_000_000) as nat;
        assert(v@ =~= uptime_text(t));
        string_of(&v)
    }
}

// ─── Memory sizes ─────────────────────────────────────────────────────

pub open spec fn pow2(e: nat) -> nat
    decreases e,
{
    if e == 0 {
        1
    } else {
        2 * pow2((e - 1) as nat)
    }
}

/// Number of low bits of `x` that an `f64` (53-bit significand) cannot hold.
pub open spec fn excess_bits(x: nat) -> nat
    decreases x,
{
    if x < 0x20_0000_0000_0000 {
        0
    } else {
        1 + excess_bits(x / 2)
    }
}

/// `n / d` rounded to the nearest integer, ties to even.
pub open spec fn div_round_even(n: nat, d: nat) -> nat {
    let q = n / d;
    let r = n % d;
    if 2 * r > d || (2 * r == d && q % 2 == 1) {
        q + 1
    } else {
        q
    }
}

/// The value of `x as f64`: `x` rounded to 53 significant bits, ties to even.
pub open spec fn f64_value(x: nat) -> nat {
    let e = excess_bits(x);
    if e == 0 {
        x
    } else {
        div_round_even(x, pow2(e)) * pow2(e)
    }
}

/// `t` tenths as `"{t / 10}.{t % 10}"`.
pub open spec fn tenths_text(t: nat) -> Seq<char> {
    decimal(t / 10) + seq!['.', digit_char(t % 10)]
}

/// A byte count with one decimal in the largest binary unit it reaches:
/// `"1.5 GB"`, `"128.0 MB"`, `"2.0 KB"`, or `"512 B"` (what `{:.1}` prints
/// for `bytes as f64` divided by the unit, rounding ties to even).
pub open spec fn bytes_text(bytes: u64) -> Seq<char> {
    let v = f64_value(bytes as nat);
    if v >= 0x4000_0000 {
        tenths_text(div_round_even(v * 10, 0x4000_0000)) + seq![' ', 'G', 'B']
    } else if v >= 0x10_0000 {
        tenths_text(div_round_even(v * 10, 0x10_0000)) + seq![' ', 'M', 'B']
    } else if v >= 0x400 {
        tenths_text(div_round_even(v * 10, 0x400)) + seq![' ', 'K', 'B']
    } else {
        decimal(bytes as nat) + seq![' ', 'B']
    }
}

proof fn lemma_pow2_pos(e: nat)
    ensures
        pow2(e) >= 1,
    decreases e,
{
    if e > 0 {
        lemma_pow2_pos((e - 1) as nat);
    }
}

/// `n / d` rounded to nearest, ties to even.
fn round_even(n: u128, d: u128) -> (r: u128)
    requires
        d > 0,
        n / d < u128::MAX,
    ensures
        r == div_round_even(n as nat, d as nat),
{
    let q = n / d;
    let rem = n % d;
    if rem > d - rem || (rem == d - rem && q % 2 == 1) {
        q + 1
    } else {
        q
    }
}

/// `x as f64`, as an integer.
fn f64_value_of(x: u64) -> (v: u128)
    ensures
        v == f64_value(x as nat),
        v <= 0x2_0000_0000_0000_0000u128,
{
    let mut q: u64 = x;
    let mut p: u128 = 1;
    let ghost mut e: nat = 0;
    assert(x as int / 1 == x as int);
    while q >= 0x20_0000_0000_0000u64
        invariant
            p as int == pow2(e),
            q as int == x as int / p as int,
            p >= 1,
            q as int * p as int <= x as int,
            p >= 2 ==> q as int * 2 >= 0x20_0000_0000_0000,
            excess_bits(x as nat) == e + excess_bits(q as nat),
        decreases q,
    {
        proof {
            vstd::arithmetic::div_mod::lemma_div_denominator(x as int, p as int, 2);
            assert(pow2(e + 1) == 2 * pow2(e));
            assert(excess_bits(q as nat) == 1 + excess_bits(q as nat / 2));
            assert((q / 2) as int * (p as int * 2) <= x as int) by (nonlinear_arith)
                requires
                    q as int * p as int <= x as int,
                    p >= 1,
            ;
            assert(p as int * 2 <= 0x1_0000_0000_0000_0000) by (nonlinear_arith)
                requires
                    q as int * p as int <= x as int,
                    q >= 0x20_0000_0000_0000u64,
                    x < 0x1_0000_0000_0000_0000,
            ;
        }
        q = q / 2;
        p = p * 2;
        proof {
            e = e + 1;
        }
    }
    if p == 1 {
        proof {
            if e > 0 {
                assert(pow2(e) == 2 * pow2((e - 1) as nat));
                lemma_pow2_pos((e - 1) as nat);
            }
        }
        x as u128
    } else {
        proof {
            if e == 0 {
                assert(pow2(0) == 1);
            }
        }
        let r = round_even(x as u128, p);
        proof {
            assert(excess_bits(q as nat) == 0);
            assert(q < 0x20_0000_0000_0000u64);
            assert(r <= q + 1);
        }
        assert(r as int * p as int <= 0x2_0000_0000_0000_0000) by (nonlinear_arith)
            requires
                r as int <= q as int + 1,
                q as int * p as int <= x as int,
                x < 0x1_0000_0000_0000_0000,
                q as int * 2 >= 0x20_0000_0000_0000,
                p >= 2,
        ;
        r * p
    }
}

/// Pushes `"{t / 10}.{t % 10}"`.
fn push_tenths(v: &mut Vec<char>, t: u128)
    requires
        t / 10 <= u64::MAX,
    ensures
        final(v)@ == old(v)@ + tenths_text(t as nat),
{
    let whole = (t / 10) as u64;
    let frac = (t % 10) as u64;
    let d = decimal_chars(whole);
    extend_chars(v, &d);
    v.push('.');
    v.push(digit_of(frac));
}

/// Format a byte count in GB / MB / KB with one decimal, or in bytes.
pub fn format_bytes(bytes: u64) -> (s: String)
    ensures
        s@ == bytes_text(bytes),
{
    let v = f64_value_of(bytes);
    let mut out: Vec<char> = Vec::new();
    if v >= 0x4000_0000 {
        let t = round_even(v * 10, 0x4000_0000);
        push_tenths(&mut out, t);
        out.push(' ');
        out.push('G');
        out.push('B');
    } else if v >= 0x10_0000 {
        let t = round_even(v * 10, 0x10_0000);
        push_tenths(&mut out, t);
        out.push(' ');
        out.push('M');
        out.push('B');
    } else if v >= 0x400 {
        let t = round_even(v * 10, 0x400);
        push_tenths(&mut out, t);
        out.push(' ');
        out.push('K');
        out.push('B');
    } else {
        let d = decimal_chars(bytes);
        extend_chars(&mut out, &d);
        out.push(' ');
        out.push('B');
    }
    assert(out@ =~= bytes_text(bytes));
    string_of(&out)
}

impl ProcessInfo {
    /// Format `memory_rss` as a human-readable string, e.g. `"128.0 MB"`.
    pub fn memory_display(&self) -> (s: String)
        ensures
            s@ == bytes_text(self.memory_rss),
    {
        format_bytes(self.memory_rss)
    }
}

// ─── Display name ─────────────────────────────────────────────────────

/// A bare subcommand word: at most 20 bytes, letters, digits, `-` or `_`,
/// starting with a letter.
pub open spec fn is_subcommand(s: Seq<char>) -> bool {
    &&& utf8_size(s) <= 20
    &&& forall|i: int|
        0 <= i < s.len() ==> unicode_alphanumeric(#[trigger] s[i]) || s[i] == '-' || s[i] == '_'
    &&& s.len() > 0
    &&& unicode_alphabetic(s[0])
}

/// A script file name (`.js`, `.ts`, `.mjs`, `.cjs` or `.sh`).
pub open spec fn is_script(s: Seq<char>) -> bool {
    let n = basename(s);
    has_suffix(n, ".js"@) || has_suffix(n, ".ts"@) || has_suffix(n, ".mjs"@) || has_suffix(
        n,
        ".cjs"@,
    ) || has_suffix(n, ".sh"@)
}

/// A scoped package name such as `@scope/pkg`, at most 40 bytes.
pub open spec fn is_package(s: Seq<char>) -> bool {
    s.len() > 0 && s[0] == '@' && utf8_size(s) <= 40
}

/// The start of an inline JSON or environment blob, where argument
/// collection stops.
pub open spec fn is_blob(s: Seq<char>) -> bool {
    has_prefix(s, "{"@) || has_prefix(s, "\""@) || has_substring(s, "\":"@)
}

/// The basename of the first argument that lies under `node_modules/`.
pub open spec fn modules_tool(args: Seq<Seq<char>>) -> Option<Seq<char>>
    decreases args.len(),
{
    if args.len() == 0 {
        None
    } else if has_substring(args[0], "node_modules/"@) {
        Some(basename(args[0]))
    } else {
        modules_tool(args.drop_first())
    }
}

/// Up to two meaningful arguments (subcommands, scripts or packages, by
/// basename), collected in order until a blob starts; arguments under
/// `node_modules/` are skipped.
pub open spec fn clean_args(args: Seq<Seq<char>>, acc: Seq<Seq<char>>) -> Seq<Seq<char>>
    decreases args.len(),
{
    if args.len() == 0 || acc.len() >= 2 {
        acc
    } else if is_blob(args[0]) {
        acc
    } else if has_substring(args[0], "node_modules/"@) {
        clean_args(args.drop_first(), acc)
    } else {
        let n = basename(args[0]);
        if is_subcommand(n) || is_script(n) || is_package(n) {
            clean_args(args.drop_first(), acc.push(n))
        } else {
            clean_args(args.drop_first(), acc)
        }
    }
}

/// `head` alone, or `head`, a space and the arguments joined by spaces.
pub open spec fn with_args(head: Seq<char>, args: Seq<Seq<char>>) -> Seq<char> {
    if args.len() == 0 {
        head
    } else {
        head + " "@ + join(args, " "@)
    }
}

/// The name shown for a process: for a non-`node` binary its basename and
/// clean arguments; for `node`, the `node_modules` tool it runs, or
/// `"node"` with its clean arguments; else the process name.
pub open spec fn display_name_of(name: Seq<char>, command: Seq<char>) -> Seq<char> {
    let parts = tokens(command);
    if command.len() == 0 || parts.len() == 0 {
        name
    } else {
        let binary = basename(parts[0]);
        let rest = parts.drop_first();
        let clean = clean_args(rest, Seq::empty());
        if binary != "node"@ {
            with_args(binary, clean)
        } else {
            match modules_tool(rest) {
                Some(tool) => with_args(tool, clean),
                None => if clean.len() == 0 {
                    name
                } else {
                    with_args("node"@, clean)
                },
            }
        }
    }
}

fn is_subcommand_exec(s: &Vec<char>) -> (r: bool)
    ensures
        r == is_subcommand(s@),
{
    if !utf8_size_at_most(s, 20) {
        return false;
    }
    let mut i: usize = 0;
    while i < s.len()
        invariant
            i <= s.len(),
            forall|k: int|
                0 <= k < i ==> unicode_alphanumeric(#[trigger] s@[k]) || s@[k] == '-' || s@[k]
                    == '_',
        decreases s.len() - i,
    {
        let c = s[i];
        if !(char_is_alphanumeric(c) || c == '-' || c == '_') {
            return false;
        }
        i += 1;
    }
    s.len() > 0 && char_is_alphabetic(s[0])
}

fn is_script_exec(s: &Vec<char>) -> (r: bool)
    ensures
        r == is_script(s@),
{
    let n = basename_of(s);
    ends_with_chars(&n, &chars_of(".js")) || ends_with_chars(&n, &chars_of(".ts"))
        || ends_with_chars(&n, &chars_of(".mjs")) || ends_with_chars(&n, &chars_of(".cjs"))
        || ends_with_chars(&n, &chars_of(".sh"))
}

fn is_package_exec(s: &Vec<char>) -> (r: bool)
    ensures
        r == is_package(s@),
{
    s.len() > 0 && s[0] == '@' && utf8_size_at_most(s, 40)
}

fn is_blob_exec(s: &Vec<char>) -> (r: bool)
    ensures
        r == is_blob(s@),
{
    starts_with_chars(s, &chars_of("{")) || starts_with_chars(s, &chars_of("\"")) || contains_chars(
        s,
        &chars_of("\":"),
    )
}

pub open spec fn views_of(v: Seq<Vec<char>>) -> Seq<Seq<char>> {
    v.map_values(|w: Vec<char>| w@)
}

/// `head`, then `" "` and `args` joined by spaces when there are any.
fn with_args_exec(head: &Vec<char>, args: &Vec<Vec<char>>) -> (r: Vec<char>)
    ensures
        r@ == with_args(head@, views_of(args@)),
{
    let mut r: Vec<char> = Vec::new();
    extend_chars(&mut r, head);
    if args.len() > 0 {
        let sp = chars_of(" ");
        extend_chars(&mut r, &sp);
        let joined = join_chars(args, &sp);
        extend_chars(&mut r, &joined);
    }
    assert(Seq::<char>::empty() + head@ == head@);
    r
}

impl ProcessInfo {
    /// Derive a display name from the command for better identification.
    pub fn display_name(&self) -> (s: String)
        ensures
            s@ == display_name_of(self.name@, self.command@),
    {
        let command = chars_of(self.command.as_str());
        if command.len() == 0 {
            return copy_text(&self.name);
        }
        let parts = split_whitespace(&command);
        if parts.len() == 0 {
            return copy_text(&self.name);
        }
        let ghost ts = tokens(command@);
        let binary = basename_of(&parts[0]);
        let node_modules = chars_of("node_modules/");

        // Find the node_modules tool, if any.
        let mut tool: Option<Vec<char>> = None;
        let mut i: usize = 1;
        assert(ts.skip(1) == ts.drop_first());
        while i < parts.len() && tool.is_none()
            invariant
                1 <= i <= parts.len(),
                parts@.len() == ts.len(),
                forall|k: int| 0 <= k < parts@.len() ==> #[trigger] parts@[k]@ == ts[k],
                node_modules@ == "node_modules/"@,
                tool is None ==> modules_tool(ts.drop_first()) == modules_tool(ts.skip(i as int)),
                tool matches Some(t) ==> modules_tool(ts.drop_first()) == Some(t@),
            decreases parts.len() - i,
        {
            assert(ts.skip(i as int).drop_first() == ts.skip(i + 1));
            assert(ts.skip(i as int)[0] == ts[i as int]);
            if contains_chars(&parts[i], &node_modules) {
                tool = Some(basename_of(&parts[i]));
            }
            i += 1;
        }
        proof {
            if tool is None {
                assert(ts.skip(i as int).len() == 0);
            }
        }

        // Collect clean args: stop at the first blob.
        let mut clean: Vec<Vec<char>> = Vec::new();
        let mut j: usize = 1;
        assert(ts.skip(1) == ts.drop_first());
        assert(views_of(clean@) =~= Seq::<Seq<char>>::empty());
        let mut stopped = false;
        while j < parts.len() && clean.len() < 2 && !stopped
            invariant
                stopped ==> clean_args(ts.drop_first(), Seq::empty()) == views_of(clean@),
                1 <= j <= parts.len(),
                parts@.len() == ts.len(),
                forall|k: int| 0 <= k < parts@.len() ==> #[trigger] parts@[k]@ == ts[k],
                node_modules@ == "node_modules/"@,
                clean@.len() <= 2,
                !stopped ==> clean_args(ts.drop_first(), Seq::empty()) == clean_args(
                    ts.skip(j as int),
                    views_of(clean@),
                ),
            decreases parts.len() - j,
        {
            let ghost rest = ts.skip(j as int);
            assert(rest.drop_first() == ts.skip(j + 1));
            assert(rest[0] == ts[j as int]);
            let part = &parts[j];
            if is_blob_exec(part) {
                assert(clean_args(rest, views_of(clean@)) == views_of(clean@));
                stopped = true;
            } else if !contains_chars(part, &node_modules) {
                let n = basename_of(part);
                if is_subcommand_exec(&n) || is_script_exec(&n) || is_package_exec(&n) {
                    let ghost before = views_of(clean@);
                    clean.push(n);
                    assert(views_of(clean@) =~= before.push(n@));
                }
            }
            j += 1;
        }
        let ghost cv = views_of(clean@);
        proof {
            assert(cv.len() == clean@.len());
            let args = ts.skip(j as int);
            if stopped {
            } else if j >= parts.len() {
                assert(args.len() == 0);
                assert(clean_args(args, cv) == cv);
            } else {
                assert(cv.len() >= 2);
                assert(clean_args(args, cv) == cv);
            }
        }

        let node = chars_of("node");
        let out: Vec<char>;
        if !same_chars(&binary, &node) {
            out = with_args_exec(&binary, &clean);
        } else {
            match tool {
                Some(t) => {
                    out = with_args_exec(&t, &clean);
                },
                None => {
                    if clean.len() == 0 {
                        return copy_text(&self.name);
                    }
                    out = with_args_exec(&node, &clean);
                },
            }
        }
        string_of(&out)
    }
}

fn copy_text(s: &String) -> (r: String)
    ensures
        r@ == s@,
{
    s.clone()
}

// ─── Laws of the display name ────────────────────────────────────────

/// A basename holds no `/`.
proof fn lemma_basename_no_slash(s: Seq<char>)
    ensures
        forall|i: int| 0 <= i < basename(s).len() ==> basename(s)[i] != '/',
    decreases s.len(),
{
    if s.len() > 0 && s.last() != '/' {
        lemma_basename_no_slash(s.drop_last());
        let b = basename(s.drop_last());
        assert forall|i: int| 0 <= i < b.push(s.last()).len() implies b.push(s.last())[i] != '/' by {
            if i < b.len() {
                assert(b.push(s.last())[i] == b[i]);
            }
        }
    }
}

/// A text without `/` is its own basename.
proof fn lemma_basename_of_plain(t: Seq<char>)
    requires
        forall|i: int| 0 <= i < t.len() ==> t[i] != '/',
    ensures
        basename(t) == t,
    decreases t.len(),
{
    if t.len() > 0 {
        assert forall|i: int| 0 <= i < t.drop_last().len() implies t.drop_last()[i] != '/' by {
            assert(t.drop_last()[i] == t[i]);
        }
        lemma_basename_of_plain(t.drop_last());
        assert(t.drop_last().push(t.last()) =~= t);
    }
}

/// Taking the basename twice gives the basename.
pub proof fn law_basename_idempotent(s: Seq<char>)
    ensures
        basename(basename(s)) == basename(s),
{
    lemma_basename_no_slash(s);
    lemma_basename_of_plain(basename(s));
}

/// A script is a file whose basename ends in `.js`, `.ts`, `.mjs`, `.cjs`
/// or `.sh`: TypeScript sources count as scripts just as JavaScript and
/// shell ones do.
pub proof fn law_script_suffixes(s: Seq<char>)
    ensures
        has_suffix(basename(s), ".js"@) ==> is_script(s),
        has_suffix(basename(s), ".ts"@) ==> is_script(s),
        has_suffix(basename(s), ".mjs"@) ==> is_script(s),
        has_suffix(basename(s), ".cjs"@) ==> is_script(s),
        has_suffix(basename(s), ".sh"@) ==> is_script(s),
{
}

/// A script argument (its basename ending in `.js`, `.ts`, `.mjs`, `.cjs`
/// or `.sh`), not under `node_modules/` and not the start of a blob, is
/// kept by its basename while fewer than two arguments have been kept.
pub proof fn law_script_argument_kept(a: Seq<char>, rest: Seq<Seq<char>>, acc: Seq<Seq<char>>)
    requires
        acc.len() < 2,
        !is_blob(a),
        !has_substring(a, "node_modules/"@),
        has_suffix(basename(a), ".js"@) || has_suffix(basename(a), ".ts"@) || has_suffix(basename(a), ".mjs"@)
            || has_suffix(basename(a), ".cjs"@) || has_suffix(basename(a), ".sh"@),
    ensures
        clean_args(seq![a] + rest, acc) == clean_args(rest, acc.push(basename(a))),
{
    let args = seq![a] + rest;
    assert(args[0] == a);
    assert(args.drop_first() =~= rest);
    law_basename_idempotent(a);
    law_script_suffixes(basename(a));
    assert(is_script(basename(a)));
}

/// The command line of a binary other than `node` with one script argument
/// is shown as the binary's basename, a space and the script's basename:
/// `tsx src/index.ts` is shown as `tsx index.ts`.
pub proof fn law_display_name_shows_script(name: Seq<char>, command: Seq<char>, b: Seq<char>, a: Seq<char>)
    requires
        tokens(command) == seq![b, a],
        basename(b) != "node"@,
        !is_blob(a),
        !has_substring(a, "node_modules/"@),
        has_suffix(basename(a), ".js"@) || has_suffix(basename(a), ".ts"@) || has_suffix(basename(a), ".mjs"@)
            || has_suffix(basename(a), ".cjs"@) || has_suffix(basename(a), ".sh"@),
    ensures
        display_name_of(name, command) == basename(b) + " "@ + basename(a),
{
    let parts = tokens(command);
    if command.len() == 0 {
        assert(tokens(command).len() == 0);
    }
    assert(parts.drop_first() =~= seq![a] + Seq::<Seq<char>>::empty());
    law_script_argument_kept(a, Seq::empty(), Seq::empty());
    let clean = clean_args(parts.drop_first(), Seq::empty());
    assert(clean == Seq::<Seq<char>>::empty().push(basename(a)));
    assert(join(clean, " "@) == basename(a));
}

} // verus!
