//! Network sockets of processes, read from `lsof` and `netstat` output.
//!
//! Addresses are parsed as the standard library reads `SocketAddr`,
//! `Ipv4Addr` and `Ipv6Addr` text: dotted quads of 1–3 digit octets without
//! leading zeros, and IPv6 groups of 1–4 hex digits with at most one `::`
//! and an optional trailing dotted quad.
use vstd::prelude::*;
use std::collections::HashMap;

use crate::text::{
    lines_chars, lines_of, decimal, is_ws, ws_prefix_len, ws_suffix_len, law_decimal_reads_back, same_chars, split_whitespace, string_of, tokens, has_prefix, starts_with_chars,
    parse_u32_chars, parse_u32_spec,
    all_digits, chars_of, digits_value, first_occurrence, is_digit, last_of, parse_u16_chars,
    parse_u16_spec, rfind_char, find_chars, slice_chars, split_chars, split_on, trim_chars, trimmed,
    is_first_occurrence, is_last_of, occurs_at, lemma_split_nonempty, lemma_trim_padding, digit_char,
};

use super::{ProcessInfo, ProcessView};
use super::info::views;
use crate::seqs::{groups_by, lemma_groups_step};

verus! {

broadcast use vstd::std_specs::hash::group_hash_axioms;

/// An IP address: four octets (IPv4) or eight 16-bit groups (IPv6).
#[derive(Debug, Clone, Copy, PartialEq, Eq)]
pub enum IpAddress {
    V4([u8; 4]),
    V6([u16; 8]),
}

/// An IP address as a value.
pub enum IpView {
    V4(Seq<u8>),
    V6(Seq<u16>),
}

impl View for IpAddress {
    type V = IpView;

    open spec fn view(&self) -> IpView {
        match self {
            IpAddress::V4(a) => IpView::V4(a@),
            IpAddress::V6(a) => IpView::V6(a@),
        }
    }
}

/// An IP address and a port.
#[derive(Debug, Clone, Copy, PartialEq, Eq)]
pub struct SocketAddress {
    pub ip: IpAddress,
    pub port: u16,
}

/// A socket address as a value.
pub struct SocketView {
    pub ip: IpView,
    pub port: u16,
}

impl View for SocketAddress {
    type V = SocketView;

    open spec fn view(&self) -> SocketView {
        SocketView { ip: self.ip@, port: self.port }
    }
}

impl SocketAddress {
    /// The port number.
    pub fn port(&self) -> (p: u16)
        ensures
            p == self.port,
    {
        self.port
    }

    /// The IP address.
    pub fn ip(&self) -> (a: IpAddress)
        ensures
            a == self.ip,
    {
        self.ip
    }
}

/// The value of an optional socket address.
pub open spec fn opt_socket(o: Option<SocketAddress>) -> Option<SocketView> {
    match o {
        Some(a) => Some(a@),
        None => None,
    }
}

// ─── The address grammar ─────────────────────────────────────────────

/// One IPv4 octet: 1 to 3 digits, no leading zero, at most 255.
pub open spec fn octet_text(s: Seq<char>) -> bool {
    1 <= s.len() <= 3 && all_digits(s) && !(s.len() > 1 && s[0] == '0') && digits_value(s) <= 255
}

/// The octets written by a dotted quad, or `None`.
pub open spec fn ipv4_text(s: Seq<char>) -> Option<Seq<u8>> {
    let parts = split_on(s, '.');
    if parts.len() == 4 && forall|i: int| 0 <= i < 4 ==> #[trigger] octet_text(parts[i]) {
        Some(parts.map_values(|p: Seq<char>| digits_value(p) as u8))
    } else {
        None
    }
}

/// An ASCII hexadecimal digit.
pub open spec fn is_hex(c: char) -> bool {
    is_digit(c) || ('a' <= c && c <= 'f') || ('A' <= c && c <= 'F')
}

/// The value of a hexadecimal digit.
pub open spec fn hex_digit(c: char) -> nat {
    if is_digit(c) {
        ((c as u32) - ('0' as u32)) as nat
    } else if 'a' <= c && c <= 'f' {
        ((c as u32) - ('a' as u32) + 10) as nat
    } else {
        ((c as u32) - ('A' as u32) + 10) as nat
    }
}

/// The number written by the hexadecimal digits `s`.
pub open spec fn hex_value(s: Seq<char>) -> nat
    decreases s.len(),
{
    if s.len() == 0 {
        0
    } else {
        hex_value(s.drop_last()) * 16 + hex_digit(s.last())
    }
}

/// One IPv6 group: 1 to 4 hexadecimal digits.
pub open spec fn hex_group(s: Seq<char>) -> bool {
    1 <= s.len() <= 4 && forall|i: int| 0 <= i < s.len() ==> is_hex(#[trigger] s[i])
}

/// Every piece is an IPv6 group.
pub open spec fn hex_groups(parts: Seq<Seq<char>>) -> bool {
    forall|i: int| 0 <= i < parts.len() ==> #[trigger] hex_group(parts[i])
}

/// The values of IPv6 groups.
pub open spec fn words_of(parts: Seq<Seq<char>>) -> Seq<u16> {
    parts.map_values(|p: Seq<char>| hex_value(p) as u16)
}

/// The 16-bit words written by `parts`: IPv6 groups, the last of which may
/// instead be a dotted quad (two words).
pub open spec fn group_words(parts: Seq<Seq<char>>) -> Option<Seq<u16>> {
    if hex_groups(parts) {
        Some(words_of(parts))
    } else if parts.len() > 0 && hex_groups(parts.drop_last()) && ipv4_text(parts.last()) is Some {
        let o = ipv4_text(parts.last())->0;
        Some(
            words_of(parts.drop_last()) + seq![
                (o[0] as int * 256 + o[1] as int) as u16,
                (o[2] as int * 256 + o[3] as int) as u16,
            ],
        )
    } else {
        None
    }
}

/// The groups of the text on one side of `::` (none when it is empty).
pub open spec fn side_parts(s: Seq<char>) -> Seq<Seq<char>> {
    if s.len() == 0 {
        Seq::empty()
    } else {
        split_on(s, ':')
    }
}

/// The eight words written by an IPv6 address, or `None`. Without `::`
/// the text is exactly eight words; with it, the words before and after
/// number at most seven and the gap is filled with zeros. A dotted quad may
/// only end the address.
pub open spec fn ipv6_text(s: Seq<char>) -> Option<Seq<u16>> {
    match first_occurrence(s, seq![':', ':']) {
        Some(k) => {
            let hp = side_parts(s.take(k));
            let tp = side_parts(s.skip(k + 2));
            if hex_groups(hp) && group_words(tp) is Some && hp.len() + group_words(tp)->0.len()
                <= 7 {
                let t = group_words(tp)->0;
                Some(words_of(hp) + Seq::new((8 - hp.len() - t.len()) as nat, |i: int| 0u16) + t)
            } else {
                None
            }
        },
        None => match group_words(split_on(s, ':')) {
            Some(w) => if w.len() == 8 {
                Some(w)
            } else {
                None
            },
            None => None,
        },
    }
}

/// The socket address written by `input` (leading and trailing whitespace
/// ignored): `[ipv6]:port`, `*:port` (IPv4 unspecified) or `ipv4:port`.
pub open spec fn socket_text(input: Seq<char>) -> Option<SocketView> {
    let s = trimmed(input);
    if s.len() > 0 && s[0] == '[' {
        match first_occurrence(s, seq![']']) {
            Some(close) => {
                let rest = s.skip(close + 1);
                if rest.len() > 0 && rest[0] == ':' {
                    match (parse_u16_spec(rest.drop_first()), ipv6_text(s.subrange(1, close))) {
                        (Some(port), Some(w)) => Some(SocketView { ip: IpView::V6(w), port }),
                        _ => None,
                    }
                } else {
                    None
                }
            },
            None => None,
        }
    } else if s.len() >= 2 && s[0] == '*' && s[1] == ':' {
        match parse_u16_spec(s.skip(2)) {
            Some(port) => Some(SocketView { ip: IpView::V4(seq![0u8, 0u8, 0u8, 0u8]), port }),
            None => None,
        }
    } else {
        match last_of(s, ':') {
            Some(c) => match (parse_u16_spec(s.skip(c + 1)), ipv4_text(s.take(c))) {
                (Some(port), Some(o)) => Some(SocketView { ip: IpView::V4(o), port }),
                _ => None,
            },
            None => None,
        }
    }
}

// ─── Parsing ─────────────────────────────────────────────────────────

/// The views of a list of character vectors.
pub open spec fn texts(v: Seq<Vec<char>>) -> Seq<Seq<char>> {
    v.map_values(|x: Vec<char>| x@)
}

fn octet_of(p: &Vec<char>) -> (r: Option<u8>)
    ensures
        r == (if octet_text(p@) {
            Some(digits_value(p@) as u8)
        } else {
            None
        }),
{
    if p.len() < 1 || p.len() > 3 {
        return None;
    }
    if p.len() > 1 && p[0] == '0' {
        return None;
    }
    let mut v: u32 = 0;
    let mut i: usize = 0;
    assert(p@.take(0) =~= Seq::<char>::empty());
    while i < p.len()
        invariant
            1 <= p.len() <= 3,
            i <= p.len(),
            all_digits(p@.take(i as int)),
            v == digits_value(p@.take(i as int)),
            v < (if i == 0 {
                1int
            } else if i == 1 {
                10int
            } else if i == 2 {
                100int
            } else {
                1000int
            }),
        decreases p.len() - i,
    {
        let c = p[i];
        if !('0' <= c && c <= '9') {
            assert(!all_digits(p@));
            return None;
        }
        let ghost t = p@.take(i + 1);
        assert(t.drop_last() =~= p@.take(i as int));
        assert(t.last() == c);
        assert forall|j: int| 0 <= j < t.len() implies is_digit(#[trigger] t[j]) by {
            if j < t.len() - 1 {
                assert(t[j] == p@.take(i as int)[j]);
            }
        }
        v = v * 10 + ((c as u32) - ('0' as u32));
        i += 1;
    }
    assert(p@.take(p.len() as int) =~= p@);
    if v > 255 {
        None
    } else {
        Some(v as u8)
    }
}

fn hex_digit_of(c: char) -> (r: Option<u32>)
    ensures
        match r {
            Some(d) => is_hex(c) && d == hex_digit(c) && d < 16,
            None => !is_hex(c),
        },
{
    if '0' <= c && c <= '9' {
        Some((c as u32) - ('0' as u32))
    } else if 'a' <= c && c <= 'f' {
        Some((c as u32) - ('a' as u32) + 10)
    } else if 'A' <= c && c <= 'F' {
        Some((c as u32) - ('A' as u32) + 10)
    } else {
        None
    }
}

fn hex_group_of(p: &Vec<char>) -> (r: Option<u16>)
    ensures
        r == (if hex_group(p@) {
            Some(hex_value(p@) as u16)
        } else {
            None
        }),
{
    if p.len() < 1 || p.len() > 4 {
        return None;
    }
    let mut v: u32 = 0;
    let mut i: usize = 0;
    assert(p@.take(0) =~= Seq::<char>::empty());
    while i < p.len()
        invariant
            1 <= p.len() <= 4,
            i <= p.len(),
            forall|j: int| 0 <= j < i ==> is_hex(#[trigger] p@[j]),
            v == hex_value(p@.take(i as int)),
            v < (if i == 0 {
                1int
            } else if i == 1 {
                16int
            } else if i == 2 {
                256int
            } else if i == 3 {
                4096int
            } else {
                65536int
            }),
        decreases p.len() - i,
    {
        match hex_digit_of(p[i]) {
            Some(d) => {
                let ghost t = p@.take(i + 1);
                assert(t.drop_last() =~= p@.take(i as int));
                assert(t.last() == p@[i as int]);
                v = v * 16 + d;
            },
            None => {
                return None;
            },
        }
        i += 1;
    }
    assert(p@.take(p.len() as int) =~= p@);
    Some(v as u16)
}

/// The words of the first `n` pieces, when all are IPv6 groups.
fn hex_words_prefix(parts: &Vec<Vec<char>>, n: usize) -> (r: Option<Vec<u16>>)
    requires
        n <= parts.len(),
    ensures
        match r {
            Some(w) => hex_groups(texts(parts@).take(n as int)) && w@ == words_of(
                texts(parts@).take(n as int),
            ),
            None => !hex_groups(texts(parts@).take(n as int)),
        },
{
    let ghost pv = texts(parts@);
    let mut w: Vec<u16> = Vec::new();
    let mut i: usize = 0;
    assert(words_of(pv.take(0)) =~= w@);
    while i < n
        invariant
            i <= n <= parts.len(),
            pv == texts(parts@),
            hex_groups(pv.take(i as int)),
            w@ == words_of(pv.take(i as int)),
        decreases n - i,
    {
        assert(pv[i as int] == parts@[i as int]@);
        match hex_group_of(&parts[i]) {
            Some(g) => {
                w.push(g);
                assert(pv.take(i + 1).drop_last() =~= pv.take(i as int));
                assert forall|j: int| 0 <= j < i + 1 implies #[trigger] hex_group(pv.take(i + 1)[j]) by {
                    if j < i {
                        assert(pv.take(i + 1)[j] == pv.take(i as int)[j]);
                    }
                }
                assert(w@ =~= words_of(pv.take(i + 1)));
            },
            None => {
                assert(pv.take(n as int)[i as int] == pv[i as int]);
                return None;
            },
        }
        i += 1;
    }
    Some(w)
}

fn group_words_of(parts: &Vec<Vec<char>>) -> (r: Option<Vec<u16>>)
    ensures
        match r {
            Some(w) => group_words(texts(parts@)) == Some(w@),
            None => group_words(texts(parts@)) is None,
        },
{
    let ghost pv = texts(parts@);
    let n = parts.len();
    assert(pv.take(n as int) =~= pv);
    match hex_words_prefix(parts, n) {
        Some(w) => {
            return Some(w);
        },
        None => {},
    }
    if n == 0 {
        return None;
    }
    assert(pv.take(n - 1) =~= pv.drop_last());
    assert(pv.last() == parts@[n - 1]@);
    match (hex_words_prefix(parts, n - 1), ipv4_of(&parts[n - 1])) {
        (Some(w), Some(o)) => {
            let mut w = w;
            let hi: u32 = (o[0] as u32) * 256 + (o[1] as u32);
            let lo: u32 = (o[2] as u32) * 256 + (o[3] as u32);
            w.push(hi as u16);
            w.push(lo as u16);
            Some(w)
        },
        _ => None,
    }
}

/// The octets of a dotted quad.
fn ipv4_of(s: &Vec<char>) -> (r: Option<[u8; 4]>)
    ensures
        match r {
            Some(a) => ipv4_text(s@) == Some(a@),
            None => ipv4_text(s@) is None,
        },
{
    let parts = split_chars(s, '.');
    let ghost pv = texts(parts@);
    assert(pv == split_on(s@, '.'));
    if parts.len() != 4 {
        return None;
    }
    let a = octet_of(&parts[0]);
    let b = octet_of(&parts[1]);
    let c = octet_of(&parts[2]);
    let d = octet_of(&parts[3]);
    assert(pv[0] == parts@[0]@ && pv[1] == parts@[1]@ && pv[2] == parts@[2]@ && pv[3] == parts@[3]@);
    match (a, b, c, d) {
        (Some(a), Some(b), Some(c), Some(d)) => {
            let arr: [u8; 4] = [a, b, c, d];
            assert forall|i: int| 0 <= i < 4 implies #[trigger] octet_text(pv[i]) by {
                if i == 0 {} else if i == 1 {} else if i == 2 {} else {}
            }
            assert(arr@ =~= pv.map_values(|p: Seq<char>| digits_value(p) as u8));
            Some(arr)
        },
        _ => {
            assert(!(octet_text(pv[0]) && octet_text(pv[1]) && octet_text(pv[2]) && octet_text(pv[3])));
            None
        },
    }
}

/// The pieces of one side of `::`.
fn side_parts_of(s: &Vec<char>) -> (r: Vec<Vec<char>>)
    ensures
        texts(r@) == side_parts(s@),
{
    if s.len() == 0 {
        let r: Vec<Vec<char>> = Vec::new();
        assert(texts(r@) =~= Seq::<Seq<char>>::empty());
        r
    } else {
        split_chars(s, ':')
    }
}

/// The eight words of an IPv6 address.
fn ipv6_of(s: &Vec<char>) -> (r: Option<[u16; 8]>)
    ensures
        match r {
            Some(a) => ipv6_text(s@) == Some(a@),
            None => ipv6_text(s@) is None,
        },
{
    let dc: Vec<char> = vec![':', ':'];
    assert(dc@ =~= seq![':', ':']);
    let words: Vec<u16> = match find_chars(s, &dc) {
        Some(k) => {
            proof {
                assert(exists|i: int| is_first_occurrence(s@, dc@, i));
                let w = choose|i: int| is_first_occurrence(s@, dc@, i);
                assert(w == k);
                assert(is_first_occurrence(s@, dc@, k as int));
                assert(occurs_at(s@, dc@, k as int));
                assert(dc@.len() == 2);
                assert(k + 2 <= s@.len());
            }
            let head = slice_chars(s, 0, k);
            assert(k + 2 <= s.len());
            let k2: usize = k + 2;
            let tail = slice_chars(s, k2, s.len());
            assert(head@ =~= s@.take(k as int));
            assert(tail@ =~= s@.skip(k + 2));
            let hp = side_parts_of(&head);
            let tp = side_parts_of(&tail);
            assert(texts(hp@).take(hp.len() as int) =~= texts(hp@));
            let hw = match hex_words_prefix(&hp, hp.len()) {
                Some(w) => w,
                None => {
                    return None;
                },
            };
            let tw = match group_words_of(&tp) {
                Some(w) => w,
                None => {
                    return None;
                },
            };
            if hw.len() > 7 || tw.len() > 7 - hw.len() {
                return None;
            }
            let gap: usize = 8 - hw.len() - tw.len();
            let mut out = hw;
            let ghost hv = out@;
            let mut i: usize = 0;
            while i < gap
                invariant
                    i <= gap,
                    gap == 8 - hv.len() - tw@.len(),
                    out@ == hv + Seq::new(i as nat, |j: int| 0u16),
                decreases gap - i,
            {
                out.push(0);
                assert(out@ =~= hv + Seq::new((i + 1) as nat, |j: int| 0u16));
                i += 1;
            }
            let mut j: usize = 0;
            let ghost mid = out@;
            while j < tw.len()
                invariant
                    j <= tw.len(),
                    out@ == mid + tw@.take(j as int),
                decreases tw.len() - j,
            {
                out.push(tw[j]);
                assert(tw@.take(j + 1) =~= tw@.take(j as int).push(tw@[j as int]));
                j += 1;
            }
            assert(tw@.take(tw.len() as int) =~= tw@);
            out
        },
        None => {
            let parts = split_chars(s, ':');
            match group_words_of(&parts) {
                Some(w) => {
                    if w.len() != 8 {
                        return None;
                    }
                    w
                },
                None => {
                    return None;
                },
            }
        },
    };
    assert(words@.len() == 8);
    let arr: [u16; 8] = [words[0], words[1], words[2], words[3], words[4], words[5], words[6], words[7]];
    assert(arr@ =~= words@);
    Some(arr)
}

/// Inspects network connections by parsing system command output to map
/// PIDs to their listening ports and TCP connections.
pub struct NetworkInspector;

impl NetworkInspector {
    /// Parse an address such as `*:3000`, `127.0.0.1:5000`, `[::1]:3000` or
    /// `[::]:8080` (surrounding whitespace ignored); `None` when the text is
    /// none of these.
    pub fn parse_addr(s: &str) -> (r: Option<SocketAddress>)
        ensures
            opt_socket(r) == socket_text(s@),
    {
        let raw = chars_of(s);
        socket_of(&raw)
    }
}

/// The socket address written by the characters `raw`.
fn socket_of(raw: &Vec<char>) -> (r: Option<SocketAddress>)
    ensures
        opt_socket(r) == socket_text(raw@),
{
    {
        let t = trim_chars(raw);
        if t.len() > 0 && t[0] == '[' {
            let rb: Vec<char> = vec![']'];
            assert(rb@ =~= seq![']']);
            match find_chars(&t, &rb) {
                Some(close) => {
                    proof {
                        assert(exists|i: int| is_first_occurrence(t@, rb@, i));
                        let w = choose|i: int| is_first_occurrence(t@, rb@, i);
                        assert(w == close);
                        assert(occurs_at(t@, rb@, close as int));
                        assert(t@.subrange(close as int, close + 1)[0] == t@[close as int]);
                    }
                    assert(close >= 1 && close < t.len());
                    let c1: usize = close + 1;
                    let rest = slice_chars(&t, c1, t.len());
                    assert(rest@ =~= t@.skip(close + 1));
                    if rest.len() > 0 && rest[0] == ':' {
                        let port_s = slice_chars(&rest, 1, rest.len());
                        assert(port_s@ =~= rest@.drop_first());
                        let ip_s = slice_chars(&t, 1, close);
                        match (parse_u16_chars(&port_s), ipv6_of(&ip_s)) {
                            (Some(port), Some(a)) => Some(SocketAddress { ip: IpAddress::V6(a), port }),
                            _ => None,
                        }
                    } else {
                        None
                    }
                },
                None => None,
            }
        } else if t.len() >= 2 && t[0] == '*' && t[1] == ':' {
            let port_s = slice_chars(&t, 2, t.len());
            assert(port_s@ =~= t@.skip(2));
            match parse_u16_chars(&port_s) {
                Some(port) => {
                    let a: [u8; 4] = [0, 0, 0, 0];
                    let r = SocketAddress { ip: IpAddress::V4(a), port };
                    assert(a@ =~= seq![0u8, 0u8, 0u8, 0u8]);
                    Some(r)
                },
                None => None,
            }
        } else {
            match rfind_char(&t, ':') {
                Some(c) => {
                    proof {
                        assert(exists|i: int| is_last_of(t@, ':', i));
                        let w = choose|i: int| is_last_of(t@, ':', i);
                        assert(w == c);
                    }
                    let c1: usize = c + 1;
                    let port_s = slice_chars(&t, c1, t.len());
                    let host = slice_chars(&t, 0, c);
                    assert(port_s@ =~= t@.skip(c + 1));
                    assert(host@ =~= t@.take(c as int));
                    match (parse_u16_chars(&port_s), ipv4_of(&host)) {
                        (Some(port), Some(o)) => Some(SocketAddress { ip: IpAddress::V4(o), port }),
                        _ => None,
                    }
                },
                None => None,
            }
        }
    }
}

// ─── Connections ─────────────────────────────────────────────────────

/// A TCP connection of a process.
#[derive(Debug)]
pub struct NetworkConnection {
    pub local_addr: SocketAddress,
    pub remote_addr: Option<SocketAddress>,
    pub state: String,
    pub pid: u32,
}

/// A connection as a value.
pub struct ConnView {
    pub local: SocketView,
    pub remote: Option<SocketView>,
    pub state: Seq<char>,
    pub pid: u32,
}

impl View for NetworkConnection {
    type V = ConnView;

    open spec fn view(&self) -> ConnView {
        ConnView {
            local: self.local_addr@,
            remote: opt_socket(self.remote_addr),
            state: self.state@,
            pid: self.pid,
        }
    }
}

/// The values of a list of connections.
pub open spec fn conn_views(s: Seq<NetworkConnection>) -> Seq<ConnView> {
    s.map_values(|c: NetworkConnection| c@)
}

/// The owning PID of a connection, as a grouping key.
pub open spec fn conn_pid_key() -> spec_fn(ConnView) -> u32 {
    |c: ConnView| c.pid
}

/// A table of connections by PID, as values.
pub open spec fn conn_table(m: Map<u32, Vec<NetworkConnection>>) -> Map<u32, Seq<ConnView>> {
    m.map_values(|v: Vec<NetworkConnection>| conn_views(v@))
}

/// The value of optional text.
pub open spec fn opt_chars(o: Option<Vec<char>>) -> Option<Seq<char>> {
    match o {
        Some(v) => Some(v@),
        None => None,
    }
}

/// The connection described by an `lsof` name field (`local` or
/// `local->remote`), the TCP state (`"UNKNOWN"` when absent) and the PID;
/// `None` when the local address does not parse. A remote address that
/// does not parse is left out.
pub open spec fn connection_text(name: Seq<char>, state: Option<Seq<char>>, pid: u32) -> Option<ConnView> {
    let st = match state {
        Some(x) => x,
        None => "UNKNOWN"@,
    };
    let (l, r) = match first_occurrence(name, seq!['-', '>']) {
        Some(i) => (name.take(i), Some(name.skip(i + 2))),
        None => (name, None),
    };
    match socket_text(l) {
        Some(a) => Some(
            ConnView {
                local: a,
                remote: match r {
                    Some(rt) => socket_text(rt),
                    None => None,
                },
                state: st,
                pid,
            },
        ),
        None => None,
    }
}

/// The value of an optional connection.
pub open spec fn opt_conn(o: Option<NetworkConnection>) -> Option<ConnView> {
    match o {
        Some(c) => Some(c@),
        None => None,
    }
}

fn connection_of(name: &Vec<char>, state: &Option<Vec<char>>, pid: u32) -> (r: Option<NetworkConnection>)
    ensures
        opt_conn(r) == connection_text(name@, opt_chars(*state), pid),
{
    let state_str = match state {
        Some(v) => string_of(v),
        None => String::from_str("UNKNOWN"),
    };
    let arrow: Vec<char> = vec!['-', '>'];
    assert(arrow@ =~= seq!['-', '>']);
    let (local, remote) = match find_chars(name, &arrow) {
        Some(i) => {
            proof {
                assert(exists|k: int| is_first_occurrence(name@, arrow@, k));
                let w = choose|k: int| is_first_occurrence(name@, arrow@, k);
                assert(w == i);
                assert(occurs_at(name@, arrow@, i as int));
            }
            assert(i + 2 <= name.len());
            let i2: usize = i + 2;
            let l = slice_chars(name, 0, i);
            let r = slice_chars(name, i2, name.len());
            assert(l@ =~= name@.take(i as int));
            assert(r@ =~= name@.skip(i + 2));
            (l, Some(r))
        },
        None => (slice_chars(name, 0, name.len()), None),
    };
    assert(name@.subrange(0, name@.len() as int) =~= name@);
    match socket_of(&local) {
        Some(a) => {
            let remote_addr = match &remote {
                Some(rt) => socket_of(rt),
                None => None,
            };
            Some(NetworkConnection { local_addr: a, remote_addr, state: state_str, pid })
        },
        None => None,
    }
}

/// The ports of the connections in the `LISTEN` state, in order.
pub open spec fn listen_ports(s: Seq<ConnView>) -> Seq<u16>
    decreases s.len(),
{
    if s.len() == 0 {
        Seq::empty()
    } else if s.last().state == "LISTEN"@ {
        listen_ports(s.drop_last()).push(s.last().local.port)
    } else {
        listen_ports(s.drop_last())
    }
}

/// Record a connection in the table under its PID.
fn record(table: &mut HashMap<u32, Vec<NetworkConnection>>, conn: NetworkConnection, Ghost(found): Ghost<Seq<ConnView>>)
    requires
        conn_table(old(table)@) == groups_by(found, conn_pid_key()),
    ensures
        conn_table(final(table)@) == groups_by(found.push(conn@), conn_pid_key()),
{
    let ghost all = found.push(conn@);
    proof {
        assert(all.take(found.len() as int) =~= found);
        assert(all.take(found.len() as int + 1) =~= all);
        lemma_groups_step(all, conn_pid_key(), found.len() as int);
    }
    let pid = conn.pid;
    let ghost cv = conn@;
    match table.remove(&pid) {
        Some(mut list) => {
            let ghost l0 = list@;
            list.push(conn);
            assert(conn_views(list@) =~= conn_views(l0).push(cv));
            table.insert(pid, list);
        },
        None => {
            let mut list: Vec<NetworkConnection> = Vec::new();
            list.push(conn);
            assert(conn_views(list@) =~= seq![cv]);
            table.insert(pid, list);
        },
    }
    assert(conn_table(table@) =~= groups_by(all, conn_pid_key()));
}

impl NetworkInspector {
    /// Parse one connection from an `lsof` name field, its TCP state
    /// (`"UNKNOWN"` when absent) and the owning PID.
    pub fn parse_connection(name: &str, state: Option<&str>, pid: u32) -> (r: Option<NetworkConnection>)
        ensures
            opt_conn(r) == connection_text(
                name@,
                match state {
                    Some(s) => Some(s@),
                    None => None,
                },
                pid,
            ),
    {
        let n = chars_of(name);
        let st = match state {
            Some(s) => Some(chars_of(s)),
            None => None,
        };
        connection_of(&n, &st, pid)
    }

    /// The local ports of the connections in the `LISTEN` state.
    pub fn listening_ports(conns: &Vec<NetworkConnection>) -> (r: Vec<u16>)
        ensures
            r@ == listen_ports(conn_views(conns@)),
    {
        let ghost cv = conn_views(conns@);
        let listen = chars_of("LISTEN");
        let mut out: Vec<u16> = Vec::new();
        let mut i: usize = 0;
        assert(cv.take(0) =~= Seq::<ConnView>::empty());
        while i < conns.len()
            invariant
                i <= conns.len(),
                cv == conn_views(conns@),
                listen@ == "LISTEN"@,
                out@ == listen_ports(cv.take(i as int)),
            decreases conns.len() - i,
        {
            let c = &conns[i];
            let st = chars_of(c.state.as_str());
            assert(cv.take(i + 1).drop_last() =~= cv.take(i as int));
            assert(cv.take(i + 1).last() == c@);
            if same_chars(&st, &listen) {
                out.push(c.local_addr.port);
            }
            i += 1;
        }
        assert(cv.take(conns.len() as int) =~= cv);
        out
    }

    /// Replace each process's ports by its listening ports from `net_map`
    /// (connections by PID); a process without any keeps its ports.
    pub fn fill_listening_ports(procs: &mut Vec<ProcessInfo>, net_map: &HashMap<u32, Vec<NetworkConnection>>)
        ensures
            final(procs)@.len() == old(procs)@.len(),
            forall|i: int| 0 <= i < old(procs)@.len() ==> #[trigger] final(procs)@[i]@ == ({
                let p = old(procs)@[i]@;
                if conn_table(net_map@).contains_key(p.pid) && listen_ports(conn_table(net_map@)[p.pid]).len() > 0 {
                    ProcessView { ports: listen_ports(conn_table(net_map@)[p.pid]), ..p }
                } else {
                    p
                }
            }),
    {
        let ghost orig = procs@;
        let mut rest: Vec<ProcessInfo> = Vec::new();
        std::mem::swap(&mut rest, procs);
        let mut out: Vec<ProcessInfo> = Vec::new();
        let ghost n = orig.len();
        while rest.len() > 0
            invariant
                rest.len() <= n,
                n == orig.len(),
                rest@ == orig.skip(n - rest.len()),
                out@.len() == n - rest.len(),
                forall|i: int| 0 <= i < out@.len() ==> #[trigger] out@[i]@ == ({
                    let p = orig[i]@;
                    if conn_table(net_map@).contains_key(p.pid) && listen_ports(conn_table(net_map@)[p.pid]).len() > 0 {
                        ProcessView { ports: listen_ports(conn_table(net_map@)[p.pid]), ..p }
                    } else {
                        p
                    }
                }),
            decreases rest.len(),
        {
            let ghost done = n - rest.len();
            let ghost before = rest@;
            let mut p = rest.remove(0);
            assert(p == orig[done]);
            let ghost p0 = p@;
            match net_map.get(&p.pid) {
                Some(conns) => {
                    assert(conn_table(net_map@)[p.pid] == conn_views(conns@));
                    let ports = NetworkInspector::listening_ports(conns);
                    if ports.len() > 0 {
                        p.ports = ports;
                        assert(p@ == ProcessView { ports: listen_ports(conn_table(net_map@)[p0.pid]), ..p0 });
                    }
                },
                None => {},
            }
            out.push(p);
            assert(rest@ =~= orig.skip(done + 1));
        }
        *procs = out;
    }
}

// ─── `lsof -F pcnT` output ──────────────────────────────────────────

/// Where a scan of `lsof` field output stands: the process and name field
/// being read, the TCP state seen for it, and the connections found.
pub struct LsofScan {
    pub pid: Option<u32>,
    pub name: Option<Seq<char>>,
    pub state: Option<Seq<char>>,
    pub found: Seq<ConnView>,
}

/// The connections found, with the pending name field added when it
/// parses.
pub open spec fn lsof_flush(st: LsofScan) -> Seq<ConnView> {
    match (st.pid, st.name) {
        (Some(p), Some(n)) => match connection_text(n, st.state, p) {
            Some(c) => st.found.push(c),
            None => st.found,
        },
        _ => st.found,
    }
}

/// One line of `lsof` field output: `p<pid>` starts a process, `n<name>` a
/// socket (each ends the pending socket), `TST=<state>` gives its TCP state;
/// empty lines, `c<command>` lines and anything else are skipped.
pub open spec fn lsof_step(st: LsofScan, line: Seq<char>) -> LsofScan {
    if line.len() == 0 {
        st
    } else if line[0] == 'p' {
        LsofScan { pid: parse_u32_spec(line.drop_first()), name: None, state: None, found: lsof_flush(st) }
    } else if line[0] == 'c' {
        st
    } else if line[0] == 'n' {
        LsofScan { pid: st.pid, name: Some(line.drop_first()), state: None, found: lsof_flush(st) }
    } else if has_prefix(line, seq!['T', 'S', 'T', '=']) {
        LsofScan { pid: st.pid, name: st.name, state: Some(line.skip(4)), found: st.found }
    } else {
        st
    }
}

/// The scan after the given lines.
pub open spec fn lsof_scan(lines: Seq<Seq<char>>) -> LsofScan
    decreases lines.len(),
{
    if lines.len() == 0 {
        LsofScan { pid: None, name: None, state: None, found: Seq::empty() }
    } else {
        lsof_step(lsof_scan(lines.drop_last()), lines.last())
    }
}

/// The connections listed in `lsof` field output, in order.
pub open spec fn lsof_connections(text: Seq<char>) -> Seq<ConnView> {
    lsof_flush(lsof_scan(lines_of(text)))
}

/// Record the pending socket, if it parses.
fn lsof_flush_into(
    table: &mut HashMap<u32, Vec<NetworkConnection>>,
    pid: Option<u32>,
    name: &Option<Vec<char>>,
    state: &Option<Vec<char>>,
    Ghost(found): Ghost<Seq<ConnView>>,
)
    requires
        conn_table(old(table)@) == groups_by(found, conn_pid_key()),
    ensures
        conn_table(final(table)@) == groups_by(
            lsof_flush(LsofScan { pid, name: opt_chars(*name), state: opt_chars(*state), found }),
            conn_pid_key(),
        ),
{
    match (pid, name) {
        (Some(p), Some(n)) => match connection_of(n, state, p) {
            Some(c) => {
                record(table, c, Ghost(found));
            },
            None => {},
        },
        _ => {},
    }
}

impl NetworkInspector {
    /// The connections listed in the output of
    /// `lsof -iTCP -sTCP:LISTEN,ESTABLISHED -nP -F pcnT`, by PID.
    pub fn parse_lsof(output: &str) -> (r: HashMap<u32, Vec<NetworkConnection>>)
        ensures
            conn_table(r@) == groups_by(lsof_connections(output@), conn_pid_key()),
    {
        let text = chars_of(output);
        let lines = lines_chars(&text);
        let ghost lv = lines@.map_values(|v: Vec<char>| v@);
        let mut table: HashMap<u32, Vec<NetworkConnection>> = HashMap::new();
        let mut cur_pid: Option<u32> = None;
        let mut cur_name: Option<Vec<char>> = None;
        let mut cur_state: Option<Vec<char>> = None;
        let ghost mut found: Seq<ConnView> = Seq::empty();
        let tst: Vec<char> = vec!['T', 'S', 'T', '='];
        assert(tst@ =~= seq!['T', 'S', 'T', '=']);
        let mut i: usize = 0;
        assert(lv.take(0) =~= Seq::<Seq<char>>::empty());
        assert(conn_table(table@) =~= groups_by(found, conn_pid_key()));
        while i < lines.len()
            invariant
                i <= lines.len(),
                lv == lines@.map_values(|v: Vec<char>| v@),
                tst@ == seq!['T', 'S', 'T', '='],
                lsof_scan(lv.take(i as int)) == (LsofScan {
                    pid: cur_pid,
                    name: opt_chars(cur_name),
                    state: opt_chars(cur_state),
                    found,
                }),
                conn_table(table@) == groups_by(found, conn_pid_key()),
            decreases lines.len() - i,
        {
            let line = &lines[i];
            let ghost st = lsof_scan(lv.take(i as int));
            assert(lv.take(i + 1).drop_last() =~= lv.take(i as int));
            assert(lv.take(i + 1).last() == line@);
            if line.len() == 0 {
            } else if line[0] == 'p' {
                lsof_flush_into(&mut table, cur_pid, &cur_name, &cur_state, Ghost(found));
                proof {
                    found = lsof_flush(st);
                }
                let rest = slice_chars(line, 1, line.len());
                assert(rest@ =~= line@.drop_first());
                cur_pid = parse_u32_chars(&rest);
                cur_name = None;
                cur_state = None;
            } else if line[0] == 'c' {
            } else if line[0] == 'n' {
                lsof_flush_into(&mut table, cur_pid, &cur_name, &cur_state, Ghost(found));
                proof {
                    found = lsof_flush(st);
                }
                let rest = slice_chars(line, 1, line.len());
                assert(rest@ =~= line@.drop_first());
                cur_name = Some(rest);
                cur_state = None;
            } else if starts_with_chars(line, &tst) {
                let rest = slice_chars(line, 4, line.len());
                assert(rest@ =~= line@.skip(4));
                cur_state = Some(rest);
            }
            i += 1;
        }
        assert(lv.take(lines.len() as int) =~= lv);
        lsof_flush_into(&mut table, cur_pid, &cur_name, &cur_state, Ghost(found));
        table
    }
}

// ─── `netstat -ano -p TCP` output ───────────────────────────────────

/// A `netstat` address: `[ipv6]:port` as `parse_addr` reads it, or
/// `host:port` split at the last `:`, where host `0.0.0.0` or `*` is the
/// unspecified IPv4 address and anything else must be a dotted quad.
pub open spec fn netstat_addr_text(input: Seq<char>) -> Option<SocketView> {
    let s = trimmed(input);
    if s.len() > 0 && s[0] == '[' {
        socket_text(s)
    } else {
        match last_of(s, ':') {
            Some(c) => match parse_u16_spec(s.skip(c + 1)) {
                Some(port) => if s.take(c) == seq!['0', '.', '0', '.', '0', '.', '0'] || s.take(c)
                    == seq!['*'] {
                    Some(SocketView { ip: IpView::V4(seq![0u8, 0u8, 0u8, 0u8]), port })
                } else {
                    match ipv4_text(s.take(c)) {
                        Some(o) => Some(SocketView { ip: IpView::V4(o), port }),
                        None => None,
                    }
                },
                None => None,
            },
            None => None,
        }
    }
}

/// The connection on one line of `netstat` output: a trimmed line starting
/// with `TCP` and holding at least five fields (protocol, local address,
/// remote address, state, PID), with a numeric PID and a local address that
/// parses. `LISTENING` is reported as `LISTEN`.
pub open spec fn netstat_line(line: Seq<char>) -> Option<ConnView> {
    let t = trimmed(line);
    let parts = tokens(t);
    if !has_prefix(t, seq!['T', 'C', 'P']) || parts.len() < 5 {
        None
    } else {
        match (parse_u32_spec(parts[4]), netstat_addr_text(parts[1])) {
            (Some(pid), Some(local)) => Some(
                ConnView {
                    local,
                    remote: netstat_addr_text(parts[2]),
                    state: if parts[3] == "LISTENING"@ {
                        "LISTEN"@
                    } else {
                        parts[3]
                    },
                    pid,
                },
            ),
            _ => None,
        }
    }
}

/// The connections on the given `netstat` lines, in order.
pub open spec fn netstat_lines(lines: Seq<Seq<char>>) -> Seq<ConnView>
    decreases lines.len(),
{
    if lines.len() == 0 {
        Seq::empty()
    } else {
        match netstat_line(lines.last()) {
            Some(c) => netstat_lines(lines.drop_last()).push(c),
            None => netstat_lines(lines.drop_last()),
        }
    }
}

fn netstat_addr_of(raw: &Vec<char>) -> (r: Option<SocketAddress>)
    ensures
        opt_socket(r) == netstat_addr_text(raw@),
{
    let s = trim_chars(raw);
    if s.len() > 0 && s[0] == '[' {
        return socket_of(&s);
    }
    match rfind_char(&s, ':') {
        Some(c) => {
            proof {
                assert(exists|i: int| is_last_of(s@, ':', i));
                let w = choose|i: int| is_last_of(s@, ':', i);
                assert(w == c);
            }
            let c1: usize = c + 1;
            let port_s = slice_chars(&s, c1, s.len());
            let host = slice_chars(&s, 0, c);
            assert(port_s@ =~= s@.skip(c + 1));
            assert(host@ =~= s@.take(c as int));
            match parse_u16_chars(&port_s) {
                Some(port) => {
                    let zero: Vec<char> = vec!['0', '.', '0', '.', '0', '.', '0'];
                    let star: Vec<char> = vec!['*'];
                    assert(zero@ =~= seq!['0', '.', '0', '.', '0', '.', '0']);
                    assert(star@ =~= seq!['*']);
                    if same_chars(&host, &zero) || same_chars(&host, &star) {
                        let a: [u8; 4] = [0, 0, 0, 0];
                        assert(a@ =~= seq![0u8, 0u8, 0u8, 0u8]);
                        Some(SocketAddress { ip: IpAddress::V4(a), port })
                    } else {
                        match ipv4_of(&host) {
                            Some(o) => Some(SocketAddress { ip: IpAddress::V4(o), port }),
                            None => None,
                        }
                    }
                },
                None => None,
            }
        },
        None => None,
    }
}

fn netstat_line_of(line: &Vec<char>) -> (r: Option<NetworkConnection>)
    ensures
        opt_conn(r) == netstat_line(line@),
{
    let t = trim_chars(line);
    let tcp: Vec<char> = vec!['T', 'C', 'P'];
    assert(tcp@ =~= seq!['T', 'C', 'P']);
    let parts = split_whitespace(&t);
    if !starts_with_chars(&t, &tcp) || parts.len() < 5 {
        return None;
    }
    let pid = parse_u32_chars(&parts[4]);
    let local = netstat_addr_of(&parts[1]);
    match (pid, local) {
        (Some(pid), Some(local_addr)) => {
            let remote_addr = netstat_addr_of(&parts[2]);
            let listening = chars_of("LISTENING");
            let state = if same_chars(&parts[3], &listening) {
                String::from_str("LISTEN")
            } else {
                string_of(&parts[3])
            };
            Some(NetworkConnection { local_addr, remote_addr, state, pid })
        },
        _ => None,
    }
}

impl NetworkInspector {
    /// Parse a `netstat` address such as `0.0.0.0:3000`, `[::]:3000` or
    /// `127.0.0.1:5000`.
    pub fn parse_netstat_addr(s: &str) -> (r: Option<SocketAddress>)
        ensures
            opt_socket(r) == netstat_addr_text(s@),
    {
        let raw = chars_of(s);
        netstat_addr_of(&raw)
    }

    /// The TCP connections listed in the output of `netstat -ano -p TCP`,
    /// by PID.
    pub fn parse_netstat(output: &str) -> (r: HashMap<u32, Vec<NetworkConnection>>)
        ensures
            conn_table(r@) == groups_by(netstat_lines(lines_of(output@)), conn_pid_key()),
    {
        let text = chars_of(output);
        let lines = lines_chars(&text);
        let ghost lv = lines@.map_values(|v: Vec<char>| v@);
        let mut table: HashMap<u32, Vec<NetworkConnection>> = HashMap::new();
        let mut i: usize = 0;
        assert(lv.take(0) =~= Seq::<Seq<char>>::empty());
        assert(conn_table(table@) =~= groups_by(netstat_lines(lv.take(0)), conn_pid_key()));
        while i < lines.len()
            invariant
                i <= lines.len(),
                lv == lines@.map_values(|v: Vec<char>| v@),
                conn_table(table@) == groups_by(netstat_lines(lv.take(i as int)), conn_pid_key()),
            decreases lines.len() - i,
        {
            assert(lv.take(i + 1).drop_last() =~= lv.take(i as int));
            assert(lv.take(i + 1).last() == lines@[i as int]@);
            match netstat_line_of(&lines[i]) {
                Some(c) => {
                    record(&mut table, c, Ghost(netstat_lines(lv.take(i as int))));
                },
                None => {},
            }
            i += 1;
        }
        assert(lv.take(lines.len() as int) =~= lv);
        table
    }
}

impl NetworkConnection {
    /// A copy of this connection.
    pub fn duplicate(&self) -> (r: NetworkConnection)
        ensures
            r@ == self@,
    {
        NetworkConnection {
            local_addr: self.local_addr,
            remote_addr: self.remote_addr,
            state: self.state.clone(),
            pid: self.pid,
        }
    }
}

/// The connections of `pid` in a table (none when it has no entry).
pub open spec fn conns_of(table: Map<u32, Seq<ConnView>>, pid: u32) -> Seq<ConnView> {
    if table.contains_key(pid) {
        table[pid]
    } else {
        Seq::empty()
    }
}

impl NetworkInspector {
    /// The connections of `pid` in `net_map` (the connections by PID that
    /// one scan found); none when it has no entry.
    pub fn connections_for_pid(pid: u32, net_map: &HashMap<u32, Vec<NetworkConnection>>) -> (r: Vec<NetworkConnection>)
        ensures
            conn_views(r@) == conns_of(conn_table(net_map@), pid),
    {
        let mut out: Vec<NetworkConnection> = Vec::new();
        match net_map.get(&pid) {
            Some(conns) => {
                let mut i: usize = 0;
                while i < conns.len()
                    invariant
                        i <= conns.len(),
                        conn_views(out@) == conn_views(conns@).take(i as int),
                    decreases conns.len() - i,
                {
                    let c = conns[i].duplicate();
                    let ghost prev = out@;
                    out.push(c);
                    assert(conn_views(out@) =~= conn_views(prev).push(c@));
                    assert(conn_views(conns@).take(i + 1) =~= conn_views(conns@).take(i as int).push(conns@[i as int]@));
                    i += 1;
                }
                assert(conn_views(conns@).take(conns.len() as int) =~= conn_views(conns@));
            },
            None => {
                assert(conn_views(out@) =~= Seq::<ConnView>::empty());
            },
        }
        out
    }

    /// The listening ports of `pid` in `net_map`.
    pub fn listening_ports_for_pid(pid: u32, net_map: &HashMap<u32, Vec<NetworkConnection>>) -> (r: Vec<u16>)
        ensures
            r@ == listen_ports(conns_of(conn_table(net_map@), pid)),
    {
        let conns = Self::connections_for_pid(pid, net_map);
        Self::listening_ports(&conns)
    }
}

} // verus!

verus! {

/// Every port written as `*:<port>` reads back as that port on the
/// unspecified IPv4 address.
pub proof fn law_wildcard_reads_back(port: u16)
    ensures
        socket_text(seq!['*', ':'] + decimal(port as nat)) == Some(SocketView { ip: IpView::V4(seq![0u8, 0u8, 0u8, 0u8]), port }),
{
    let s = seq!['*', ':'] + decimal(port as nat);
    law_decimal_reads_back(port as nat);
    let d = decimal(port as nat);
    assert(s.last() == d.last());
    assert(is_digit(d[d.len() - 1]));
    assert(!is_ws(s[0]));
    assert(!is_ws(s.last()));
    assert(ws_prefix_len(s) == 0);
    assert(ws_suffix_len(s) == 0);
    assert(trimmed(s) =~= s);
    assert(s.skip(2) =~= d);
}

/// The dotted-quad text of four octets, each in decimal, as std's
/// `Ipv4Addr` displays them.
pub open spec fn ipv4_display(o: Seq<u8>) -> Seq<char> {
    decimal(o[0] as nat) + seq!['.'] + decimal(o[1] as nat) + seq!['.'] + decimal(o[2] as nat) + seq!['.']
        + decimal(o[3] as nat)
}

/// The text of an IPv4 socket address, as std's `SocketAddrV4` displays
/// it: the dotted quad, `:` and the port in decimal.
pub open spec fn socket_v4_display(o: Seq<u8>, port: u16) -> Seq<char> {
    ipv4_display(o) + seq![':'] + decimal(port as nat)
}

/// Appending text free of `c` extends the last piece of a split on `c`.
proof fn lemma_split_extend(q: Seq<char>, d: Seq<char>, c: char)
    requires
        forall|i: int| 0 <= i < d.len() ==> d[i] != c,
    ensures
        split_on(q + d, c) == split_on(q, c).update(split_on(q, c).len() - 1, split_on(q, c).last() + d),
    decreases d.len(),
{
    lemma_split_nonempty(q, c);
    if d.len() == 0 {
        assert(q + d =~= q);
        assert(split_on(q, c).last() + d =~= split_on(q, c).last());
        assert(split_on(q, c).update(split_on(q, c).len() - 1, split_on(q, c).last()) =~= split_on(q, c));
    } else {
        let e = d.drop_last();
        lemma_split_extend(q, e, c);
        assert((q + d).drop_last() =~= q + e);
        assert((q + d).last() == d.last());
        let p = split_on(q, c);
        let pe = split_on(q + e, c);
        assert(pe.last() == p.last() + e);
        assert(d.last() != c);
        assert((p.last() + e).push(d.last()) =~= p.last() + d);
        assert(pe.len() == p.len());
        assert(pe.update(pe.len() - 1, pe.last().push(d.last())) =~= p.update(p.len() - 1, p.last() + d));
    }
}

/// A separator at the end starts a new, empty piece.
proof fn lemma_split_sep(q: Seq<char>, c: char)
    ensures
        split_on(q + seq![c], c) == split_on(q, c).push(Seq::empty()),
{
    assert((q + seq![c]).drop_last() =~= q);
}

/// Decimal text holds only digits and starts with a non-zero digit unless
/// it is `0`; below 1000 it is at most three digits long.
proof fn lemma_decimal_shape(n: nat)
    ensures
        decimal(n).len() >= 1,
        n >= 1 ==> decimal(n)[0] != '0',
        n < 10 ==> decimal(n).len() == 1,
        n < 100 ==> decimal(n).len() <= 2,
        n < 1000 ==> decimal(n).len() <= 3,
    decreases n,
{
    if n >= 10 {
        lemma_decimal_shape(n / 10);
        assert(decimal(n)[0] == decimal(n / 10)[0]);
    }
}

/// The decimal text of an octet is an octet of the grammar.
proof fn lemma_octet_display(n: u8)
    ensures
        octet_text(decimal(n as nat)),
        digits_value(decimal(n as nat)) as u8 == n,
        forall|i: int| 0 <= i < decimal(n as nat).len() ==> is_digit(#[trigger] decimal(n as nat)[i]),
{
    lemma_decimal_shape(n as nat);
    law_decimal_reads_back(n as nat);
}

/// A dotted quad written out reads back as its octets.
proof fn lemma_ipv4_display(o: Seq<u8>)
    requires
        o.len() == 4,
    ensures
        ipv4_text(ipv4_display(o)) == Some(o),
{
    let d0 = decimal(o[0] as nat);
    let d1 = decimal(o[1] as nat);
    let d2 = decimal(o[2] as nat);
    let d3 = decimal(o[3] as nat);
    lemma_octet_display(o[0]);
    lemma_octet_display(o[1]);
    lemma_octet_display(o[2]);
    lemma_octet_display(o[3]);
    let e = Seq::<char>::empty();
    let dot = seq!['.'];
    lemma_split_extend(e, d0, '.');
    assert(e + d0 =~= d0);
    assert(split_on(e, '.') =~= seq![e]);
    assert(split_on(d0, '.') =~= seq![d0]);
    lemma_split_sep(d0, '.');
    let q1 = d0 + dot;
    lemma_split_extend(q1, d1, '.');
    assert(split_on(q1 + d1, '.') =~= seq![d0, d1]);
    lemma_split_sep(q1 + d1, '.');
    let q2 = q1 + d1 + dot;
    lemma_split_extend(q2, d2, '.');
    assert(split_on(q2 + d2, '.') =~= seq![d0, d1, d2]);
    lemma_split_sep(q2 + d2, '.');
    let q3 = q2 + d2 + dot;
    lemma_split_extend(q3, d3, '.');
    assert(q3 + d3 =~= ipv4_display(o));
    let parts = split_on(ipv4_display(o), '.');
    assert(parts =~= seq![d0, d1, d2, d3]);
    assert(forall|i: int| 0 <= i < 4 ==> #[trigger] octet_text(parts[i]));
    assert(parts.map_values(|p: Seq<char>| digits_value(p) as u8) =~= o);
}

/// An IPv4 socket address written out as std displays it reads back as
/// that address, also with whitespace around it.
pub proof fn law_ipv4_socket_reads_back(o: Seq<u8>, port: u16, a: Seq<char>, b: Seq<char>)
    requires
        o.len() == 4,
        forall|j: int| 0 <= j < a.len() ==> is_ws(#[trigger] a[j]),
        forall|j: int| 0 <= j < b.len() ==> is_ws(#[trigger] b[j]),
    ensures
        socket_text(socket_v4_display(o, port)) == Some(SocketView { ip: IpView::V4(o), port }),
        socket_text(a + socket_v4_display(o, port) + b) == Some(SocketView { ip: IpView::V4(o), port }),
{
    let v = ipv4_display(o);
    let p = decimal(port as nat);
    let s = socket_v4_display(o, port);
    lemma_octet_display(o[0]);
    lemma_octet_display(o[3]);
    law_decimal_reads_back(port as nat);
    lemma_ipv4_display(o);
    let c = v.len() as int;
    assert(s[0] == decimal(o[0] as nat)[0]);
    assert(is_digit(s[0]));
    assert(s.last() == p.last());
    assert(is_digit(p[p.len() - 1]));
    assert(!is_ws(s[0]));
    assert(!is_ws(s.last()));
    assert(ws_prefix_len(s) == 0);
    assert(ws_suffix_len(s) == 0);
    assert(trimmed(s) =~= s);
    assert(s[c] == ':');
    assert forall|j: int| c < j < s.len() implies s[j] != ':' by {
        assert(s[j] == p[j - c - 1]);
    }
    assert(is_last_of(s, ':', c));
    let k = choose|i: int| is_last_of(s, ':', i);
    assert(is_last_of(s, ':', k));
    assert(k == c);
    assert(last_of(s, ':') == Some(c));
    assert(s.skip(c + 1) =~= p);
    assert(s.take(c) =~= v);
    lemma_trim_padding(a, s, b);
}

// ─── IPv6 text as std displays it ────────────────────────────────────

/// The lowercase hexadecimal digit for `d < 16`.
pub open spec fn hex_char(d: nat) -> char {
    if d < 10 {
        digit_char(d)
    } else if d == 10 {
        'a'
    } else if d == 11 {
        'b'
    } else if d == 12 {
        'c'
    } else if d == 13 {
        'd'
    } else if d == 14 {
        'e'
    } else {
        'f'
    }
}

/// Lowercase hexadecimal text of `n` without leading zeros (`{:x}`).
pub open spec fn hex_text(n: nat) -> Seq<char>
    decreases n,
{
    if n < 16 {
        seq![hex_char(n)]
    } else {
        hex_text(n / 16).push(hex_char(n % 16))
    }
}

/// Groups in hexadecimal joined by `:`.
pub open spec fn groups_text(ws: Seq<u16>) -> Seq<char>
    decreases ws.len(),
{
    if ws.len() == 0 {
        Seq::empty()
    } else if ws.len() == 1 {
        hex_text(ws[0] as nat)
    } else {
        groups_text(ws.drop_last()) + seq![':'] + hex_text(ws.last() as nat)
    }
}

proof fn lemma_hex_char(d: nat)
    requires
        d < 16,
    ensures
        is_hex(hex_char(d)),
        hex_digit(hex_char(d)) == d,
{
    if d < 10 {
        assert(is_digit(digit_char(d)));
    }
}

/// Hexadecimal text reads back as its number; a 16-bit number takes one to
/// four digits.
proof fn lemma_hex_text(n: nat)
    ensures
        1 <= hex_text(n).len(),
        n < 65536 ==> hex_text(n).len() <= 4,
        n < 4096 ==> hex_text(n).len() <= 3,
        n < 256 ==> hex_text(n).len() <= 2,
        forall|i: int| 0 <= i < hex_text(n).len() ==> is_hex(#[trigger] hex_text(n)[i]),
        hex_value(hex_text(n)) == n,
    decreases n,
{
    lemma_hex_char(n % 16);
    if n < 16 {
        let t = hex_text(n);
        assert(t.drop_last() =~= Seq::<char>::empty());
        assert(hex_value(t) == hex_value(t.drop_last()) * 16 + hex_digit(t.last()));
        assert(hex_value(Seq::<char>::empty()) == 0);
    } else {
        lemma_hex_text(n / 16);
        let s = hex_text(n / 16);
        let t = s.push(hex_char(n % 16));
        assert(t.drop_last() =~= s);
        assert forall|i: int| 0 <= i < t.len() implies is_hex(#[trigger] t[i]) by {
            if i < s.len() {
                assert(t[i] == s[i]);
            }
        }
        assert(hex_value(t) == hex_value(s) * 16 + hex_digit(t.last()));
        assert(n == (n / 16) * 16 + n % 16);
    }
}

/// A 16-bit group's text is an IPv6 group worth that group.
proof fn lemma_group_text(w: u16)
    ensures
        hex_group(hex_text(w as nat)),
        hex_value(hex_text(w as nat)) as u16 == w,
{
    lemma_hex_text(w as nat);
}

/// No two `:` stand side by side.
pub open spec fn no_double_colon(s: Seq<char>) -> bool {
    forall|j: int| 0 <= j < s.len() - 1 ==> !(#[trigger] s[j] == ':' && s[j + 1] == ':')
}

/// Groups written out split back into their texts, and the text is made of
/// hexadecimal digits and single `:` between them.
proof fn lemma_groups_text(ws: Seq<u16>)
    requires
        ws.len() >= 1,
    ensures
        split_on(groups_text(ws), ':') == ws.map_values(|w: u16| hex_text(w as nat)),
        forall|i: int| 0 <= i < groups_text(ws).len() ==> is_hex(#[trigger] groups_text(ws)[i]) || groups_text(ws)[i] == ':',
        no_double_colon(groups_text(ws)),
        groups_text(ws).len() >= 1,
        is_hex(groups_text(ws)[0]),
        is_hex(groups_text(ws).last()),
    decreases ws.len(),
{
    let g = groups_text(ws);
    let h = hex_text(ws.last() as nat);
    lemma_hex_text(ws.last() as nat);
    assert forall|i: int| 0 <= i < h.len() implies h[i] != ':' by {
        assert(is_hex(h[i]));
    }
    if ws.len() == 1 {
        let e = Seq::<char>::empty();
        lemma_split_extend(e, h, ':');
        assert(e + h =~= h);
        assert(split_on(e, ':') =~= seq![e]);
        assert(ws.last() == ws[0]);
        assert(ws.map_values(|w: u16| hex_text(w as nat)) =~= seq![h]);
        assert(split_on(h, ':') =~= seq![h]);
    } else {
        let d = ws.drop_last();
        lemma_groups_text(d);
        let gd = groups_text(d);
        lemma_split_sep(gd, ':');
        lemma_split_extend(gd + seq![':'], h, ':');
        assert(g == gd + seq![':'] + h);
        assert(ws.map_values(|w: u16| hex_text(w as nat)) =~= d.map_values(|w: u16| hex_text(w as nat)).push(h));
        assert(split_on(g, ':') =~= d.map_values(|w: u16| hex_text(w as nat)).push(h));
        assert forall|i: int| 0 <= i < g.len() implies is_hex(#[trigger] g[i]) || g[i] == ':' by {
            if i < gd.len() {
                assert(g[i] == gd[i]);
            } else if i > gd.len() {
                assert(g[i] == h[i - gd.len() - 1]);
            }
        }
        assert forall|j: int| 0 <= j < g.len() - 1 implies !(#[trigger] g[j] == ':' && g[j + 1] == ':') by {
            if j < gd.len() - 1 {
                assert(g[j] == gd[j] && g[j + 1] == gd[j + 1]);
            } else if j == gd.len() - 1 {
                assert(g[j] == gd.last());
            } else if j == gd.len() {
                assert(g[j + 1] == h[0]);
            } else {
                assert(g[j] == h[j - gd.len() - 1]);
            }
        }
        assert(g[0] == gd[0]);
        assert(g.last() == h.last());
    }
}

/// The texts of groups are IPv6 groups worth those groups.
proof fn lemma_groups_words(ws: Seq<u16>)
    ensures
        hex_groups(ws.map_values(|w: u16| hex_text(w as nat))),
        words_of(ws.map_values(|w: u16| hex_text(w as nat))) == ws,
{
    let parts = ws.map_values(|w: u16| hex_text(w as nat));
    assert forall|i: int| 0 <= i < parts.len() implies #[trigger] hex_group(parts[i]) by {
        lemma_group_text(ws[i]);
    }
    assert forall|i: int| 0 <= i < ws.len() implies #[trigger] words_of(parts)[i] == ws[i] by {
        lemma_group_text(ws[i]);
    }
    assert(words_of(parts) =~= ws);
}

/// Scanning the first `n` groups for runs of zeros, as std's display does:
/// `(start, len)` of the longest run so far (the first of equal ones), then
/// `(start, len)` of the run that ends at `n`.
pub open spec fn zero_scan(ws: Seq<u16>, n: nat) -> (int, int, int, int)
    decreases n,
{
    if n == 0 {
        (0, 0, 0, 0)
    } else {
        let (ls, ll, cs, cl) = zero_scan(ws, (n - 1) as nat);
        if ws[n - 1] == 0 {
            let cs2 = if cl == 0 { n - 1 } else { cs };
            if cl + 1 > ll {
                (cs2, cl + 1, cs2, cl + 1)
            } else {
                (ls, ll, cs2, cl + 1)
            }
        } else {
            (ls, ll, 0, 0)
        }
    }
}

/// The longest run of zero groups, the first of equal ones: `(start, len)`.
pub open spec fn zero_run(ws: Seq<u16>) -> (int, int) {
    let z = zero_scan(ws, ws.len());
    (z.0, z.1)
}

/// The runs found by the scan lie within the groups and hold only zeros.
proof fn lemma_zero_scan(ws: Seq<u16>, n: nat)
    requires
        n <= ws.len(),
    ensures
        0 <= zero_scan(ws, n).0,
        0 <= zero_scan(ws, n).1,
        zero_scan(ws, n).0 + zero_scan(ws, n).1 <= n,
        forall|i: int| zero_scan(ws, n).0 <= i < zero_scan(ws, n).0 + zero_scan(ws, n).1 ==> ws[i] == 0,
        0 <= zero_scan(ws, n).3,
        zero_scan(ws, n).3 > 0 ==> zero_scan(ws, n).2 + zero_scan(ws, n).3 == n && 0 <= zero_scan(ws, n).2,
        forall|i: int| zero_scan(ws, n).2 <= i < zero_scan(ws, n).2 + zero_scan(ws, n).3 ==> ws[i] == 0,
    decreases n,
{
    if n > 0 {
        lemma_zero_scan(ws, (n - 1) as nat);
    }
}

/// The eight groups of an IPv6 address as std's `Ipv6Addr` displays them:
/// an IPv4-mapped address as `::ffff:` and the dotted quad; otherwise the
/// groups in lowercase hexadecimal joined by `:`, the longest run of two or
/// more zero groups (the first of equal ones) written as `::`.
#[verifier::opaque]
pub open spec fn ipv6_display(ws: Seq<u16>) -> Seq<char> {
    if ws[0] == 0 && ws[1] == 0 && ws[2] == 0 && ws[3] == 0 && ws[4] == 0 && ws[5] == 0xffff {
        mapped_display(ws)
    } else {
        let z = zero_run(ws);
        if z.1 > 1 {
            groups_text(ws.take(z.0)) + seq![':', ':'] + groups_text(ws.skip(z.0 + z.1))
        } else {
            groups_text(ws)
        }
    }
}

/// An IPv4-mapped address as std displays it: `::ffff:` and the dotted
/// quad of the last two groups.
pub open spec fn mapped_display(ws: Seq<u16>) -> Seq<char> {
    seq![':', ':', 'f', 'f', 'f', 'f', ':'] + ipv4_display(mapped_octets(ws))
}

/// The text of an IPv6 socket address (no flow label, no scope), as std's
/// `SocketAddrV6` displays it: `[address]:port`.
pub open spec fn socket_v6_display(ws: Seq<u16>, port: u16) -> Seq<char> {
    seq!['['] + ipv6_display(ws) + seq![']', ':'] + decimal(port as nat)
}

/// Where the first occurrence is, when it is known to be there.
proof fn lemma_first_at(hay: Seq<char>, needle: Seq<char>, k: int)
    requires
        is_first_occurrence(hay, needle, k),
    ensures
        first_occurrence(hay, needle) == Some(k),
{
    let c = choose|i: int| is_first_occurrence(hay, needle, i);
    assert(is_first_occurrence(hay, needle, c));
    assert(c == k);
}

/// Text with no `::` has no first occurrence of it.
proof fn lemma_no_double_colon(s: Seq<char>)
    requires
        no_double_colon(s),
    ensures
        first_occurrence(s, seq![':', ':']) is None,
{
    assert forall|j: int| !occurs_at(s, seq![':', ':'], j) by {
        if occurs_at(s, seq![':', ':'], j) {
            assert(s.subrange(j, j + 2)[0] == s[j]);
            assert(s.subrange(j, j + 2)[1] == s[j + 1]);
        }
    }
}

/// The parts on one side of `::` are the texts of the groups there.
proof fn lemma_side_parts(ws: Seq<u16>)
    ensures
        side_parts(groups_text(ws)) == ws.map_values(|w: u16| hex_text(w as nat)),
{
    if ws.len() == 0 {
        assert(ws.map_values(|w: u16| hex_text(w as nat)) =~= Seq::<Seq<char>>::empty());
    } else {
        lemma_groups_text(ws);
    }
}

/// The dotted quad holds only digits and dots, a dot right after the first
/// octet.
proof fn lemma_ipv4_display_chars(o: Seq<u8>)
    requires
        o.len() == 4,
    ensures
        forall|j: int| 0 <= j < ipv4_display(o).len() ==> (is_digit(#[trigger] ipv4_display(o)[j]) || ipv4_display(o)[j] == '.'),
        ipv4_display(o)[decimal(o[0] as nat).len() as int] == '.',
{
    let v = ipv4_display(o);
    lemma_octet_display(o[0]);
    lemma_octet_display(o[1]);
    lemma_octet_display(o[2]);
    lemma_octet_display(o[3]);
    let d0 = decimal(o[0] as nat);
    let d1 = decimal(o[1] as nat);
    let d2 = decimal(o[2] as nat);
    let d3 = decimal(o[3] as nat);
    assert forall|j: int| 0 <= j < v.len() implies (is_digit(#[trigger] v[j]) || v[j] == '.') by {
        let a = d0.len() as int;
        let b = a + 1 + d1.len();
        let c = b + 1 + d2.len();
        if j < a {
            assert(v[j] == d0[j]);
        } else if a < j < b {
            assert(v[j] == d1[j - a - 1]);
        } else if b < j < c {
            assert(v[j] == d2[j - b - 1]);
        } else if c < j {
            assert(v[j] == d3[j - c - 1]);
        }
    }
}

/// The octets of the last two groups, as the mapped form writes them.
pub open spec fn mapped_octets(ws: Seq<u16>) -> Seq<u8> {
    seq![(ws[6] / 256) as u8, (ws[6] % 256) as u8, (ws[7] / 256) as u8, (ws[7] % 256) as u8]
}

/// Two colon-free texts joined by one `:` split back into the two.
proof fn lemma_split_two(f: Seq<char>, v: Seq<char>)
    requires
        forall|j: int| 0 <= j < f.len() ==> f[j] != ':',
        forall|j: int| 0 <= j < v.len() ==> v[j] != ':',
    ensures
        split_on(f + seq![':'] + v, ':') == seq![f, v],
{
    let e = Seq::<char>::empty();
    lemma_split_extend(e, f, ':');
    assert(e + f =~= f);
    assert(split_on(e, ':') =~= seq![e]);
    assert(split_on(f, ':') =~= seq![f]);
    lemma_split_sep(f, ':');
    lemma_split_extend(f + seq![':'], v, ':');
    assert(split_on(f + seq![':'] + v, ':') =~= seq![f, v]);
}

/// The text after `::` in the mapped form splits into `ffff` and the
/// dotted quad.
#[verifier::spinoff_prover]
proof fn lemma_mapped_parts(ws: Seq<u16>)
    requires
        ws.len() == 8,
    ensures
        first_occurrence(mapped_display(ws), seq![':', ':']) == Some(0int),
        mapped_display(ws).take(0) == Seq::<char>::empty(),
        side_parts(mapped_display(ws).skip(2)) == seq![seq!['f', 'f', 'f', 'f'], ipv4_display(mapped_octets(ws))],
{
    let dc = seq![':', ':'];
    let o = mapped_octets(ws);
    let f = seq!['f', 'f', 'f', 'f'];
    let v = ipv4_display(o);
    let text = mapped_display(ws);
    assert(text =~= seq![':', ':'] + f + seq![':'] + v);
    assert(text.subrange(0, 2) =~= dc);
    lemma_first_at(text, dc, 0);
    assert(text.take(0) =~= Seq::<char>::empty());
    assert(text.skip(2) =~= f + seq![':'] + v);
    lemma_ipv4_display_chars(o);
    assert forall|j: int| 0 <= j < v.len() implies v[j] != ':' by {
        assert(is_digit(v[j]) || v[j] == '.');
    }
    lemma_split_two(f, v);
    assert(v.len() > 0) by {
        lemma_octet_display(o[0]);
    }
}

/// `ffff` and the dotted quad are the last three groups.
proof fn lemma_mapped_words(ws: Seq<u16>)
    requires
        ws.len() == 8,
    ensures
        group_words(seq![seq!['f', 'f', 'f', 'f'], ipv4_display(mapped_octets(ws))]) == Some(seq![0xffffu16, ws[6], ws[7]]),
{
    let o = mapped_octets(ws);
    let f = seq!['f', 'f', 'f', 'f'];
    let v = ipv4_display(o);
    let tp = seq![f, v];
    lemma_ipv4_display(o);
    lemma_ipv4_display_chars(o);
    lemma_octet_display(o[0]);
    let d0 = decimal(o[0] as nat);
    assert(v[d0.len() as int] == '.');
    assert(!is_hex('.'));
    assert(!hex_group(v));
    assert(!hex_group(tp[1]));
    assert(!hex_groups(tp));
    assert(tp.drop_last() =~= seq![f]);
    assert(hex_group(f));
    assert(hex_groups(tp.drop_last()));
    assert(hex_value(seq!['f']) == 15) by {
        lemma_hex_char(15);
        assert(hex_char(15) == 'f');
        assert(hex_digit('f') == 15);
        assert(seq!['f'].drop_last() =~= Seq::<char>::empty());
        assert(seq!['f'].last() == 'f');
        assert(hex_value(Seq::<char>::empty()) == 0);
        assert(hex_value(seq!['f']) == hex_value(seq!['f'].drop_last()) * 16 + hex_digit(seq!['f'].last()));
    }
    assert(hex_value(seq!['f', 'f']) == 255) by {
        assert(seq!['f', 'f'].drop_last() =~= seq!['f']);
    }
    assert(hex_value(seq!['f', 'f', 'f']) == 4095) by {
        assert(seq!['f', 'f', 'f'].drop_last() =~= seq!['f', 'f']);
    }
    assert(hex_value(f) == 65535) by {
        assert(f.drop_last() =~= seq!['f', 'f', 'f']);
    }
    assert(words_of(tp.drop_last()) =~= seq![0xffffu16]);
    assert(tp.last() == v);
    assert(ipv4_text(tp.last()) == Some(o));
    assert(ws[6] == (ws[6] / 256) * 256 + ws[6] % 256);
    assert(ws[7] == (ws[7] / 256) * 256 + ws[7] % 256);
    assert(group_words(tp)->0 =~= seq![0xffffu16, ws[6], ws[7]]);
}

/// The IPv4-mapped form reads back.
proof fn lemma_ipv6_mapped(ws: Seq<u16>)
    requires
        ws.len() == 8,
        ws[0] == 0 && ws[1] == 0 && ws[2] == 0 && ws[3] == 0 && ws[4] == 0 && ws[5] == 0xffff,
    ensures
        ipv6_text(mapped_display(ws)) == Some(ws),
        forall|i: int| 0 <= i < mapped_display(ws).len() ==> (is_hex(#[trigger] mapped_display(ws)[i]) || mapped_display(ws)[i] == ':' || mapped_display(ws)[i] == '.'),
{
    let text = mapped_display(ws);
    lemma_mapped_parts(ws);
    lemma_mapped_words(ws);
    let t = seq![0xffffu16, ws[6], ws[7]];
    let hp = side_parts(Seq::<char>::empty());
    assert(hp =~= Seq::<Seq<char>>::empty());
    assert(hex_groups(hp));
    assert(words_of(hp) =~= Seq::<u16>::empty());
    assert(words_of(hp) + Seq::new(5, |i: int| 0u16) + t =~= ws);
    let v = ipv4_display(mapped_octets(ws));
    lemma_ipv4_display_chars(mapped_octets(ws));
    assert(text =~= seq![':', ':', 'f', 'f', 'f', 'f', ':'] + v);
    assert forall|i: int| 0 <= i < text.len() implies (is_hex(#[trigger] text[i]) || text[i] == ':' || text[i] == '.') by {
        if i >= 7 {
            assert(text[i] == v[i - 7]);
        }
    }
}

/// The form with a run of zero groups written as `::` reads back.
#[verifier::spinoff_prover]
#[verifier::rlimit(40)]
proof fn lemma_ipv6_compressed(ws: Seq<u16>)
    requires
        ws.len() == 8,
        !(ws[0] == 0 && ws[1] == 0 && ws[2] == 0 && ws[3] == 0 && ws[4] == 0 && ws[5] == 0xffff),
        zero_run(ws).1 > 1,
    ensures
        ipv6_text(ipv6_display(ws)) == Some(ws),
        forall|i: int| 0 <= i < ipv6_display(ws).len() ==> (is_hex(#[trigger] ipv6_display(ws)[i]) || ipv6_display(ws)[i] == ':' || ipv6_display(ws)[i] == '.'),
{
    reveal(ipv6_display);
    let dc = seq![':', ':'];
    let z = zero_run(ws);
    lemma_zero_scan(ws, 8);
    let s0 = z.0;
    let l = z.1;
    let hw = ws.take(s0);
    let tw = ws.skip(s0 + l);
    let a = groups_text(hw);
    let b = groups_text(tw);
    let text = a + dc + b;
    assert(text == ipv6_display(ws));
    let k = a.len() as int;
    assert(text.subrange(k, k + 2) =~= dc);
    if hw.len() > 0 {
        lemma_groups_text(hw);
    }
    if tw.len() > 0 {
        lemma_groups_text(tw);
    }
    assert forall|j: int| 0 <= j < k implies !occurs_at(text, dc, j) by {
        if occurs_at(text, dc, j) {
            assert(text.subrange(j, j + 2)[0] == text[j]);
            assert(text.subrange(j, j + 2)[1] == text[j + 1]);
            assert(text[j] == a[j]);
            if j < k - 1 {
                assert(text[j + 1] == a[j + 1]);
            } else {
                assert(a[j] == a.last());
            }
        }
    }
    lemma_first_at(text, dc, k);
    assert(text.take(k) =~= a);
    assert(text.skip(k + 2) =~= b);
    lemma_side_parts(hw);
    lemma_side_parts(tw);
    lemma_groups_words(hw);
    lemma_groups_words(tw);
    let hp = side_parts(a);
    let tp = side_parts(b);
    assert(group_words(tp) == Some(tw));
    assert(words_of(hp) + Seq::new((8 - hp.len() - tw.len()) as nat, |i: int| 0u16) + tw =~= ws);
    assert forall|i: int| 0 <= i < text.len() implies (is_hex(#[trigger] text[i]) || text[i] == ':' || text[i] == '.') by {
        if i < k {
            assert(text[i] == a[i]);
        } else if i >= k + 2 {
            assert(text[i] == b[i - k - 2]);
        }
    }
}

/// An IPv6 address written out as std displays it reads back as its groups.
proof fn lemma_ipv6_display(ws: Seq<u16>)
    requires
        ws.len() == 8,
    ensures
        ipv6_text(ipv6_display(ws)) == Some(ws),
        forall|i: int| 0 <= i < ipv6_display(ws).len() ==> (is_hex(#[trigger] ipv6_display(ws)[i]) || ipv6_display(ws)[i] == ':' || ipv6_display(ws)[i] == '.'),
{
    reveal(ipv6_display);
    if ws[0] == 0 && ws[1] == 0 && ws[2] == 0 && ws[3] == 0 && ws[4] == 0 && ws[5] == 0xffff {
        lemma_ipv6_mapped(ws);
    } else if zero_run(ws).1 > 1 {
        lemma_ipv6_compressed(ws);
    } else {
        let g = groups_text(ws);
        lemma_groups_text(ws);
        lemma_no_double_colon(g);
        lemma_groups_words(ws);
    }
}

/// An IPv6 socket address (no flow label, no scope) written out as std
/// displays it reads back as that address, also with whitespace around it.
#[verifier::spinoff_prover]
#[verifier::rlimit(40)]
pub proof fn law_ipv6_socket_reads_back(ws: Seq<u16>, port: u16, a: Seq<char>, b: Seq<char>)
    requires
        ws.len() == 8,
        forall|j: int| 0 <= j < a.len() ==> is_ws(#[trigger] a[j]),
        forall|j: int| 0 <= j < b.len() ==> is_ws(#[trigger] b[j]),
    ensures
        socket_text(socket_v6_display(ws, port)) == Some(SocketView { ip: IpView::V6(ws), port }),
        socket_text(a + socket_v6_display(ws, port) + b) == Some(SocketView { ip: IpView::V6(ws), port }),
{
    lemma_ipv6_display(ws);
    law_decimal_reads_back(port as nat);
    let ip = ipv6_display(ws);
    let p = decimal(port as nat);
    let s = socket_v6_display(ws, port);
    assert(s == seq!['['] + ip + seq![']', ':'] + p);
    assert(s[0] == '[');
    assert(s.last() == p.last());
    assert(is_digit(p[p.len() - 1]));
    assert(!is_ws(s[0]));
    assert(!is_ws(s.last()));
    assert(ws_prefix_len(s) == 0);
    assert(ws_suffix_len(s) == 0);
    assert(trimmed(s) =~= s);
    let close = ip.len() as int + 1;
    assert(s.subrange(close, close + 1) =~= seq![']']);
    assert forall|j: int| 0 <= j < close implies !occurs_at(s, seq![']'], j) by {
        if occurs_at(s, seq![']'], j) {
            assert(s.subrange(j, j + 1)[0] == s[j]);
            if j > 0 {
                assert(s[j] == ip[j - 1]);
            }
        }
    }
    lemma_first_at(s, seq![']'], close as int);
    let rest = s.skip(close + 1);
    assert(rest =~= seq![':'] + p);
    assert(rest.drop_first() =~= p);
    assert(s.subrange(1, close) =~= ip);
    lemma_trim_padding(a, s, b);
}

} // verus!

verus! {

/// A connection is in the `LISTEN` state.
pub open spec fn is_listening(c: ConnView) -> bool {
    c.state == "LISTEN"@
}

/// The listening ports are the local ports of exactly the connections in
/// the `LISTEN` state, every one of them, in their order.
pub proof fn law_listen_ports_are_listening(s: Seq<ConnView>)
    ensures
        listen_ports(s) == s.filter(|c: ConnView| is_listening(c)).map_values(|c: ConnView| c.local.port),
    decreases s.len(),
{
    broadcast use vstd::seq::Seq::lemma_filter_push;
    let p = |c: ConnView| is_listening(c);
    if s.len() == 0 {
        assert(s.filter(p) =~= Seq::<ConnView>::empty()) by {
            reveal(Seq::filter);
        }
        assert(s.filter(p).map_values(|c: ConnView| c.local.port) =~= Seq::<u16>::empty());
    } else {
        law_listen_ports_are_listening(s.drop_last());
        assert(s.drop_last().push(s.last()) =~= s);
        let f = s.drop_last().filter(p);
        if is_listening(s.last()) {
            assert(f.push(s.last()).map_values(|c: ConnView| c.local.port) =~= f.map_values(|c: ConnView| c.local.port).push(s.last().local.port));
        }
    }
}

} // verus!
