//! VIP allocator for AI endpoints.
//!
//! A pool entry is a CIDR, a `start-end` range, or a single IPv4 address.
//! With `avoid_buggy`, addresses whose last octet is 0 or 255 are skipped.
//! Prefixes larger than /16 are refused. Allocations are records; the
//! caller persists them so a restart does not hand an address out twice.
use vstd::prelude::*;

use crate::text::{
    contains_char, eq_ignore_ascii_case, eq_ignore_case, owned, view_err, view_str_res, views,
    all_digits, chars_of, dec, digits_value, first_index, is_ascii_digit, parse_u64_range,
    parse_u64_spec, push_dec, split_char, split_range, str_eq, trim, trim_bounds,
    lemma_first_index, string_of_range,
};
use vstd::string::*;

verus! {

#[derive(Debug, Clone)]
pub struct VipAllocation {
    pub vip: String,
    pub endpoint: String,
    pub pool: String,
}

// ---------------------------------------------------------------------------
// IPv4 text
// ---------------------------------------------------------------------------
/// One decimal octet as `Ipv4Addr::from_str` accepts it: 1–3 digits, no
/// leading zero, at most 255.
pub open spec fn octet_ok(p: Seq<char>) -> bool {
    1 <= p.len() <= 3 && all_digits(p) && (p.len() == 1 || p[0] != '0') && digits_value(p) <= 255
}

pub open spec fn ipv4_value(parts: Seq<Seq<char>>) -> int {
    digits_value(parts[0]) * 0x1000000 + digits_value(parts[1]) * 0x10000 + digits_value(parts[2])
        * 0x100 + digits_value(parts[3])
}

/// `Ipv4Addr::from_str`, as a `u32`.
pub open spec fn parse_ipv4_spec(s: Seq<char>) -> Option<u32> {
    let parts = split_char(s, '.');
    if parts.len() == 4 && octet_ok(parts[0]) && octet_ok(parts[1]) && octet_ok(parts[2])
        && octet_ok(parts[3]) {
        Some(ipv4_value(parts) as u32)
    } else {
        None
    }
}

/// Dotted-quad text of an address.
pub open spec fn fmt_ipv4(a: u32) -> Seq<char> {
    dec((a / 0x1000000) as nat) + "."@ + dec(((a / 0x10000) % 256) as nat) + "."@ + dec(
        ((a / 0x100) % 256) as nat,
    ) + "."@ + dec((a % 256) as nat)
}

/// Last octet 0 or 255.
pub open spec fn buggy(a: u32) -> bool {
    a % 256 == 0 || a % 256 == 255
}

pub open spec fn in_used(used: Seq<Seq<char>>, a: u32) -> bool {
    exists|i: int| 0 <= i < used.len() && #[trigger] used[i] == fmt_ipv4(a)
}

/// An address that may be handed out.
pub open spec fn avail(a: u32, used: Seq<Seq<char>>, avoid_buggy: bool) -> bool {
    !(avoid_buggy && buggy(a)) && !in_used(used, a)
}

proof fn lemma_digits_value_bound(p: Seq<char>)
    requires
        all_digits(p),
    ensures
        0 <= digits_value(p),
    decreases p.len(),
{
    if p.len() > 0 {
        assert(all_digits(p.drop_last())) by {
            assert forall|i: int| 0 <= i < p.drop_last().len() implies is_ascii_digit(
                #[trigger] p.drop_last()[i],
            ) by {
                assert(p.drop_last()[i] == p[i]);
            }
        }
        lemma_digits_value_bound(p.drop_last());
        assert(is_ascii_digit(p[p.len() - 1]));
    }
}

fn octet_value(p: &Vec<char>) -> (r: Option<u32>)
    ensures
        octet_ok(p@) <==> r is Some,
        r matches Some(x) ==> x == digits_value(p@) && x <= 255,
{
    if p.len() < 1 || p.len() > 3 {
        return None;
    }
    if p.len() > 1 && p[0] == '0' {
        return None;
    }
    if p[0] == '+' {
        return None;
    }
    proof {
        if all_digits(p@) {
            lemma_digits_value_bound(p@);
        }
    }
    match parse_u64_range(p, 0, p.len()) {
        Some(x) => {
            proof {
                assert(p@.subrange(0, p@.len() as int) =~= p@);
            }
            if x <= 255 {
                Some(x as u32)
            } else {
                None
            }
        },
        None => {
            proof {
                assert(p@.subrange(0, p@.len() as int) =~= p@);
            }
            None
        },
    }
}

/// `Ipv4Addr::from_str` on `v[from..to]`.
pub fn parse_ipv4(v: &Vec<char>, from: usize, to: usize) -> (r: Option<u32>)
    requires
        from <= to <= v@.len(),
    ensures
        r == parse_ipv4_spec(v@.subrange(from as int, to as int)),
{
    let parts = split_range(v, from, to, '.');
    let ghost pv = parts@.map_values(|p: Vec<char>| p@);
    if parts.len() != 4 {
        return None;
    }
    assert(pv[0] == parts@[0]@ && pv[1] == parts@[1]@ && pv[2] == parts@[2]@ && pv[3]
        == parts@[3]@);
    let a = match octet_value(&parts[0]) {
        Some(x) => x,
        None => {
            return None;
        },
    };
    let b = match octet_value(&parts[1]) {
        Some(x) => x,
        None => {
            return None;
        },
    };
    let c = match octet_value(&parts[2]) {
        Some(x) => x,
        None => {
            return None;
        },
    };
    let d = match octet_value(&parts[3]) {
        Some(x) => x,
        None => {
            return None;
        },
    };
    Some(a * 0x1000000 + b * 0x10000 + c * 0x100 + d)
}

/// The dotted-quad text of `a`.
pub fn format_ipv4(a: u32) -> (r: String)
    ensures
        r@ == fmt_ipv4(a),
{
    let mut r = String::new();
    push_dec(&mut r, (a / 0x1000000) as u64);
    r.append(".");
    push_dec(&mut r, ((a / 0x10000) % 256) as u64);
    r.append(".");
    push_dec(&mut r, ((a / 0x100) % 256) as u64);
    r.append(".");
    push_dec(&mut r, (a % 256) as u64);
    proof {
        assert(r@ =~= fmt_ipv4(a));
    }
    r
}

fn is_buggy_ipv4(a: u32) -> (r: bool)
    ensures
        r == buggy(a),
{
    a % 256 == 0 || a % 256 == 255
}

fn is_used(used: &[String], a: u32) -> (r: bool)
    ensures
        r == in_used(views(used@), a),
{
    let s = format_ipv4(a);
    let mut i: usize = 0;
    while i < used.len()
        invariant
            i <= used@.len(),
            s@ == fmt_ipv4(a),
            forall|j: int| 0 <= j < i ==> views(used@)[j] != fmt_ipv4(a),
        decreases used.len() - i,
    {
        if str_eq(used[i].as_str(), s.as_str()) {
            assert(views(used@)[i as int] == fmt_ipv4(a));
            return true;
        }
        i = i + 1;
    }
    false
}

fn available(a: u32, used: &[String], avoid_buggy: bool) -> (r: bool)
    ensures
        r == avail(a, views(used@), avoid_buggy),
{
    !(avoid_buggy && is_buggy_ipv4(a)) && !is_used(used, a)
}

// ---------------------------------------------------------------------------
// Pool entries
// ---------------------------------------------------------------------------
/// `v` reduced modulo 2^32, for `0 <= v < 2^33`.
pub open spec fn wrap(v: int) -> u32 {
    if v > u32::MAX {
        (v - 0x1_0000_0000) as u32
    } else {
        v as u32
    }
}

/// A CIDR block of `2^(32 - prefix)` addresses from `network`; /30 and
/// wider skip the network and broadcast addresses.
pub open spec fn cidr_slot_ok(network: u32, prefix: u32, i: int, used: Seq<Seq<char>>, avoid_buggy: bool) -> bool {
    let size = pow2((32 - prefix) as nat);
    !(prefix <= 30 && (i == 0 || i + 1 == size)) && avail(wrap(network + i), used, avoid_buggy)
}

pub open spec fn pow2(n: nat) -> int
    decreases n,
{
    if n == 0 {
        1
    } else {
        2 * pow2((n - 1) as nat)
    }
}

/// First usable address of the block at offset `i` or later.
pub open spec fn cidr_first_from(network: u32, prefix: u32, i: int, used: Seq<Seq<char>>, avoid_buggy: bool) -> Option<u32>
    decreases pow2((32 - prefix) as nat) - i,
{
    if i < 0 || i >= pow2((32 - prefix) as nat) {
        None
    } else if cidr_slot_ok(network, prefix, i, used, avoid_buggy) {
        Some(wrap(network + i))
    } else {
        cidr_first_from(network, prefix, i + 1, used, avoid_buggy)
    }
}

/// First usable address in `cur..=end`.
pub open spec fn range_first_from(cur: int, end: u32, used: Seq<Seq<char>>, avoid_buggy: bool) -> Option<u32>
    decreases end - cur + 1,
{
    if cur < 0 || cur > end {
        None
    } else if avail(cur as u32, used, avoid_buggy) {
        Some(cur as u32)
    } else {
        range_first_from(cur + 1, end, used, avoid_buggy)
    }
}

/// `u32::MAX << (32 - prefix)`, for a prefix of at least 1.
pub open spec fn mask(prefix: u32) -> u32 {
    if prefix == 0 {
        0
    } else {
        (u32::MAX << ((32 - prefix) as u32)) as u32
    }
}

/// The two sides of the first `c` in `s`.
pub open spec fn split_once(s: Seq<char>, c: char) -> Option<(Seq<char>, Seq<char>)> {
    match first_index(s, c) {
        Some(i) => Some((s.subrange(0, i), s.subrange(i + 1, s.len() as int))),
        None => None,
    }
}

/// A CIDR's `(network, prefix)` or the error text.
pub open spec fn parse_cidr_spec(s: Seq<char>) -> Result<(u32, u32), Seq<char>> {
    match split_once(s, '/') {
        None => Err("invalid CIDR '"@ + s + "'"@),
        Some((addr, pref)) => match parse_ipv4_spec(addr) {
            None => Err(
                "address '"@ + s
                    + "' is not an IPv4 CIDR (IPv6 pools stay on the Rivora controller)"@,
            ),
            Some(ip) => match parse_u64_spec(pref) {
                Some(p) if p <= 32 => Ok((ip & mask(p as u32), p as u32)),
                _ => Err("invalid CIDR prefix '"@ + pref + "'"@),
            },
        },
    }
}

/// What one pool entry offers: its first usable address, none, or an error.
pub open spec fn spec_free(s: Seq<char>, used: Seq<Seq<char>>, avoid_buggy: bool) -> Result<Option<u32>, Seq<char>> {
    if s.contains('/') {
        match parse_cidr_spec(s) {
            Err(e) => Err(e),
            Ok((network, prefix)) => if 32 - prefix > 16 {
                Err(
                    "address pool '"@ + s
                        + "' is larger than /16; Rivora allocates those sparsely, this allocator does not"@,
                )
            } else {
                Ok(cidr_first_from(network, prefix, 0, used, avoid_buggy))
            },
        }
    } else if s.contains('-') {
        match range_bounds_spec(s) {
            Err(e) => Err(e),
            Ok((start, end)) => Ok(range_first_from(start as int, end, used, avoid_buggy)),
        }
    } else {
        match single_spec(s) {
            Err(e) => Err(e),
            Ok(a) => if avail(a, used, avoid_buggy) {
                Ok(Some(a))
            } else {
                Ok(None)
            },
        }
    }
}

fn pow2_exec(n: u32) -> (r: u64)
    requires
        n <= 32,
    ensures
        r == pow2(n as nat),
    decreases n,
{
    if n == 0 {
        1
    } else {
        let p = pow2_exec(n - 1);
        proof {
            lemma_pow2_bound((n - 1) as nat);
        }
        2 * p
    }
}

proof fn lemma_pow2_pos(n: nat)
    ensures
        1 <= pow2(n),
    decreases n,
{
    if n > 0 {
        lemma_pow2_pos((n - 1) as nat);
    }
}

proof fn lemma_pow2_mono(n: nat, m: nat)
    requires
        n <= m,
    ensures
        pow2(n) <= pow2(m),
    decreases m,
{
    if n < m {
        lemma_pow2_mono(n, (m - 1) as nat);
        lemma_pow2_pos((m - 1) as nat);
    }
}

proof fn lemma_pow2_bound(n: nat)
    requires
        n <= 32,
    ensures
        1 <= pow2(n) <= 0x1_0000_0000,
        n < 32 ==> pow2(n) <= 0x8000_0000,
        n <= 16 ==> pow2(n) <= 0x10000,
{
    lemma_pow2_pos(n);
    assert(pow2(16) == 0x10000) by {
        reveal_with_fuel(pow2, 17);
    }
    assert(pow2(31) == 0x8000_0000) by {
        reveal_with_fuel(pow2, 32);
    }
    lemma_pow2_mono(n, 32);
    if n < 32 {
        lemma_pow2_mono(n, 31);
    }
    if n <= 16 {
        lemma_pow2_mono(n, 16);
    }
}

fn find_char_in(v: &Vec<char>, c: char) -> (r: Option<usize>)
    ensures
        first_index(v@, c) == (match r {
            Some(i) => Some(i as int),
            None => None::<int>,
        }),
        r matches Some(i) ==> i < v@.len(),
{
    let i = crate::text::find_char_from(v, c, 0);
    proof {
        assert(v@.subrange(0, v@.len() as int) =~= v@);
    }
    if i < v.len() {
        Some(i)
    } else {
        None
    }
}

fn msg3(a: &str, b: &str, c: &str) -> (r: String)
    ensures
        r@ == a@ + b@ + c@,
{
    let mut r = a.to_owned();
    r.append(b);
    r.append(c);
    r
}

/// First usable address of a block of at most 2^16 addresses.
fn first_free_cidr(network: u32, prefix: u32, used: &[String], avoid_buggy: bool) -> (r: Option<u32>)
    requires
        16 <= prefix <= 32,
    ensures
        r == cidr_first_from(network, prefix, 0, views(used@), avoid_buggy),
{
    let size = pow2_exec(32 - prefix);
    proof {
        lemma_pow2_bound((32 - prefix) as nat);
    }
    let mut i: u64 = 0;
    while i < size
        invariant
            16 <= prefix <= 32,
            size == pow2((32 - prefix) as nat),
            size <= 0x10000,
            i <= size,
            cidr_first_from(network, prefix, 0, views(used@), avoid_buggy) == cidr_first_from(
                network,
                prefix,
                i as int,
                views(used@),
                avoid_buggy,
            ),
        decreases size - i,
    {
        let skip_ends = prefix <= 30;
        if !(skip_ends && (i == 0 || i + 1 == size)) {
            let addr = network.wrapping_add(i as u32);
            assert(addr == wrap(network + i));
            if available(addr, used, avoid_buggy) {
                return Some(addr);
            }
        }
        i = i + 1;
    }
    None
}

/// First usable address in `start..=end`.
fn first_free_range(start: u32, end: u32, used: &[String], avoid_buggy: bool) -> (r: Option<u32>)
    requires
        start <= end,
    ensures
        r == range_first_from(start as int, end, views(used@), avoid_buggy),
{
    let mut cur: u32 = start;
    loop
        invariant
            start <= cur <= end,
            range_first_from(start as int, end, views(used@), avoid_buggy) == range_first_from(
                cur as int,
                end,
                views(used@),
                avoid_buggy,
            ),
        decreases end - cur,
    {
        if available(cur, used, avoid_buggy) {
            return Some(cur);
        }
        if cur == end {
            assert(range_first_from(cur + 1, end, views(used@), avoid_buggy) is None);
            return None;
        }
        cur = cur + 1;
    }
}

/// A CIDR's `(network, prefix)`, or why it is not one.
fn parse_cidr(spec: &str) -> (r: Result<(u32, u32), String>)
    requires
        spec@.contains('/'),
    ensures
        view_err(r) == parse_cidr_spec(spec@),
{
    let v = chars_of(spec);
    let n = v.len();
    proof {
        lemma_first_index(v@, '/');
    }
    let k = match find_char_in(&v, '/') {
        Some(k) => k,
        None => {
            return Err(msg3("invalid CIDR '", spec, "'"));
        },
    };
    let pref = string_of_range(&v, k + 1, n);
    let ip = match parse_ipv4(&v, 0, k) {
        Some(ip) => ip,
        None => {
            return Err(
                msg3(
                    "address '",
                    spec,
                    "' is not an IPv4 CIDR (IPv6 pools stay on the Rivora controller)",
                ),
            );
        },
    };
    let prefix = match parse_u64_range(&v, k + 1, n) {
        Some(p) => {
            if p > 32 {
                return Err(msg3("invalid CIDR prefix '", pref.as_str(), "'"));
            }
            p as u32
        },
        None => {
            return Err(msg3("invalid CIDR prefix '", pref.as_str(), "'"));
        },
    };
    let m: u32 = if prefix == 0 {
        0
    } else {
        u32::MAX << (32 - prefix)
    };
    Ok((ip & m, prefix))
}

/// The bounds of a `start-end` entry, or why it is not one.
pub open spec fn range_bounds_spec(s: Seq<char>) -> Result<(u32, u32), Seq<char>> {
    match split_once(s, '-') {
        None => Err("invalid range '"@ + s + "'"@),
        Some((a, b)) => match parse_ipv4_spec(trim(a)) {
            None => Err("invalid range start in '"@ + s + "'"@),
            Some(start) => match parse_ipv4_spec(trim(b)) {
                None => Err("invalid range end in '"@ + s + "'"@),
                Some(end) => if start > end {
                    Err("range start > end in '"@ + s + "'"@)
                } else if end - start + 1 > 0x10000 {
                    Err("range '"@ + s + "' is too large"@)
                } else {
                    Ok((start, end))
                },
            },
        },
    }
}

fn range_bounds(spec: &str) -> (r: Result<(u32, u32), String>)
    ensures
        view_err(r) == range_bounds_spec(spec@),
        r matches Ok((a, b)) ==> a <= b,
{
    let v = chars_of(spec);
    let n = v.len();
    proof {
        lemma_first_index(v@, '-');
        assert(v@.subrange(0, n as int) =~= v@);
    }
    let k = match find_char_in(&v, '-') {
        Some(k) => k,
        None => {
            return Err(msg3("invalid range '", spec, "'"));
        },
    };
    let (a0, a1) = trim_bounds_range(&v, 0, k);
    let start = match parse_ipv4(&v, a0, a1) {
        Some(x) => x,
        None => {
            return Err(msg3("invalid range start in '", spec, "'"));
        },
    };
    let (b0, b1) = trim_bounds_range(&v, k + 1, n);
    let end = match parse_ipv4(&v, b0, b1) {
        Some(x) => x,
        None => {
            return Err(msg3("invalid range end in '", spec, "'"));
        },
    };
    if start > end {
        return Err(msg3("range start > end in '", spec, "'"));
    }
    if end - start >= 0x10000 {
        return Err(msg3("range '", spec, "' is too large"));
    }
    Ok((start, end))
}

/// A single-address entry, or why it is not one.
pub open spec fn single_spec(s: Seq<char>) -> Result<u32, Seq<char>> {
    match parse_ipv4_spec(s) {
        None => Err("address '"@ + s + "' is not an IPv4 address, CIDR, or range"@),
        Some(a) => Ok(a),
    }
}

fn single(spec: &str) -> (r: Result<u32, String>)
    ensures
        view_err(r) == single_spec(spec@),
{
    let v = chars_of(spec);
    let n = v.len();
    proof {
        assert(v@.subrange(0, n as int) =~= v@);
    }
    match parse_ipv4(&v, 0, n) {
        Some(a) => Ok(a),
        None => Err(msg3("address '", spec, "' is not an IPv4 address, CIDR, or range")),
    }
}

/// The first address an entry offers that is not used.
fn first_free_spec(spec: &str, used: &[String], avoid_buggy: bool) -> (r: Result<Option<u32>, String>)
    ensures
        view_err(r) == spec_free(spec@, views(used@), avoid_buggy),
{
    if contains_char(spec, '/') {
        let (network, prefix) = match parse_cidr(spec) {
            Ok(x) => x,
            Err(e) => {
                return Err(e);
            },
        };
        if 32 - prefix > 16 {
            return Err(
                msg3(
                    "address pool '",
                    spec,
                    "' is larger than /16; Rivora allocates those sparsely, this allocator does not",
                ),
            );
        }
        Ok(first_free_cidr(network, prefix, used, avoid_buggy))
    } else if contains_char(spec, '-') {
        let (start, end) = match range_bounds(spec) {
            Ok(x) => x,
            Err(e) => {
                return Err(e);
            },
        };
        Ok(first_free_range(start, end, used, avoid_buggy))
    } else {
        let a = match single(spec) {
            Ok(a) => a,
            Err(e) => {
                return Err(e);
            },
        };
        if available(a, used, avoid_buggy) {
            Ok(Some(a))
        } else {
            Ok(None)
        }
    }
}

/// Trimmed bounds of `v[from..to]`.
fn trim_bounds_range(v: &Vec<char>, from: usize, to: usize) -> (r: (usize, usize))
    requires
        from <= to <= v@.len(),
    ensures
        from <= r.0 <= r.1 <= to,
        v@.subrange(r.0 as int, r.1 as int) == trim(v@.subrange(from as int, to as int)),
{
    let mut piece: Vec<char> = Vec::new();
    let mut i = from;
    while i < to
        invariant
            from <= i <= to,
            to <= v@.len(),
            piece@ == v@.subrange(from as int, i as int),
        decreases to - i,
    {
        piece.push(v[i]);
        i = i + 1;
        assert(piece@ =~= v@.subrange(from as int, i as int));
    }
    let (a, b) = trim_bounds(&piece);
    assert(v@.subrange(from + a, from + b) =~= piece@.subrange(a as int, b as int));
    (from + a, from + b)
}

/// The pool's answer: the first entry that offers an address, or the first
/// error, scanning entries in order.
pub open spec fn pool_first(specs: Seq<String>, used: Seq<Seq<char>>, avoid_buggy: bool, k: int) -> Result<Option<u32>, Seq<char>>
    decreases specs.len() - k,
{
    if k < 0 || k >= specs.len() {
        Ok(None)
    } else {
        match spec_free(specs[k]@, used, avoid_buggy) {
            Err(e) => Err(e),
            Ok(Some(a)) => Ok(Some(a)),
            Ok(None) => pool_first(specs, used, avoid_buggy, k + 1),
        }
    }
}

/// `specs` joined with `,`.
pub open spec fn join_commas(specs: Seq<String>) -> Seq<char>
    decreases specs.len(),
{
    if specs.len() == 0 {
        Seq::empty()
    } else if specs.len() == 1 {
        specs[0]@
    } else {
        join_commas(specs.drop_last()) + ","@ + specs.last()@
    }
}

/// First free address in `specs` that is not in `used`.
pub fn next_free(used: &[String], specs: &[String], avoid_buggy: bool) -> (r: Result<String, String>)
    ensures
        view_str_res(r) == next_free_spec(views(used@), specs@, avoid_buggy),
{
    if specs.len() == 0 {
        return Err("no AI address pool configured".to_owned());
    }
    let mut k: usize = 0;
    while k < specs.len()
        invariant
            k <= specs@.len(),
            pool_first(specs@, views(used@), avoid_buggy, 0) == pool_first(specs@, views(used@), avoid_buggy, k as int),
        decreases specs.len() - k,
    {
        match first_free_spec(specs[k].as_str(), used, avoid_buggy) {
            Ok(Some(a)) => {
                return Ok(format_ipv4(a));
            },
            Ok(None) => {},
            Err(e) => {
                return Err(e);
            },
        }
        k = k + 1;
    }
    let mut joined = String::new();
    let mut j: usize = 0;
    while j < specs.len()
        invariant
            j <= specs@.len(),
            joined@ == join_commas(specs@.subrange(0, j as int)),
        decreases specs.len() - j,
    {
        if j > 0 {
            joined.append(",");
        }
        joined.append(specs[j].as_str());
        proof {
            let t = specs@.subrange(0, j + 1);
            assert(t.drop_last() =~= specs@.subrange(0, j as int));
            if j == 0 {
                assert(joined@ =~= specs@[0]@);
            }
        }
        j = j + 1;
    }
    proof {
        assert(specs@.subrange(0, specs@.len() as int) =~= specs@);
    }
    let mut msg = "AI address pool exhausted (".to_owned();
    msg.append(joined.as_str());
    msg.append(")");
    Err(msg)
}

// ---------------------------------------------------------------------------
// Membership
// ---------------------------------------------------------------------------
/// The network or broadcast address of a block of /30 or wider.
pub open spec fn net_or_bcast(n: u32, network: u32, prefix: u32) -> bool {
    prefix <= 30 && (n == network || n == wrap(network + pow2((32 - prefix) as nat) - 1))
}

/// Whether one pool entry holds `want`, or why the entry is unusable.
pub open spec fn entry_holds(s: Seq<char>, want: u32) -> Result<bool, Seq<char>> {
    if s.contains('/') {
        match parse_cidr_spec(s) {
            Err(e) => Err(e),
            Ok((network, prefix)) => if 32 - prefix > 16 {
                Err("address pool '"@ + s + "' is larger than /16"@)
            } else if want & mask(prefix) != network {
                Ok(false)
            } else {
                Ok(!net_or_bcast(want, network, prefix))
            },
        }
    } else if s.contains('-') {
        match range_bounds_spec(s) {
            Err(e) => Err(e),
            Ok((start, end)) => Ok(start <= want <= end),
        }
    } else {
        match single_spec(s) {
            Err(e) => Err(e),
            Ok(a) => Ok(a == want),
        }
    }
}

/// Whether an entry from `k` on holds `want`; the first unusable entry
/// before one that does is the answer instead.
pub open spec fn pool_holds(specs: Seq<String>, want: u32, k: int) -> Result<bool, Seq<char>>
    decreases specs.len() - k,
{
    if k < 0 || k >= specs.len() {
        Ok(false)
    } else {
        match entry_holds(specs[k]@, want) {
            Err(e) => Err(e),
            Ok(true) => Ok(true),
            Ok(false) => pool_holds(specs, want, k + 1),
        }
    }
}

/// Whether `vip` may be handed out from the pool.
pub open spec fn in_pool_spec(vip: Seq<char>, specs: Seq<String>, avoid_buggy: bool) -> Result<bool, Seq<char>> {
    match parse_ipv4_spec(vip) {
        None => Err("requested address "@ + vip + " is not IPv4"@),
        Some(w) => if avoid_buggy && buggy(w) {
            Ok(false)
        } else {
            pool_holds(specs, w, 0)
        },
    }
}

fn spec_contains(spec: &str, want: u32) -> (r: Result<bool, String>)
    ensures
        view_err(r) == entry_holds(spec@, want),
{
    if contains_char(spec, '/') {
        let (network, prefix) = match parse_cidr(spec) {
            Ok(x) => x,
            Err(e) => {
                return Err(e);
            },
        };
        if 32 - prefix > 16 {
            return Err(msg3("address pool '", spec, "' is larger than /16"));
        }
        let m: u32 = if prefix == 0 {
            0
        } else {
            u32::MAX << (32 - prefix)
        };
        if want & m != network {
            return Ok(false);
        }
        if prefix > 30 {
            return Ok(true);
        }
        let size = pow2_exec(32 - prefix);
        proof {
            lemma_pow2_bound((32 - prefix) as nat);
        }
        let last = network.wrapping_add((size - 1) as u32);
        Ok(!(want == network || want == last))
    } else if contains_char(spec, '-') {
        let (start, end) = match range_bounds(spec) {
            Ok(x) => x,
            Err(e) => {
                return Err(e);
            },
        };
        Ok(start <= want && want <= end)
    } else {
        match single(spec) {
            Ok(a) => Ok(a == want),
            Err(e) => Err(e),
        }
    }
}

/// Whether `vip` is an address the pool may hand out.
pub fn address_in_pool(vip: &str, specs: &[String], avoid_buggy: bool) -> (r: Result<bool, String>)
    ensures
        view_err(r) == in_pool_spec(vip@, specs@, avoid_buggy),
{
    let v = chars_of(vip);
    proof {
        assert(v@.subrange(0, v@.len() as int) =~= v@);
    }
    let want = match parse_ipv4(&v, 0, v.len()) {
        Some(w) => w,
        None => {
            return Err(msg3("requested address ", vip, " is not IPv4"));
        },
    };
    if avoid_buggy && is_buggy_ipv4(want) {
        return Ok(false);
    }
    assert(in_pool_spec(vip@, specs@, avoid_buggy) == pool_holds(specs@, want, 0));
    let mut k: usize = 0;
    while k < specs.len()
        invariant
            k <= specs@.len(),
            in_pool_spec(vip@, specs@, avoid_buggy) == pool_holds(specs@, want, 0),
            pool_holds(specs@, want, 0) == pool_holds(specs@, want, k as int),
        decreases specs.len() - k,
    {
        match spec_contains(specs[k].as_str(), want) {
            Ok(true) => {
                return Ok(true);
            },
            Ok(false) => {},
            Err(e) => {
                return Err(e);
            },
        }
        k = k + 1;
    }
    Ok(false)
}

// ---------------------------------------------------------------------------
// Allocation decisions
// ---------------------------------------------------------------------------
/// Index of the first allocation held by `endpoint`, from `k` on.
pub open spec fn held_by(allocs: Seq<VipAllocation>, endpoint: Seq<char>, k: int) -> Option<int>
    decreases allocs.len() - k,
{
    if k < 0 || k >= allocs.len() {
        None
    } else if allocs[k].endpoint@ == endpoint {
        Some(k)
    } else {
        held_by(allocs, endpoint, k + 1)
    }
}

/// Index of the first allocation of address `vip`, from `k` on.
pub open spec fn owner_of(allocs: Seq<VipAllocation>, vip: Seq<char>, k: int) -> Option<int>
    decreases allocs.len() - k,
{
    if k < 0 || k >= allocs.len() {
        None
    } else if allocs[k].vip@ == vip {
        Some(k)
    } else {
        owner_of(allocs, vip, k + 1)
    }
}

/// The addresses of `allocs`.
pub open spec fn vips_of(allocs: Seq<VipAllocation>) -> Seq<Seq<char>> {
    allocs.map_values(|a: VipAllocation| a.vip@)
}

fn find_holder(allocs: &[VipAllocation], endpoint: &str) -> (r: Option<usize>)
    ensures
        held_by(allocs@, endpoint@, 0) == (match r {
            Some(i) => Some(i as int),
            None => None::<int>,
        }),
        r matches Some(i) ==> i < allocs@.len(),
{
    let mut i: usize = 0;
    while i < allocs.len()
        invariant
            i <= allocs@.len(),
            held_by(allocs@, endpoint@, 0) == held_by(allocs@, endpoint@, i as int),
        decreases allocs.len() - i,
    {
        if str_eq(allocs[i].endpoint.as_str(), endpoint) {
            return Some(i);
        }
        i = i + 1;
    }
    None
}

fn find_owner(allocs: &[VipAllocation], vip: &str) -> (r: Option<usize>)
    ensures
        owner_of(allocs@, vip@, 0) == (match r {
            Some(i) => Some(i as int),
            None => None::<int>,
        }),
        r matches Some(i) ==> i < allocs@.len(),
{
    let mut i: usize = 0;
    while i < allocs.len()
        invariant
            i <= allocs@.len(),
            owner_of(allocs@, vip@, 0) == owner_of(allocs@, vip@, i as int),
        decreases allocs.len() - i,
    {
        if str_eq(allocs[i].vip.as_str(), vip) {
            return Some(i);
        }
        i = i + 1;
    }
    None
}

/// What `next_free` answers, as text.
pub open spec fn next_free_spec(used: Seq<Seq<char>>, specs: Seq<String>, avoid_buggy: bool) -> Result<Seq<char>, Seq<char>> {
    if specs.len() == 0 {
        Err("no AI address pool configured"@)
    } else {
        match pool_first(specs, used, avoid_buggy, 0) {
            Ok(Some(a)) => Ok(fmt_ipv4(a)),
            Ok(None) => Err("AI address pool exhausted ("@ + join_commas(specs) + ")"@),
            Err(e) => Err(e),
        }
    }
}

/// The address `endpoint` is to hold: the one it holds already, else the
/// first free one. The caller records it and asks again if another writer
/// recorded the same address first.
pub fn reserve(allocs: &[VipAllocation], endpoint: &str, specs: &[String], avoid_buggy: bool) -> (r: Result<String, String>)
    ensures
        match held_by(allocs@, endpoint@, 0) {
            Some(i) => r is Ok && r->Ok_0@ == allocs@[i].vip@,
            None => view_str_res(r) == next_free_spec(vips_of(allocs@), specs@, avoid_buggy),
        },
{
    if let Some(i) = find_holder(allocs, endpoint) {
        return Ok(owned(allocs[i].vip.as_str()));
    }
    let mut used: Vec<String> = Vec::new();
    let mut j: usize = 0;
    while j < allocs.len()
        invariant
            j <= allocs@.len(),
            used@.len() == j,
            forall|t: int| 0 <= t < j ==> (#[trigger] used@[t])@ == allocs@[t].vip@,
        decreases allocs.len() - j,
    {
        used.push(owned(allocs[j].vip.as_str()));
        j = j + 1;
    }
    let r = next_free(used.as_slice(), specs, avoid_buggy);
    assert(views(used@) =~= vips_of(allocs@));
    r
}

/// Records `vip` for `endpoint`, as asked for by the endpoint itself:
/// refused when another endpoint holds it or the pool may not hand it out.
pub fn adopt(allocs: &[VipAllocation], endpoint: &str, vip: &str, specs: &[String], avoid_buggy: bool) -> (r: Result<String, String>)
    ensures
        match held_by(allocs@, endpoint@, 0) {
            Some(i) => r is Ok && r->Ok_0@ == allocs@[i].vip@,
            None => match owner_of(allocs@, vip@, 0) {
                Some(j) => r is Err && r->Err_0@ == "requested address "@ + vip@
                    + " is already assigned to "@ + allocs@[j].endpoint@,
                None => match in_pool_spec(vip@, specs@, avoid_buggy) {
                    Err(e) => r is Err && r->Err_0@ == e,
                    Ok(false) => r is Err && r->Err_0@ == "requested address "@ + vip@
                        + " is not in any configured pool"@,
                    Ok(true) => r is Ok && r->Ok_0@ == vip@,
                },
            },
        },
{
    if let Some(i) = find_holder(allocs, endpoint) {
        return Ok(owned(allocs[i].vip.as_str()));
    }
    if let Some(j) = find_owner(allocs, vip) {
        let mut m = msg3("requested address ", vip, " is already assigned to ");
        m.append(allocs[j].endpoint.as_str());
        return Err(m);
    }
    match address_in_pool(vip, specs, avoid_buggy) {
        Err(e) => Err(e),
        Ok(false) => Err(msg3("requested address ", vip, " is not in any configured pool")),
        Ok(true) => Ok(owned(vip)),
    }
}

/// The addresses held by `endpoint`, in order.
pub open spec fn released(allocs: Seq<VipAllocation>, endpoint: Seq<char>) -> Seq<Seq<char>>
    decreases allocs.len(),
{
    if allocs.len() == 0 {
        Seq::empty()
    } else {
        released(allocs.drop_last(), endpoint) + if allocs.last().endpoint@ == endpoint {
            seq![allocs.last().vip@]
        } else {
            Seq::empty()
        }
    }
}

/// The addresses to delete when `endpoint` lets go of its VIP.
pub fn release(allocs: &[VipAllocation], endpoint: &str) -> (r: Vec<String>)
    ensures
        r@.map_values(|s: String| s@) == released(allocs@, endpoint@),
{
    let mut out: Vec<String> = Vec::new();
    let mut i: usize = 0;
    while i < allocs.len()
        invariant
            i <= allocs@.len(),
            out@.map_values(|s: String| s@) == released(allocs@.subrange(0, i as int), endpoint@),
        decreases allocs.len() - i,
    {
        let ghost before = out@;
        if str_eq(allocs[i].endpoint.as_str(), endpoint) {
            out.push(owned(allocs[i].vip.as_str()));
        }
        proof {
            let t = allocs@.subrange(0, i + 1);
            assert(t.drop_last() =~= allocs@.subrange(0, i as int));
            assert(t.last() == allocs@[i as int]);
            assert(out@.map_values(|s: String| s@) =~= released(t, endpoint@));
        }
        i = i + 1;
    }
    proof {
        assert(allocs@.subrange(0, allocs@.len() as int) =~= allocs@);
    }
    out
}

// ---------------------------------------------------------------------------
// Settings
// ---------------------------------------------------------------------------
/// The non-empty trimmed pieces, in order.
pub open spec fn kept_pieces(pieces: Seq<Seq<char>>) -> Seq<Seq<char>>
    decreases pieces.len(),
{
    if pieces.len() == 0 {
        Seq::empty()
    } else {
        kept_pieces(pieces.drop_last()) + if trim(pieces.last()).len() > 0 {
            seq![trim(pieces.last())]
        } else {
            Seq::empty()
        }
    }
}

/// The pool entries: the comma-separated address pool when it names any,
/// else the service CIDR, else `10.96.0.0/16`.
pub open spec fn pool_specs_spec(address_pool: Option<Seq<char>>, service_cidr: Option<Seq<char>>) -> Seq<Seq<char>> {
    let fallback = match service_cidr {
        Some(c) => c,
        None => "10.96.0.0/16"@,
    };
    match address_pool {
        Some(raw) => if kept_pieces(split_char(raw, ',')).len() > 0 {
            kept_pieces(split_char(raw, ','))
        } else {
            seq![fallback]
        },
        None => seq![fallback],
    }
}

/// The pool entries from the two settings (address pool, service CIDR).
pub fn pool_specs(address_pool: Option<&str>, service_cidr: Option<&str>) -> (r: Vec<String>)
    ensures
        views(r@) == pool_specs_spec(
            match address_pool {
                Some(p) => Some(p@),
                None => None::<Seq<char>>,
            },
            match service_cidr {
                Some(c) => Some(c@),
                None => None::<Seq<char>>,
            },
        ),
{
    let ghost pool_v = match address_pool {
        Some(p) => Some(p@),
        None => None::<Seq<char>>,
    };
    let ghost cidr_v = match service_cidr {
        Some(c) => Some(c@),
        None => None::<Seq<char>>,
    };
    if let Some(raw) = address_pool {
        let v = chars_of(raw);
        let pieces = split_range(&v, 0, v.len(), ',');
        let ghost pv = pieces@.map_values(|p: Vec<char>| p@);
        proof {
            assert(v@.subrange(0, v@.len() as int) =~= v@);
        }
        let mut out: Vec<String> = Vec::new();
        let mut i: usize = 0;
        while i < pieces.len()
            invariant
                i <= pieces@.len(),
                pv == pieces@.map_values(|p: Vec<char>| p@),
                views(out@) == kept_pieces(pv.subrange(0, i as int)),
            decreases pieces.len() - i,
        {
            let (a, b) = trim_bounds(&pieces[i]);
            proof {
                let t = pv.subrange(0, i + 1);
                assert(t.drop_last() =~= pv.subrange(0, i as int));
                assert(t.last() == pieces@[i as int]@);
            }
            if a < b {
                out.push(string_of_range(&pieces[i], a, b));
            }
            proof {
                let t = pv.subrange(0, i + 1);
                assert(views(out@) =~= kept_pieces(t));
            }
            i = i + 1;
        }
        proof {
            assert(pv.subrange(0, pv.len() as int) =~= pv);
        }
        if out.len() > 0 {
            return out;
        }
    }
    let fallback = match service_cidr {
        Some(c) => owned(c),
        None => "10.96.0.0/16".to_owned(),
    };
    let mut out: Vec<String> = Vec::new();
    out.push(fallback);
    assert(views(out@) =~= seq![fallback@]);
    out
}

/// Whether addresses ending in .0 or .255 are skipped: unless the setting
/// is `0` or `false` in any case.
pub fn avoid_buggy_ips(setting: Option<&str>) -> (r: bool)
    ensures
        r == !(match setting {
            Some(v) => v@ == "0"@ || eq_ignore_case(v@, "false"@),
            None => false,
        }),
{
    match setting {
        Some(v) => !(str_eq(v, "0") || eq_ignore_ascii_case(v, "false")),
        None => true,
    }
}

// ---------------------------------------------------------------------------
// Laws
// ---------------------------------------------------------------------------
proof fn lemma_cidr_first_avail(network: u32, prefix: u32, i: int, used: Seq<Seq<char>>, avoid_buggy: bool)
    ensures
        cidr_first_from(network, prefix, i, used, avoid_buggy) matches Some(a) ==> avail(
            a,
            used,
            avoid_buggy,
        ),
    decreases pow2((32 - prefix) as nat) - i,
{
    if 0 <= i < pow2((32 - prefix) as nat) && !cidr_slot_ok(network, prefix, i, used, avoid_buggy) {
        lemma_cidr_first_avail(network, prefix, i + 1, used, avoid_buggy);
    }
}

proof fn lemma_range_first_avail(cur: int, end: u32, used: Seq<Seq<char>>, avoid_buggy: bool)
    ensures
        range_first_from(cur, end, used, avoid_buggy) matches Some(a) ==> avail(a, used, avoid_buggy),
    decreases end - cur + 1,
{
    if 0 <= cur <= end && !avail(cur as u32, used, avoid_buggy) {
        lemma_range_first_avail(cur + 1, end, used, avoid_buggy);
    }
}

proof fn lemma_pool_first_avail(specs: Seq<String>, used: Seq<Seq<char>>, avoid_buggy: bool, k: int)
    ensures
        pool_first(specs, used, avoid_buggy, k) matches Ok(Some(a)) ==> avail(a, used, avoid_buggy),
    decreases specs.len() - k,
{
    if 0 <= k < specs.len() {
        let s = specs[k]@;
        if s.contains('/') {
            if let Ok((network, prefix)) = parse_cidr_spec(s) {
                lemma_cidr_first_avail(network, prefix, 0, used, avoid_buggy);
            }
        } else if s.contains('-') {
            if let Ok((start, end)) = range_bounds_spec(s) {
                lemma_range_first_avail(start as int, end, used, avoid_buggy);
            }
        }
        lemma_pool_first_avail(specs, used, avoid_buggy, k + 1);
    }
}

/// An address handed out is never one already in use, and with
/// `avoid_buggy` never one whose last octet is 0 or 255.
pub proof fn lemma_next_free_is_free(used: Seq<Seq<char>>, specs: Seq<String>, avoid_buggy: bool)
    ensures
        next_free_spec(used, specs, avoid_buggy) matches Ok(t) ==> !used.contains(t) && exists|
            a: u32,
        | t == #[trigger] fmt_ipv4(a) && !(avoid_buggy && buggy(a)),
{
    lemma_pool_first_avail(specs, used, avoid_buggy, 0);
    if specs.len() > 0 {
        if let Ok(Some(a)) = pool_first(specs, used, avoid_buggy, 0) {
            let t = fmt_ipv4(a);
            assert(avail(a, used, avoid_buggy));
            assert(!(avoid_buggy && buggy(a)));
            if used.contains(t) {
                let i = choose|i: int| 0 <= i < used.len() && used[i] == t;
                assert(used[i] == fmt_ipv4(a));
                assert(in_used(used, a));
            }
            assert(next_free_spec(used, specs, avoid_buggy) == Ok::<Seq<char>, Seq<char>>(t));
        }
    }
}

/// What `reserve` answers for `endpoint`.
pub open spec fn reserve_spec(allocs: Seq<VipAllocation>, endpoint: Seq<char>, specs: Seq<String>, avoid_buggy: bool) -> Result<
    Seq<char>,
    Seq<char>,
> {
    match held_by(allocs, endpoint, 0) {
        Some(i) => Ok(allocs[i].vip@),
        None => next_free_spec(vips_of(allocs), specs, avoid_buggy),
    }
}

/// No address is recorded twice.
pub open spec fn vips_distinct(allocs: Seq<VipAllocation>) -> bool {
    forall|i: int, j: int| 0 <= i < j < allocs.len() ==> (#[trigger] allocs[i]).vip@ != (#[trigger] allocs[j]).vip@
}

/// The allocations after the caller records what `reserve` answered: a
/// new record only when the endpoint held nothing.
pub open spec fn recorded(allocs: Seq<VipAllocation>, a: VipAllocation) -> Seq<VipAllocation> {
    if held_by(allocs, a.endpoint@, 0) is Some {
        allocs
    } else {
        allocs.push(a)
    }
}

proof fn lemma_held_by_push(allocs: Seq<VipAllocation>, a: VipAllocation, e: Seq<char>, k: int)
    requires
        0 <= k <= allocs.len(),
    ensures
        held_by(allocs.push(a), e, k) == (match held_by(allocs, e, k) {
            Some(i) => Some(i),
            None => if a.endpoint@ == e {
                Some(allocs.len() as int)
            } else {
                None
            },
        }),
    decreases allocs.len() - k,
{
    let p = allocs.push(a);
    if k < allocs.len() {
        assert(p[k] == allocs[k]);
        lemma_held_by_push(allocs, a, e, k + 1);
    } else {
        assert(p[k] == a);
        assert(held_by(p, e, k + 1) is None);
    }
}

proof fn lemma_held_by_is(allocs: Seq<VipAllocation>, e: Seq<char>, k: int)
    ensures
        held_by(allocs, e, k) matches Some(i) ==> k <= i < allocs.len() && allocs[i].endpoint@ == e,
    decreases allocs.len() - k,
{
    if 0 <= k < allocs.len() {
        lemma_held_by_is(allocs, e, k + 1);
    }
}

/// Reserving is idempotent and never hands an address out twice: once
/// the answer for an endpoint is recorded, asking again for it gives the
/// same address, and any other endpoint gets a different one.
pub proof fn lemma_reserve_idempotent_no_reuse(
    allocs: Seq<VipAllocation>,
    a: VipAllocation,
    other: Seq<char>,
    specs: Seq<String>,
    avoid_buggy: bool,
)
    requires
        vips_distinct(allocs),
        reserve_spec(allocs, a.endpoint@, specs, avoid_buggy) == Ok::<Seq<char>, Seq<char>>(a.vip@),
        other != a.endpoint@,
    ensures
        vips_distinct(recorded(allocs, a)),
        reserve_spec(recorded(allocs, a), a.endpoint@, specs, avoid_buggy) == Ok::<Seq<char>, Seq<char>>(a.vip@),
        reserve_spec(recorded(allocs, a), other, specs, avoid_buggy) matches Ok(v) ==> v != a.vip@,
{
    let e = a.endpoint@;
    let after = recorded(allocs, a);
    lemma_held_by_is(allocs, e, 0);
    lemma_held_by_is(allocs, other, 0);
    lemma_next_free_is_free(vips_of(allocs), specs, avoid_buggy);
    if held_by(allocs, e, 0) is None {
        lemma_held_by_push(allocs, a, e, 0);
        lemma_held_by_push(allocs, a, other, 0);
        assert(!vips_of(allocs).contains(a.vip@));
        assert forall|i: int, j: int| 0 <= i < j < after.len() implies (#[trigger] after[i]).vip@
            != (#[trigger] after[j]).vip@ by {
            if j == allocs.len() {
                assert(vips_of(allocs)[i] == allocs[i].vip@);
            } else {
                assert(after[i] == allocs[i] && after[j] == allocs[j]);
            }
        }
        assert(after[allocs.len() as int] == a);
    }
    lemma_held_by_is(after, other, 0);
    lemma_next_free_is_free(vips_of(after), specs, avoid_buggy);
    match held_by(after, other, 0) {
        Some(j) => {
            if held_by(allocs, e, 0) is None {
                assert(j < allocs.len());
                assert(after[j] == allocs[j]);
                assert(vips_of(allocs)[j] == allocs[j].vip@);
            } else {
                let i = held_by(allocs, e, 0)->0;
                assert(i != j);
            }
        },
        None => {
            if held_by(allocs, e, 0) is None {
                assert(vips_of(after)[allocs.len() as int] == a.vip@);
            } else {
                let i = held_by(allocs, e, 0)->0;
                assert(vips_of(after)[i] == a.vip@);
            }
        },
    }
}

/// Every record of `allocs` was added by recording what `reserve` answered
/// on the records before it, for an endpoint that held nothing yet: how the
/// store grows from empty.
pub open spec fn built_by_reserve(allocs: Seq<VipAllocation>, specs: Seq<String>, avoid_buggy: bool) -> bool {
    forall|k: int|
        0 <= k < allocs.len() ==> held_by(allocs.subrange(0, k), (#[trigger] allocs[k]).endpoint@, 0) is None
            && reserve_spec(allocs.subrange(0, k), allocs[k].endpoint@, specs, avoid_buggy) == Ok::<
            Seq<char>,
            Seq<char>,
        >(allocs[k].vip@)
}

/// A store grown only by recording reservations never holds an address
/// twice, and recording one more answer keeps it grown that way.
pub proof fn lemma_reserved_store_distinct(allocs: Seq<VipAllocation>, specs: Seq<String>, avoid_buggy: bool)
    requires
        built_by_reserve(allocs, specs, avoid_buggy),
    ensures
        vips_distinct(allocs),
    decreases allocs.len(),
{
    if allocs.len() > 0 {
        let p = allocs.drop_last();
        let a = allocs.last();
        let n = p.len() as int;
        assert forall|k: int| 0 <= k < p.len() implies held_by(p.subrange(0, k), (#[trigger] p[k]).endpoint@, 0) is None
            && reserve_spec(p.subrange(0, k), p[k].endpoint@, specs, avoid_buggy) == Ok::<Seq<char>, Seq<char>>(
            p[k].vip@,
        ) by {
            assert(p.subrange(0, k) =~= allocs.subrange(0, k));
            assert(p[k] == allocs[k]);
        }
        lemma_reserved_store_distinct(p, specs, avoid_buggy);
        assert(allocs.subrange(0, n) =~= p);
        assert(allocs[n] == a);
        let other = a.endpoint@.push('x');
        assert(other.len() != a.endpoint@.len());
        lemma_reserve_idempotent_no_reuse(p, a, other, specs, avoid_buggy);
        assert(recorded(p, a) == p.push(a));
        assert(p.push(a) =~= allocs);
    }
}

/// The reservation law for any store grown by recording reservations: the
/// recorded answer is given again to the same endpoint and never to another,
/// and the store stays grown that way.
pub proof fn lemma_reserve_law(
    allocs: Seq<VipAllocation>,
    a: VipAllocation,
    other: Seq<char>,
    specs: Seq<String>,
    avoid_buggy: bool,
)
    requires
        built_by_reserve(allocs, specs, avoid_buggy),
        reserve_spec(allocs, a.endpoint@, specs, avoid_buggy) == Ok::<Seq<char>, Seq<char>>(a.vip@),
        other != a.endpoint@,
    ensures
        built_by_reserve(recorded(allocs, a), specs, avoid_buggy),
        reserve_spec(recorded(allocs, a), a.endpoint@, specs, avoid_buggy) == Ok::<Seq<char>, Seq<char>>(a.vip@),
        reserve_spec(recorded(allocs, a), other, specs, avoid_buggy) matches Ok(v) ==> v != a.vip@,
{
    lemma_reserved_store_distinct(allocs, specs, avoid_buggy);
    lemma_reserve_idempotent_no_reuse(allocs, a, other, specs, avoid_buggy);
    if held_by(allocs, a.endpoint@, 0) is None {
        let r = allocs.push(a);
        assert forall|k: int| 0 <= k < r.len() implies held_by(r.subrange(0, k), (#[trigger] r[k]).endpoint@, 0) is None
            && reserve_spec(r.subrange(0, k), r[k].endpoint@, specs, avoid_buggy) == Ok::<Seq<char>, Seq<char>>(
            r[k].vip@,
        ) by {
            if k < allocs.len() {
                assert(r.subrange(0, k) =~= allocs.subrange(0, k));
                assert(r[k] == allocs[k]);
            } else {
                assert(r.subrange(0, k) =~= allocs);
                assert(r[k] == a);
            }
        }
    }
}

/// The reservation law on any store: once what `reserve` answered for an
/// endpoint is recorded, the store holds that address for the endpoint,
/// asking again gives the same address and records nothing more, and any
/// other endpoint is given a different address. It fails only where the
/// store already records the endpoint's address for `other` as well (an
/// address handed out twice before), which is left out.
pub proof fn lemma_reserve_on_any_store(
    allocs: Seq<VipAllocation>,
    a: VipAllocation,
    other: Seq<char>,
    specs: Seq<String>,
    avoid_buggy: bool,
)
    requires
        reserve_spec(allocs, a.endpoint@, specs, avoid_buggy) == Ok::<Seq<char>, Seq<char>>(a.vip@),
        other != a.endpoint@,
        held_by(allocs, other, 0) matches Some(j) ==> allocs[j].vip@ != a.vip@,
    ensures
        held_by(recorded(allocs, a), a.endpoint@, 0) matches Some(k) && recorded(allocs, a)[k].vip@ == a.vip@,
        reserve_spec(recorded(allocs, a), a.endpoint@, specs, avoid_buggy) == Ok::<Seq<char>, Seq<char>>(a.vip@),
        recorded(recorded(allocs, a), a) == recorded(allocs, a),
        reserve_spec(recorded(allocs, a), other, specs, avoid_buggy) matches Ok(v) ==> v != a.vip@,
{
    let e = a.endpoint@;
    let after = recorded(allocs, a);
    lemma_held_by_is(allocs, e, 0);
    lemma_held_by_is(allocs, other, 0);
    lemma_next_free_is_free(vips_of(allocs), specs, avoid_buggy);
    if held_by(allocs, e, 0) is None {
        lemma_held_by_push(allocs, a, e, 0);
        lemma_held_by_push(allocs, a, other, 0);
        assert(after[allocs.len() as int] == a);
    }
    lemma_held_by_is(after, e, 0);
    lemma_held_by_is(after, other, 0);
    lemma_next_free_is_free(vips_of(after), specs, avoid_buggy);
    match held_by(after, other, 0) {
        Some(j) => {
            if held_by(allocs, e, 0) is None {
                assert(after[j] == allocs[j]);
                assert(vips_of(allocs)[j] == allocs[j].vip@);
            }
        },
        None => {
            if held_by(allocs, e, 0) is None {
                assert(vips_of(after)[allocs.len() as int] == a.vip@);
            } else {
                let i = held_by(allocs, e, 0)->0;
                assert(vips_of(after)[i] == a.vip@);
            }
        },
    }
}

} // verus!
