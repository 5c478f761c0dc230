//! Character-level helpers shared by the parsers and formatters.
//!
//! Strings are modelled by their view, a `Seq<char>`. Ordering of strings is
//! lexicographic by code point, which is the order of their UTF-8 bytes.
use vstd::prelude::*;
use vstd::string::*;

verus! {

// ---------------------------------------------------------------------------
// Character classes
// ---------------------------------------------------------------------------
/// Unicode `White_Space`, the set that `char::is_whitespace` and `str::trim` use.
/// A result whose error text is taken by its view.
pub open spec fn view_err<T>(r: Result<T, String>) -> Result<T, Seq<char>> {
    match r {
        Ok(x) => Ok(x),
        Err(e) => Err(e@),
    }
}

/// A text result, both sides taken by their views.
pub open spec fn view_str_res(r: Result<String, String>) -> Result<Seq<char>, Seq<char>> {
    match r {
        Ok(x) => Ok(x@),
        Err(e) => Err(e@),
    }
}

/// The views of a list of strings.
pub open spec fn views(v: Seq<String>) -> Seq<Seq<char>> {
    v.map_values(|s: String| s@)
}

pub open spec fn is_ws(c: char) -> bool {
    let u = c as u32;
    (0x09 <= u && u <= 0x0d) || u == 0x20 || u == 0x85 || u == 0xa0 || u == 0x1680 || (0x2000
        <= u && u <= 0x200a) || u == 0x2028 || u == 0x2029 || u == 0x202f || u == 0x205f || u
        == 0x3000
}

pub open spec fn is_ascii_upper(c: char) -> bool {
    'A' <= c && c <= 'Z'
}

pub open spec fn is_ascii_lower(c: char) -> bool {
    'a' <= c && c <= 'z'
}

pub open spec fn is_ascii_digit(c: char) -> bool {
    '0' <= c && c <= '9'
}

pub open spec fn is_ascii_alnum(c: char) -> bool {
    is_ascii_upper(c) || is_ascii_lower(c) || is_ascii_digit(c)
}

pub open spec fn is_ascii_hex(c: char) -> bool {
    is_ascii_digit(c) || ('a' <= c && c <= 'f') || ('A' <= c && c <= 'F')
}

/// `char::to_ascii_lowercase`.
pub open spec fn lower(c: char) -> char {
    if is_ascii_upper(c) {
        ((c as u32) + 32) as char
    } else {
        c
    }
}

/// `char::to_ascii_uppercase`.
pub open spec fn upper(c: char) -> char {
    if is_ascii_lower(c) {
        ((c as u32) - 32) as char
    } else {
        c
    }
}

pub open spec fn lower_seq(s: Seq<char>) -> Seq<char> {
    s.map_values(|c: char| lower(c))
}

pub open spec fn upper_seq(s: Seq<char>) -> Seq<char> {
    s.map_values(|c: char| upper(c))
}

/// `str::eq_ignore_ascii_case`.
pub open spec fn eq_ignore_case(a: Seq<char>, b: Seq<char>) -> bool {
    a.len() == b.len() && forall|i: int| 0 <= i < a.len() ==> lower(#[trigger] a[i]) == lower(b[i])
}

pub fn is_ws_exec(c: char) -> (r: bool)
    ensures
        r == is_ws(c),
{
    let u = c as u32;
    (0x09 <= u && u <= 0x0d) || u == 0x20 || u == 0x85 || u == 0xa0 || u == 0x1680 || (0x2000
        <= u && u <= 0x200a) || u == 0x2028 || u == 0x2029 || u == 0x202f || u == 0x205f || u
        == 0x3000
}

pub fn lower_exec(c: char) -> (r: char)
    ensures
        r == lower(c),
{
    if 'A' <= c && c <= 'Z' {
        let u = c as u32 + 32;
        proof {
            assert(u < 0xd800);
        }
        char_from_u32_ascii(u)
    } else {
        c
    }
}

pub fn upper_exec(c: char) -> (r: char)
    ensures
        r == upper(c),
{
    if 'a' <= c && c <= 'z' {
        let u = c as u32 - 32;
        char_from_u32_ascii(u)
    } else {
        c
    }
}

/// The character with code point `u`; std's `char::from_u32`.
#[verifier::external_body]
fn char_from_u32(u: u32) -> (r: Option<char>)
    ensures
        r is Some <==> (u <= 0xd7ff || (0xe000 <= u && u <= 0x10ffff)),
        r matches Some(c) ==> c as u32 == u,
{
    char::from_u32(u)
}

/// A character is determined by its code point.
pub proof fn lemma_char_code(c: char, u: u32)
    requires
        c as u32 == u,
    ensures
        u as char == c,
{
    assert(c == (c as u32) as char);
}

/// The character with code point `u`, for `u` below the surrogate range.
pub fn char_from_u32_ascii(u: u32) -> (c: char)
    requires
        u < 0xd800,
    ensures
        c == u as char,
        c as u32 == u,
{
    let r = char_from_u32(u);
    match r {
        Some(c) => {
            proof { lemma_char_code(c, u); }
            c
        },
        None => {
            assert(false);
            ' '
        },
    }
}

pub fn is_ascii_digit_exec(c: char) -> (r: bool)
    ensures
        r == is_ascii_digit(c),
{
    '0' <= c && c <= '9'
}

pub fn is_ascii_alnum_exec(c: char) -> (r: bool)
    ensures
        r == is_ascii_alnum(c),
{
    ('A' <= c && c <= 'Z') || ('a' <= c && c <= 'z') || ('0' <= c && c <= '9')
}

pub fn is_ascii_hex_exec(c: char) -> (r: bool)
    ensures
        r == is_ascii_hex(c),
{
    ('0' <= c && c <= '9') || ('a' <= c && c <= 'f') || ('A' <= c && c <= 'F')
}

// ---------------------------------------------------------------------------
// Moving between strings and character vectors
// ---------------------------------------------------------------------------
/// Appends one character; std's `String::push`.
#[verifier::external_body]
pub(crate) fn push_char(s: &mut String, c: char)
    ensures
        final(s)@ == old(s)@.push(c),
{
    s.push(c)
}

/// The characters of `s`, in order.
pub fn chars_of(s: &str) -> (v: Vec<char>)
    ensures
        v@ == s@,
{
    let n = s.unicode_len();
    let mut v: Vec<char> = Vec::new();
    let mut i: usize = 0;
    while i < n
        invariant
            n == s@.len(),
            i <= n,
            v@ == s@.subrange(0, i as int),
        decreases n - i,
    {
        let c = s.get_char(i);
        v.push(c);
        i = i + 1;
        assert(v@ =~= s@.subrange(0, i as int));
    }
    assert(v@ =~= s@);
    v
}

/// The string made of `v[from..to]`.
pub fn string_of_range(v: &Vec<char>, from: usize, to: usize) -> (s: String)
    requires
        from <= to <= v@.len(),
    ensures
        s@ == v@.subrange(from as int, to as int),
{
    let mut s = String::new();
    let mut i = from;
    while i < to
        invariant
            from <= i <= to,
            to <= v@.len(),
            s@ == v@.subrange(from as int, i as int),
        decreases to - i,
    {
        push_char(&mut s, v[i]);
        i = i + 1;
        assert(s@ =~= v@.subrange(from as int, i as int));
    }
    s
}

/// The string made of all of `v`.
pub fn string_of(v: &Vec<char>) -> (s: String)
    ensures
        s@ == v@,
{
    let s = string_of_range(v, 0, v.len());
    assert(v@.subrange(0, v@.len() as int) =~= v@);
    s
}

/// An owned copy of `s`.
pub fn owned(s: &str) -> (r: String)
    ensures
        r@ == s@,
{
    s.to_owned()
}

/// `a` followed by `b`.
pub fn concat2(a: &str, b: &str) -> (r: String)
    ensures
        r@ == a@ + b@,
{
    let mut r = a.to_owned();
    r.append(b);
    r
}

/// `a`, `b` and `c` in sequence.
pub fn concat3(a: &str, b: &str, c: &str) -> (r: String)
    ensures
        r@ == a@ + b@ + c@,
{
    let mut r = a.to_owned();
    r.append(b);
    r.append(c);
    r
}

// ---------------------------------------------------------------------------
// Comparisons
// ---------------------------------------------------------------------------
/// String equality by content.
pub fn str_eq(a: &str, b: &str) -> (r: bool)
    ensures
        r == (a@ == b@),
{
    let x = chars_of(a);
    let y = chars_of(b);
    seq_eq(&x, &y)
}

pub fn seq_eq(x: &Vec<char>, y: &Vec<char>) -> (r: bool)
    ensures
        r == (x@ == y@),
{
    if x.len() != y.len() {
        return false;
    }
    let mut i: usize = 0;
    while i < x.len()
        invariant
            x@.len() == y@.len(),
            i <= x@.len(),
            forall|j: int| 0 <= j < i ==> x@[j] == y@[j],
        decreases x.len() - i,
    {
        if x[i] != y[i] {
            return false;
        }
        i = i + 1;
    }
    assert(x@ =~= y@);
    true
}

/// `str::eq_ignore_ascii_case`.
pub fn eq_ignore_ascii_case(a: &str, b: &str) -> (r: bool)
    ensures
        r == eq_ignore_case(a@, b@),
{
    let x = chars_of(a);
    let y = chars_of(b);
    if x.len() != y.len() {
        return false;
    }
    let mut i: usize = 0;
    while i < x.len()
        invariant
            x@ == a@,
            y@ == b@,
            x@.len() == y@.len(),
            i <= x@.len(),
            forall|j: int| 0 <= j < i ==> lower(#[trigger] x@[j]) == lower(y@[j]),
        decreases x.len() - i,
    {
        if lower_exec(x[i]) != lower_exec(y[i]) {
            return false;
        }
        i = i + 1;
    }
    true
}

/// Lexicographic order on code points, which is `String`'s `<`.
pub open spec fn seq_lt(a: Seq<char>, b: Seq<char>) -> bool
    decreases a.len(),
{
    if a.len() == 0 {
        b.len() > 0
    } else if b.len() == 0 {
        false
    } else if (a[0] as u32) < (b[0] as u32) {
        true
    } else if a[0] == b[0] {
        seq_lt(a.drop_first(), b.drop_first())
    } else {
        false
    }
}

/// `a < b` for strings.
pub fn str_lt(a: &str, b: &str) -> (r: bool)
    ensures
        r == seq_lt(a@, b@),
{
    let x = chars_of(a);
    let y = chars_of(b);
    let mut i: usize = 0;
    proof {
        assert(a@.subrange(0, a@.len() as int) =~= a@);
        assert(b@.subrange(0, b@.len() as int) =~= b@);
    }
    while i < x.len() && i < y.len()
        invariant
            i <= x@.len(),
            i <= y@.len(),
            x@ == a@,
            y@ == b@,
            forall|j: int| 0 <= j < i ==> x@[j] == y@[j],
            seq_lt(a@, b@) == seq_lt(a@.subrange(i as int, a@.len() as int), b@.subrange(
                i as int,
                b@.len() as int,
            )),
        decreases x.len() - i,
    {
        let cx = x[i];
        let cy = y[i];
        let ghost sa = a@.subrange(i as int, a@.len() as int);
        let ghost sb = b@.subrange(i as int, b@.len() as int);
        if (cx as u32) < (cy as u32) {
            return true;
        }
        if cx != cy {
            assert(sa[0] == cx && sb[0] == cy);
            return false;
        }
        assert(sa.drop_first() =~= a@.subrange(i + 1, a@.len() as int));
        assert(sb.drop_first() =~= b@.subrange(i + 1, b@.len() as int));
        i = i + 1;
    }
    i == x.len() && i < y.len()
}

/// Does `p` begin `s`?
pub fn starts_with(s: &str, p: &str) -> (r: bool)
    ensures
        r == p@.is_prefix_of(s@),
{
    let x = chars_of(s);
    let y = chars_of(p);
    vec_starts_with_at(&x, &y, 0)
}

/// Does `y` occur in `x` at position `at`?
pub fn vec_starts_with_at(x: &Vec<char>, y: &Vec<char>, at: usize) -> (r: bool)
    requires
        at <= x@.len(),
    ensures
        r == (at + y@.len() <= x@.len() && x@.subrange(at as int, at + y@.len()) == y@),
        at == 0 ==> r == y@.is_prefix_of(x@),
{
    if y.len() > x.len() - at {
        return false;
    }
    let mut i: usize = 0;
    while i < y.len()
        invariant
            at <= x@.len(),
            x@.len() <= usize::MAX,
            at + y@.len() <= x@.len(),
            i <= y@.len(),
            forall|j: int| 0 <= j < i ==> x@[at + j] == y@[j],
        decreases y.len() - i,
    {
        if x[at + i] != y[i] {
            assert(x@.subrange(at as int, at + y@.len())[i as int] != y@[i as int]);
            return false;
        }
        i = i + 1;
    }
    assert(x@.subrange(at as int, at + y@.len()) =~= y@);
    true
}

/// Does `p` end `s`?
pub fn ends_with(s: &str, p: &str) -> (r: bool)
    ensures
        r == p@.is_suffix_of(s@),
{
    let x = chars_of(s);
    let y = chars_of(p);
    if y.len() > x.len() {
        return false;
    }
    let r = vec_starts_with_at(&x, &y, x.len() - y.len());
    r
}

/// Does `c` occur in `s`?
pub fn contains_char(s: &str, c: char) -> (r: bool)
    ensures
        r == s@.contains(c),
{
    let x = chars_of(s);
    let mut i: usize = 0;
    while i < x.len()
        invariant
            x@ == s@,
            i <= x@.len(),
            forall|j: int| 0 <= j < i ==> x@[j] != c,
        decreases x.len() - i,
    {
        if x[i] == c {
            return true;
        }
        i = i + 1;
    }
    false
}

/// Does `needle` occur as a contiguous piece of `hay`?
pub open spec fn has_infix(hay: Seq<char>, needle: Seq<char>) -> bool {
    exists|i: int|
        0 <= i && i + needle.len() <= hay.len() && #[trigger] hay.subrange(i, i + needle.len())
            == needle
}

/// `str::contains` with a string pattern.
pub fn contains_str(s: &str, p: &str) -> (r: bool)
    ensures
        r == has_infix(s@, p@),
{
    let x = chars_of(s);
    let y = chars_of(p);
    if y.len() > x.len() {
        return false;
    }
    let last = x.len() - y.len();
    if y.len() == 0 {
        assert(s@.subrange(0int, 0int + p@.len()) =~= p@);
        return true;
    }
    let mut i: usize = 0;
    while i <= last
        invariant
            x@ == s@,
            y@ == p@,
            last + y@.len() == x@.len(),
            i <= last + 1,
            last < usize::MAX,
            forall|j: int| 0 <= j < i ==> #[trigger] x@.subrange(j, j + y@.len()) != y@,
        decreases last + 1 - i,
    {
        if vec_starts_with_at(&x, &y, i) {
            return true;
        }
        i = i + 1;
    }
    assert forall|j: int| 0 <= j && j + p@.len() <= s@.len() implies #[trigger] s@.subrange(
        j,
        j + p@.len(),
    ) != p@ by {}
    false
}

// ---------------------------------------------------------------------------
// Trimming
// ---------------------------------------------------------------------------
/// Number of leading whitespace characters.
pub open spec fn lead_ws(s: Seq<char>) -> nat
    decreases s.len(),
{
    if s.len() > 0 && is_ws(s[0]) {
        1 + lead_ws(s.drop_first())
    } else {
        0
    }
}

/// Number of trailing whitespace characters.
pub open spec fn trail_ws(s: Seq<char>) -> nat
    decreases s.len(),
{
    if s.len() > 0 && is_ws(s.last()) {
        1 + trail_ws(s.drop_last())
    } else {
        0
    }
}

pub open spec fn trim_start(s: Seq<char>) -> Seq<char> {
    s.subrange(lead_ws(s) as int, s.len() as int)
}

pub open spec fn trim_end(s: Seq<char>) -> Seq<char> {
    s.subrange(0, s.len() - trail_ws(s))
}

/// `str::trim`: leading and trailing Unicode whitespace removed.
pub open spec fn trim(s: Seq<char>) -> Seq<char> {
    trim_end(trim_start(s))
}

pub proof fn lemma_lead_ws_bound(s: Seq<char>)
    ensures
        lead_ws(s) <= s.len(),
        forall|j: int| 0 <= j < lead_ws(s) ==> is_ws(#[trigger] s[j]),
        lead_ws(s) < s.len() ==> !is_ws(s[lead_ws(s) as int]),
    decreases s.len(),
{
    if s.len() > 0 && is_ws(s[0]) {
        lemma_lead_ws_bound(s.drop_first());
        assert forall|j: int| 0 <= j < lead_ws(s) implies is_ws(#[trigger] s[j]) by {
            if j > 0 {
                assert(s[j] == s.drop_first()[j - 1]);
            }
        }
    }
}

pub proof fn lemma_trail_ws_bound(s: Seq<char>)
    ensures
        trail_ws(s) <= s.len(),
        forall|j: int| s.len() - trail_ws(s) <= j < s.len() ==> is_ws(#[trigger] s[j]),
        trail_ws(s) < s.len() ==> !is_ws(s[s.len() - trail_ws(s) - 1]),
    decreases s.len(),
{
    if s.len() > 0 && is_ws(s.last()) {
        lemma_trail_ws_bound(s.drop_last());
        assert forall|j: int| s.len() - trail_ws(s) <= j < s.len() implies is_ws(
            #[trigger] s[j],
        ) by {
            if j < s.len() - 1 {
                assert(s[j] == s.drop_last()[j]);
            }
        }
    }
}

/// Characteristic property of the leading whitespace count.
pub proof fn lemma_lead_ws_unique(s: Seq<char>, k: int)
    requires
        0 <= k <= s.len(),
        forall|j: int| 0 <= j < k ==> is_ws(#[trigger] s[j]),
        k < s.len() ==> !is_ws(s[k]),
    ensures
        lead_ws(s) == k,
    decreases s.len(),
{
    if k > 0 {
        assert(is_ws(s[0]));
        let t = s.drop_first();
        assert forall|j: int| 0 <= j < k - 1 implies is_ws(#[trigger] t[j]) by {
            assert(t[j] == s[j + 1]);
        }
        if k - 1 < t.len() {
            assert(t[k - 1] == s[k]);
        }
        lemma_lead_ws_unique(t, k - 1);
    } else if s.len() > 0 {
        assert(!is_ws(s[0]));
    }
}

/// Characteristic property of the trailing whitespace count.
pub proof fn lemma_trail_ws_unique(s: Seq<char>, k: int)
    requires
        0 <= k <= s.len(),
        forall|j: int| s.len() - k <= j < s.len() ==> is_ws(#[trigger] s[j]),
        k < s.len() ==> !is_ws(s[s.len() - k - 1]),
    ensures
        trail_ws(s) == k,
    decreases s.len(),
{
    if k > 0 {
        assert(is_ws(s[s.len() - 1]));
        let t = s.drop_last();
        assert forall|j: int| t.len() - (k - 1) <= j < t.len() implies is_ws(#[trigger] t[j]) by {
            assert(t[j] == s[j]);
        }
        if k - 1 < t.len() {
            assert(t[t.len() - (k - 1) - 1] == s[s.len() - k - 1]);
        }
        lemma_trail_ws_unique(t, k - 1);
    } else if s.len() > 0 {
        assert(!is_ws(s.last()));
    }
}

/// Bounds `(start, end)` of the trimmed part of `v`.
pub fn trim_bounds(v: &Vec<char>) -> (r: (usize, usize))
    ensures
        r.0 <= r.1 <= v@.len(),
        v@.subrange(r.0 as int, r.1 as int) == trim(v@),
{
    let n = v.len();
    let mut a: usize = 0;
    while a < n && is_ws_exec(v[a])
        invariant
            n == v@.len(),
            a <= n,
            forall|j: int| 0 <= j < a ==> is_ws(#[trigger] v@[j]),
        decreases n - a,
    {
        a = a + 1;
    }
    proof {
        lemma_lead_ws_unique(v@, a as int);
    }
    let mut b: usize = n;
    while b > a && is_ws_exec(v[b - 1])
        invariant
            n == v@.len(),
            a <= b <= n,
            forall|j: int| b <= j < n ==> is_ws(#[trigger] v@[j]),
        decreases b - a,
    {
        b = b - 1;
    }
    proof {
        let t = v@.subrange(a as int, n as int);
        assert(t == trim_start(v@));
        assert forall|j: int| t.len() - (n - b) <= j < t.len() implies is_ws(#[trigger] t[j]) by {
            assert(t[j] == v@[a + j]);
        }
        if (n - b) < t.len() {
            assert(t[t.len() - (n - b) - 1] == v@[b - 1]);
        }
        lemma_trail_ws_unique(t, (n - b) as int);
        assert(v@.subrange(a as int, b as int) =~= trim_end(t));
    }
    (a, b)
}

/// `str::trim`.
pub fn trim_str(s: &str) -> (r: &str)
    ensures
        r@ == trim(s@),
{
    let v = chars_of(s);
    let (a, b) = trim_bounds(&v);
    s.substring_char(a, b)
}

/// `str::trim`, as an owned string.
pub fn trim_string(s: &str) -> (r: String)
    ensures
        r@ == trim(s@),
{
    let v = chars_of(s);
    let (a, b) = trim_bounds(&v);
    string_of_range(&v, a, b)
}

/// `str::to_ascii_lowercase`.
/// `s` without its trailing `/` characters.
pub open spec fn strip_slashes(s: Seq<char>) -> Seq<char>
    decreases s.len(),
{
    if s.len() > 0 && s.last() == '/' {
        strip_slashes(s.drop_last())
    } else {
        s
    }
}

pub fn without_trailing_slashes(s: &str) -> (r: String)
    ensures
        r@ == strip_slashes(s@),
{
    let v = chars_of(s);
    let mut end = v.len();
    assert(v@.subrange(0, end as int) =~= v@);
    while end > 0 && v[end - 1] == '/'
        invariant
            end <= v@.len(),
            strip_slashes(s@) == strip_slashes(v@.subrange(0, end as int)),
            v@ == s@,
        decreases end,
    {
        assert(v@.subrange(0, end as int).drop_last() =~= v@.subrange(0, end - 1));
        end = end - 1;
    }
    string_of_range(&v, 0, end)
}

pub fn to_lower(s: &str) -> (r: String)
    ensures
        r@ == lower_seq(s@),
{
    let v = chars_of(s);
    let mut r = String::new();
    let mut i: usize = 0;
    while i < v.len()
        invariant
            v@ == s@,
            i <= v@.len(),
            r@ == lower_seq(s@.subrange(0, i as int)),
        decreases v.len() - i,
    {
        push_char(&mut r, lower_exec(v[i]));
        i = i + 1;
        assert(r@ =~= lower_seq(s@.subrange(0, i as int)));
    }
    assert(s@.subrange(0, s@.len() as int) =~= s@);
    r
}

// ---------------------------------------------------------------------------
// Numbers as text
// ---------------------------------------------------------------------------
pub open spec fn digit_char(d: nat) -> char {
    ((d + 48) as u32) as char
}

/// Decimal digits of `n`, no sign, no leading zeros.
pub open spec fn dec(n: nat) -> Seq<char>
    decreases n,
{
    if n < 10 {
        seq![digit_char(n)]
    } else {
        dec(n / 10).push(digit_char(n % 10))
    }
}

fn digit_exec(d: u64) -> (c: char)
    requires
        d < 10,
    ensures
        c == digit_char(d as nat),
{
    char_from_u32_ascii((d + 48) as u32)
}

/// Appends the decimal form of `n` to `s`.
pub fn push_dec(s: &mut String, n: u64)
    ensures
        final(s)@ == old(s)@ + dec(n as nat),
    decreases n,
{
    if n < 10 {
        push_char(s, digit_exec(n));
        assert(final(s)@ =~= old(s)@ + dec(n as nat)) by {
            assert(dec(n as nat) == seq![digit_char(n as nat)]);
        }
    } else {
        push_dec(s, n / 10);
        push_char(s, digit_exec(n % 10));
        assert(dec(n as nat) == dec((n / 10) as nat).push(digit_char((n % 10) as nat)));
        assert(final(s)@ =~= old(s)@ + dec(n as nat));
    }
}

/// Decimal form of a signed number.
pub open spec fn dec_int(v: int) -> Seq<char> {
    if v < 0 {
        "-"@ + dec((-v) as nat)
    } else {
        dec(v as nat)
    }
}

/// Appends the decimal form of a signed `v` to `s`.
pub fn push_dec_i64(s: &mut String, v: i64)
    ensures
        final(s)@ == old(s)@ + dec_int(v as int),
{
    if v < 0 {
        s.append("-");
        let mag: u64 = if v == i64::MIN {
            0x8000_0000_0000_0000u64
        } else {
            (-v) as u64
        };
        push_dec(s, mag);
        assert(final(s)@ =~= old(s)@ + dec_int(v as int));
    } else {
        push_dec(s, v as u64);
    }
}

/// `n.to_string()`.
pub fn dec_string(n: u64) -> (s: String)
    ensures
        s@ == dec(n as nat),
{
    let mut s = String::new();
    push_dec(&mut s, n);
    assert(s@ =~= dec(n as nat));
    s
}

/// Lower-case hexadecimal digit.
pub open spec fn hex_digit(d: nat) -> char {
    if d < 10 {
        digit_char(d)
    } else {
        ((d + 87) as u32) as char
    }
}

/// Upper-case hexadecimal digit.
pub open spec fn hex_digit_upper(d: nat) -> char {
    if d < 10 {
        digit_char(d)
    } else {
        ((d + 55) as u32) as char
    }
}

/// `format!("{b:02x}")`.
pub open spec fn hex_byte(b: u8) -> Seq<char> {
    seq![hex_digit((b / 16) as nat), hex_digit((b % 16) as nat)]
}

/// `format!("{b:02X}")`.
pub open spec fn hex_byte_upper(b: u8) -> Seq<char> {
    seq![hex_digit_upper((b / 16) as nat), hex_digit_upper((b % 16) as nat)]
}

/// Lower-case hex of every byte, in order.
pub open spec fn hex_seq(bs: Seq<u8>) -> Seq<char>
    decreases bs.len(),
{
    if bs.len() == 0 {
        Seq::empty()
    } else {
        hex_seq(bs.drop_last()) + hex_byte(bs.last())
    }
}

/// A lower-case hexadecimal digit.
pub open spec fn is_lower_hex(c: char) -> bool {
    ('0' <= c && c <= '9') || ('a' <= c && c <= 'f')
}

/// Lower-case hex is two lower-case hex digits per byte.
pub proof fn lemma_hex_seq_lower(bs: Seq<u8>)
    ensures
        hex_seq(bs).len() == 2 * bs.len(),
        forall|i: int| 0 <= i < hex_seq(bs).len() ==> is_lower_hex(#[trigger] hex_seq(bs)[i]),
    decreases bs.len(),
{
    if bs.len() > 0 {
        let p = bs.drop_last();
        lemma_hex_seq_lower(p);
        let b = bs.last();
        let hi = (b / 16) as nat;
        let lo = (b % 16) as nat;
        assert(hi < 16 && lo < 16);
        assert(is_lower_hex(hex_digit(hi))) by {
            if hi < 10 {
                assert(48 <= (hi + 48) as u32 <= 57);
            } else {
                assert(97 <= (hi + 87) as u32 <= 102);
            }
        }
        assert(is_lower_hex(hex_digit(lo))) by {
            if lo < 10 {
                assert(48 <= (lo + 48) as u32 <= 57);
            } else {
                assert(97 <= (lo + 87) as u32 <= 102);
            }
        }
        let s = hex_seq(bs);
        assert forall|i: int| 0 <= i < s.len() implies is_lower_hex(#[trigger] s[i]) by {
            if i < hex_seq(p).len() {
                assert(s[i] == hex_seq(p)[i]);
            }
        }
    }
}

pub fn hex_digit_exec(d: u8, upper_case: bool) -> (c: char)
    requires
        d < 16,
    ensures
        !upper_case ==> c == hex_digit(d as nat),
        upper_case ==> c == hex_digit_upper(d as nat),
{
    if d < 10 {
        char_from_u32_ascii((d + 48) as u32)
    } else if upper_case {
        char_from_u32_ascii((d + 55) as u32)
    } else {
        char_from_u32_ascii((d + 87) as u32)
    }
}

/// Appends `format!("{b:02x}")` (or `{b:02X}`) to `s`.
pub fn push_hex_byte(s: &mut String, b: u8, upper_case: bool)
    ensures
        !upper_case ==> final(s)@ == old(s)@ + hex_byte(b),
        upper_case ==> final(s)@ == old(s)@ + hex_byte_upper(b),
{
    push_char(s, hex_digit_exec(b / 16, upper_case));
    push_char(s, hex_digit_exec(b % 16, upper_case));
    assert(final(s)@ =~= old(s)@ + hex_byte(b) || upper_case);
    assert(final(s)@ =~= old(s)@ + hex_byte_upper(b) || !upper_case);
}

/// Lower-case hex encoding of `bytes`.
pub fn hex_string(bytes: &[u8]) -> (s: String)
    ensures
        s@ == hex_seq(bytes@),
        s@.len() == 2 * bytes@.len(),
{
    let mut s = String::new();
    let mut i: usize = 0;
    while i < bytes.len()
        invariant
            i <= bytes@.len(),
            s@ == hex_seq(bytes@.subrange(0, i as int)),
            s@.len() == 2 * i,
        decreases bytes.len() - i,
    {
        push_hex_byte(&mut s, bytes[i], false);
        proof {
            let t = bytes@.subrange(0, i + 1);
            assert(t.drop_last() =~= bytes@.subrange(0, i as int));
        }
        i = i + 1;
    }
    assert(bytes@.subrange(0, bytes@.len() as int) =~= bytes@);
    s
}

} // verus!

verus! {

// ---------------------------------------------------------------------------
// Splitting and decimal parsing
// ---------------------------------------------------------------------------
/// Index of the first `c` in `s`, if any.
pub open spec fn first_index(s: Seq<char>, c: char) -> Option<int>
    decreases s.len(),
{
    if s.len() == 0 {
        None
    } else if s[0] == c {
        Some(0)
    } else {
        match first_index(s.drop_first(), c) {
            Some(i) => Some(i + 1),
            None => None,
        }
    }
}

/// `str::split(c)`: the pieces between occurrences of `c`; never empty.
pub open spec fn split_char(s: Seq<char>, c: char) -> Seq<Seq<char>>
    decreases s.len(),
{
    match first_index(s, c) {
        None => seq![s],
        Some(i) => {
            if 0 <= i < s.len() {
                seq![s.subrange(0, i)] + split_char(s.subrange(i + 1, s.len() as int), c)
            } else {
                seq![s]
            }
        },
    }
}

pub proof fn lemma_first_index(s: Seq<char>, c: char)
    ensures
        first_index(s, c) matches Some(i) ==> 0 <= i < s.len() && s[i] == c && forall|j: int|
            0 <= j < i ==> s[j] != c,
        first_index(s, c) is None ==> forall|j: int| 0 <= j < s.len() ==> s[j] != c,
    decreases s.len(),
{
    if s.len() > 0 {
        lemma_first_index(s.drop_first(), c);
        if s[0] != c {
            assert forall|j: int| 0 < j < s.len() implies s[j] == s.drop_first()[j - 1] by {}
        }
    }
}

/// The characteristic property of `first_index`.
pub proof fn lemma_first_index_is(s: Seq<char>, c: char, k: int)
    requires
        0 <= k <= s.len(),
        forall|j: int| 0 <= j < k ==> s[j] != c,
        k < s.len() ==> s[k] == c,
    ensures
        first_index(s, c) == (if k < s.len() {
            Some(k)
        } else {
            None::<int>
        }),
    decreases s.len(),
{
    if s.len() > 0 && k > 0 {
        let t = s.drop_first();
        assert forall|j: int| 0 <= j < k - 1 implies t[j] != c by {
            assert(t[j] == s[j + 1]);
        }
        if k - 1 < t.len() {
            assert(t[k - 1] == s[k]);
        }
        lemma_first_index_is(t, c, k - 1);
    }
}

/// Position of the first `c` in `v[from..]`, or `v.len()`.
pub fn find_char_from(v: &Vec<char>, c: char, from: usize) -> (r: usize)
    requires
        from <= v@.len(),
    ensures
        from <= r <= v@.len(),
        first_index(v@.subrange(from as int, v@.len() as int), c) == (if r < v@.len() {
            Some(r - from)
        } else {
            None::<int>
        }),
{
    let n = v.len();
    let mut i = from;
    while i < n && v[i] != c
        invariant
            n == v@.len(),
            from <= i <= n,
            forall|j: int| from <= j < i ==> v@[j] != c,
        decreases n - i,
    {
        i = i + 1;
    }
    proof {
        let t = v@.subrange(from as int, n as int);
        assert forall|j: int| 0 <= j < i - from implies t[j] != c by {
            assert(t[j] == v@[j + from]);
        }
        lemma_first_index_is(t, c, i - from);
    }
    i
}

/// The pieces of `v[from..to]` split at `c`, as vectors.
pub fn split_range(v: &Vec<char>, from: usize, to: usize, c: char) -> (r: Vec<Vec<char>>)
    requires
        from <= to <= v@.len(),
    ensures
        r@.map_values(|p: Vec<char>| p@) == split_char(v@.subrange(from as int, to as int), c),
        r@.len() >= 1,
{
    let mut out: Vec<Vec<char>> = Vec::new();
    let mut start = from;
    let ghost whole = v@.subrange(from as int, to as int);
    loop
        invariant
            from <= start <= to,
            to <= v@.len(),
            whole == v@.subrange(from as int, to as int),
            out@.map_values(|p: Vec<char>| p@) + split_char(v@.subrange(start as int, to as int), c)
                == split_char(whole, c),
        decreases to - start,
    {
        let ghost rest = v@.subrange(start as int, to as int);
        let mut i = start;
        while i < to && v[i] != c
            invariant
                from <= start <= i <= to,
                to <= v@.len(),
                forall|j: int| start <= j < i ==> v@[j] != c,
            decreases to - i,
        {
            i = i + 1;
        }
        proof {
            assert forall|j: int| 0 <= j < i - start implies rest[j] != c by {
                assert(rest[j] == v@[j + start]);
            }
            if i < to {
                assert(rest[i - start] == v@[i as int]);
            }
            lemma_first_index_is(rest, c, i - start);
        }
        let mut piece: Vec<char> = Vec::new();
        let mut k = start;
        while k < i
            invariant
                start <= k <= i,
                i <= v@.len(),
                piece@ == v@.subrange(start as int, k as int),
            decreases i - k,
        {
            piece.push(v[k]);
            k = k + 1;
            assert(piece@ =~= v@.subrange(start as int, k as int));
        }
        let ghost before = out@.map_values(|p: Vec<char>| p@);
        out.push(piece);
        assert(out@.map_values(|p: Vec<char>| p@) =~= before.push(v@.subrange(start as int, i as int)));
        if i == to {
            proof {
                assert(split_char(rest, c) == seq![rest]);
                assert(rest =~= v@.subrange(start as int, i as int));
                assert(before.push(rest) =~= before + seq![rest]);
            }
            return out;
        }
        proof {
            assert(rest.subrange(0, i - start) =~= v@.subrange(start as int, i as int));
            assert(rest.subrange(i - start + 1, rest.len() as int) =~= v@.subrange(i + 1, to as int));
            assert(split_char(rest, c) == seq![v@.subrange(start as int, i as int)] + split_char(
                v@.subrange(i + 1, to as int),
                c,
            ));
            assert(before.push(v@.subrange(start as int, i as int)) + split_char(
                v@.subrange(i + 1, to as int),
                c,
            ) =~= before + split_char(rest, c));
        }
        start = i + 1;
    }
}

/// Value of a string of decimal digits.
pub open spec fn digits_value(s: Seq<char>) -> int
    decreases s.len(),
{
    if s.len() == 0 {
        0
    } else {
        digits_value(s.drop_last()) * 10 + (s.last() as u32 - 48)
    }
}

pub open spec fn all_digits(s: Seq<char>) -> bool {
    forall|i: int| 0 <= i < s.len() ==> is_ascii_digit(#[trigger] s[i])
}

/// `str::parse::<u64>`: an optional `+`, then at least one decimal digit,
/// with a value that fits.
pub open spec fn parse_u64_spec(s: Seq<char>) -> Option<u64> {
    let t = if s.len() > 0 && s[0] == '+' {
        s.drop_first()
    } else {
        s
    };
    if t.len() > 0 && all_digits(t) && digits_value(t) <= u64::MAX {
        Some(digits_value(t) as u64)
    } else {
        None
    }
}

proof fn lemma_digits_value_nonneg(s: Seq<char>)
    requires
        all_digits(s),
    ensures
        digits_value(s) >= 0,
    decreases s.len(),
{
    if s.len() > 0 {
        assert(all_digits(s.drop_last())) by {
            assert forall|i: int| 0 <= i < s.drop_last().len() implies is_ascii_digit(
                #[trigger] s.drop_last()[i],
            ) by {
                assert(s.drop_last()[i] == s[i]);
            }
        }
        lemma_digits_value_nonneg(s.drop_last());
        assert(is_ascii_digit(s[s.len() - 1]));
    }
}

/// Parses `v[from..to]` as `str::parse::<u64>` does.
pub fn parse_u64_range(v: &Vec<char>, from: usize, to: usize) -> (r: Option<u64>)
    requires
        from <= to <= v@.len(),
    ensures
        r == parse_u64_spec(v@.subrange(from as int, to as int)),
{
    let ghost s = v@.subrange(from as int, to as int);
    let mut a = from;
    if a < to && v[a] == '+' {
        a = a + 1;
    }
    let ghost t = v@.subrange(a as int, to as int);
    assert(t == (if s.len() > 0 && s[0] == '+' {
        s.drop_first()
    } else {
        s
    }));
    if a == to {
        return None;
    }
    let mut acc: u64 = 0;
    let mut i = a;
    while i < to
        invariant
            a <= i <= to,
            to <= v@.len(),
            t == v@.subrange(a as int, to as int),
            s == v@.subrange(from as int, to as int),
            t == (if s.len() > 0 && s[0] == '+' {
                s.drop_first()
            } else {
                s
            }),
            all_digits(v@.subrange(a as int, i as int)),
            acc == digits_value(v@.subrange(a as int, i as int)),
        decreases to - i,
    {
        let c = v[i];
        let ghost p = v@.subrange(a as int, (i + 1) as int);
        proof {
            assert(p.drop_last() =~= v@.subrange(a as int, i as int));
            assert(p =~= t.subrange(0, i - a + 1));
        }
        if !is_ascii_digit_exec(c) {
            proof {
                assert(t[i - a] == c);
            }
            return None;
        }
        let d = (c as u32 - 48) as u64;
        assert(all_digits(p)) by {
            assert forall|j: int| 0 <= j < p.len() implies is_ascii_digit(#[trigger] p[j]) by {
                if j < p.len() - 1 {
                    assert(p[j] == v@.subrange(a as int, i as int)[j]);
                }
            }
        }
        match acc.checked_mul(10) {
            Some(m) => match m.checked_add(d) {
                Some(x) => {
                    acc = x;
                },
                None => {
                    proof { lemma_value_grows(t, i - a + 1); }
                    return None;
                },
            },
            None => {
                proof { lemma_value_grows(t, i - a + 1); }
                return None;
            },
        }
        i = i + 1;
    }
    proof {
        assert(v@.subrange(a as int, i as int) =~= t);
    }
    Some(acc)
}

/// A digit string's value is at least that of any prefix.
proof fn lemma_value_grows(t: Seq<char>, k: int)
    requires
        0 <= k <= t.len(),
        all_digits(t.subrange(0, k)),
        digits_value(t.subrange(0, k)) > u64::MAX,
    ensures
        !(all_digits(t) && digits_value(t) <= u64::MAX),
    decreases t.len() - k,
{
    if k < t.len() && all_digits(t) {
        let p = t.subrange(0, k + 1);
        assert(p.drop_last() =~= t.subrange(0, k));
        assert(all_digits(p)) by {
            assert forall|j: int| 0 <= j < p.len() implies is_ascii_digit(#[trigger] p[j]) by {
                assert(p[j] == t[j]);
            }
        }
        assert(is_ascii_digit(t[k]));
        lemma_value_grows(t, k + 1);
    } else if k == t.len() {
        assert(t.subrange(0, k) =~= t);
    }
}

// ---------------------------------------------------------------------------
// Whitespace-separated words
// ---------------------------------------------------------------------------
/// Length of the leading run of non-whitespace characters.
pub open spec fn word_len(s: Seq<char>) -> nat
    decreases s.len(),
{
    if s.len() == 0 || is_ws(s[0]) {
        0
    } else {
        1 + word_len(s.drop_first())
    }
}

/// `str::split_whitespace`: the maximal runs of non-whitespace characters.
pub open spec fn words(s: Seq<char>) -> Seq<Seq<char>>
    decreases s.len(),
{
    if s.len() == 0 {
        Seq::empty()
    } else if is_ws(s[0]) {
        words(s.drop_first())
    } else {
        let k = word_len(s);
        if 0 < k <= s.len() {
            seq![s.subrange(0, k as int)] + words(s.subrange(k as int, s.len() as int))
        } else {
            seq![s]
        }
    }
}

proof fn lemma_word_len_is(s: Seq<char>, k: int)
    requires
        0 <= k <= s.len(),
        forall|j: int| 0 <= j < k ==> !is_ws(#[trigger] s[j]),
        k < s.len() ==> is_ws(s[k]),
    ensures
        word_len(s) == k,
    decreases s.len(),
{
    if s.len() > 0 && k > 0 {
        let t = s.drop_first();
        assert forall|j: int| 0 <= j < k - 1 implies !is_ws(#[trigger] t[j]) by {
            assert(t[j] == s[j + 1]);
        }
        if k - 1 < t.len() {
            assert(t[k - 1] == s[k]);
        }
        lemma_word_len_is(t, k - 1);
    }
}

/// The whitespace-separated words of `s`.
pub fn split_whitespace(s: &str) -> (r: Vec<String>)
    ensures
        views(r@) == words(s@),
{
    let v = chars_of(s);
    let n = v.len();
    let mut out: Vec<String> = Vec::new();
    let mut i: usize = 0;
    proof {
        assert(v@.subrange(0, n as int) =~= v@);
    }
    while i < n
        invariant
            n == v@.len(),
            v@ == s@,
            i <= n,
            views(out@) + words(v@.subrange(i as int, n as int)) == words(v@),
        decreases n - i,
    {
        let ghost rest = v@.subrange(i as int, n as int);
        if is_ws_exec(v[i]) {
            proof {
                assert(rest.drop_first() =~= v@.subrange(i + 1, n as int));
            }
            i = i + 1;
        } else {
            let mut j = i;
            while j < n && !is_ws_exec(v[j])
                invariant
                    i <= j <= n,
                    n == v@.len(),
                    forall|m: int| i <= m < j ==> !is_ws(#[trigger] v@[m]),
                decreases n - j,
            {
                j = j + 1;
            }
            proof {
                assert forall|m: int| 0 <= m < j - i implies !is_ws(#[trigger] rest[m]) by {
                    assert(rest[m] == v@[m + i]);
                }
                if j < n {
                    assert(rest[j - i] == v@[j as int]);
                }
                lemma_word_len_is(rest, j - i);
                assert(rest.subrange(0, j - i) =~= v@.subrange(i as int, j as int));
                assert(rest.subrange(j - i, rest.len() as int) =~= v@.subrange(j as int, n as int));
            }
            let w = string_of_range(&v, i, j);
            let ghost before = views(out@);
            out.push(w);
            proof {
                assert(views(out@) =~= before.push(v@.subrange(i as int, j as int)));
                assert(views(out@) + words(v@.subrange(j as int, n as int)) =~= before + words(rest));
            }
            i = j;
        }
    }
    proof {
        assert(v@.subrange(n as int, n as int) =~= Seq::<char>::empty());
        assert(views(out@) + Seq::<Seq<char>>::empty() =~= views(out@));
    }
    out
}

/// Of two different strings, one is below the other.
pub proof fn lemma_seq_lt_total(a: Seq<char>, b: Seq<char>)
    requires
        a != b,
    ensures
        seq_lt(a, b) || seq_lt(b, a),
    decreases a.len(),
{
    if a.len() > 0 && b.len() > 0 && a[0] == b[0] {
        if a.drop_first() == b.drop_first() {
            assert(a =~= seq![a[0]] + a.drop_first());
            assert(b =~= seq![b[0]] + b.drop_first());
        }
        lemma_seq_lt_total(a.drop_first(), b.drop_first());
    } else if a.len() == 0 && b.len() == 0 {
        assert(a =~= b);
    } else if a.len() > 0 && b.len() > 0 {
        if (a[0] as u32) == (b[0] as u32) {
            lemma_char_code(a[0], a[0] as u32);
            lemma_char_code(b[0], b[0] as u32);
        }
    }
}

} // verus!
