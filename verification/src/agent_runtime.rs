//! Agent runtime proxy decisions: the upstream base URL, per-tenant agent
//! names, the session user id, URL encoding and skill name checks.
use vstd::prelude::*;

use crate::auth::UserRole;
use crate::text::{
    chars_of, hex_byte_upper, is_ascii_alnum, lower, owned, push_char, push_hex_byte, starts_with,
    str_eq, trim, trim_str,
};
use vstd::string::*;
use vstd::utf8::encode_utf8;

verus! {

/// Where the agent runtime lives and the token it expects.
#[derive(Debug, Clone)]
pub struct AgentRuntimeConfig {
    pub base_url: Option<String>,
    pub token: Option<String>,
}

/// A verified caller: subject, role and optional tenant.
#[derive(Debug, Clone)]
pub struct Claims {
    pub sub: String,
    pub role: UserRole,
    pub tenant: Option<String>,
}

/// `s` without trailing `/` characters.
pub open spec fn strip_slashes(s: Seq<char>) -> Seq<char>
    decreases s.len(),
{
    if s.len() > 0 && s.last() == '/' {
        strip_slashes(s.drop_last())
    } else {
        s
    }
}

/// The configured base URL, trimmed and without trailing slashes; none
/// when unset or blank.
pub fn agent_runtime_base_url(cfg: &AgentRuntimeConfig) -> (r: Option<String>)
    ensures
        match cfg.base_url {
            Some(b) if trim(b@).len() > 0 => r matches Some(s) && s@ == strip_slashes(trim(b@)),
            _ => r is None,
        },
{
    let b = match &cfg.base_url {
        None => {
            return None;
        },
        Some(b) => b,
    };
    let t = trim_str(b.as_str());
    if t.unicode_len() == 0 {
        return None;
    }
    let v = chars_of(t);
    let mut n = v.len();
    assert(v@.subrange(0, n as int) =~= v@);
    while n > 0 && v[n - 1] == '/'
        invariant
            n <= v@.len(),
            strip_slashes(v@) == strip_slashes(v@.subrange(0, n as int)),
        decreases n,
    {
        assert(v@.subrange(0, n as int).drop_last() =~= v@.subrange(0, n - 1));
        n = n - 1;
    }
    Some(crate::text::string_of_range(&v, 0, n))
}

/// The token: the environment's when set and non-empty, else the configured one.
pub fn upstream_token(env_token: Option<&str>, cfg: &AgentRuntimeConfig) -> (r: Option<String>)
    ensures
        match env_token {
            Some(t) if t@.len() > 0 => r matches Some(s) && s@ == t@,
            _ => match cfg.token {
                Some(c) => r matches Some(s) && s@ == c@,
                None => r is None,
            },
        },
{
    if let Some(t) = env_token {
        if t.unicode_len() > 0 {
            return Some(owned(t));
        }
    }
    match &cfg.token {
        Some(c) => Some(owned(c.as_str())),
        None => None,
    }
}

/// Characters that pass through URL encoding unchanged.
pub open spec fn unreserved(c: char) -> bool {
    is_ascii_alnum(c) || c == '-' || c == '_' || c == '.' || c == '~'
}

/// Each unreserved character kept, anything else as `%XX` of its low byte.
pub open spec fn url_encoded(s: Seq<char>) -> Seq<char>
    decreases s.len(),
{
    if s.len() == 0 {
        Seq::empty()
    } else {
        url_encoded(s.drop_last()) + if unreserved(s.last()) {
            seq![s.last()]
        } else {
            seq!['%'] + hex_byte_upper(((s.last() as u32) % 256) as u8)
        }
    }
}

pub fn urlencoding_encode(s: &str) -> (r: String)
    ensures
        r@ == url_encoded(s@),
{
    let v = chars_of(s);
    let mut out = String::new();
    let mut i: usize = 0;
    while i < v.len()
        invariant
            i <= v@.len(),
            v@ == s@,
            out@ == url_encoded(v@.subrange(0, i as int)),
        decreases v.len() - i,
    {
        let c = v[i];
        let ghost before = out@;
        if ('A' <= c && c <= 'Z') || ('a' <= c && c <= 'z') || ('0' <= c && c <= '9') || c == '-'
            || c == '_' || c == '.' || c == '~' {
            push_char(&mut out, c);
        } else {
            push_char(&mut out, '%');
            let b = ((c as u32) % 256) as u8;
            push_hex_byte(&mut out, b, true);
        }
        proof {
            let t = v@.subrange(0, i + 1);
            assert(t.drop_last() =~= v@.subrange(0, i as int));
            assert(t.last() == c);
            assert(out@ =~= url_encoded(t));
        }
        i = i + 1;
    }
    proof {
        assert(v@.subrange(0, v@.len() as int) =~= v@);
    }
    out
}

/// A name byte as kept: ASCII letters, digits, `-`, `_` and `.`, else `-`.
pub open spec fn name_char(b: u8) -> char {
    if (0x30 <= b <= 0x39) || (0x41 <= b <= 0x5a) || (0x61 <= b <= 0x7a) || b == 0x2d || b == 0x5f
        || b == 0x2e {
        b as char
    } else {
        '-'
    }
}

/// Sanitizing from `bs` on, with `out` built so far: leading characters
/// that are not letters or digits are dropped, the rest lower-cased, and
/// the name stops at `max` characters.
pub open spec fn sanitize_from(bs: Seq<u8>, max: usize, out: Seq<char>) -> Seq<char>
    decreases bs.len(),
{
    if bs.len() == 0 {
        out
    } else {
        let c = name_char(bs[0]);
        if out.len() == 0 && !is_ascii_alnum(c) {
            sanitize_from(bs.drop_first(), max, out)
        } else {
            let next = out.push(lower(c));
            if next.len() >= max {
                next
            } else {
                sanitize_from(bs.drop_first(), max, next)
            }
        }
    }
}

/// A JWT subject or tenant as an agent-runtime name component; `user` when
/// nothing is left.
pub open spec fn sanitized_component(raw: Seq<u8>, max: usize) -> Seq<char> {
    let o = sanitize_from(raw, max, Seq::empty());
    if o.len() == 0 {
        "user"@
    } else {
        o
    }
}

fn name_char_exec(b: u8) -> (c: char)
    ensures
        c == name_char(b),
{
    if (0x30 <= b && b <= 0x39) || (0x41 <= b && b <= 0x5a) || (0x61 <= b && b <= 0x7a) || b == 0x2d
        || b == 0x5f || b == 0x2e {
        b as char
    } else {
        '-'
    }
}

pub fn sanitize_name_component(raw: &str, max: usize) -> (r: String)
    ensures
        r@ == sanitized_component(encode_utf8(raw@), max),
{
    let bytes = raw.as_bytes();
    let mut out = String::new();
    let mut n_out: usize = 0;
    let mut i: usize = 0;
    let mut stopped = false;
    let ghost whole = bytes@;
    assert(whole.subrange(0, whole.len() as int) =~= whole);
    while i < bytes.len() && !stopped
        invariant
            i <= bytes@.len(),
            bytes@ == encode_utf8(raw@),
            whole == bytes@,
            n_out == out@.len(),
            n_out <= i,
            stopped ==> sanitize_from(whole, max, Seq::empty()) == out@ && out@.len() > 0,
            !stopped ==> (out@.len() < max || out@.len() == 0) && sanitize_from(
                whole,
                max,
                Seq::empty(),
            ) == sanitize_from(whole.subrange(i as int, whole.len() as int), max, out@),
        decreases bytes.len() - i,
    {
        let ghost rest = whole.subrange(i as int, whole.len() as int);
        assert(rest.drop_first() =~= whole.subrange(i + 1, whole.len() as int));
        let c = name_char_exec(bytes[i]);
        let alnum = ('A' <= c && c <= 'Z') || ('a' <= c && c <= 'z') || ('0' <= c && c <= '9');
        if n_out == 0 && !alnum {
            i = i + 1;
        } else {
            let lc = crate::text::lower_exec(c);
            push_char(&mut out, lc);
            n_out = n_out + 1;
            if n_out >= max {
                stopped = true;
            }
            i = i + 1;
        }
    }
    if !stopped {
        assert(whole.subrange(i as int, whole.len() as int).len() == 0);
    }
    if n_out == 0 {
        return owned("user");
    }
    out
}

/// `t.` and the tenant as a name component of at most 40 characters.
pub fn tenant_agent_prefix(tenant: &str) -> (r: String)
    ensures
        r@ == "t."@ + sanitized_component(encode_utf8(tenant@), 40),
{
    let mut r = owned("t.");
    let c = sanitize_name_component(tenant, 40);
    r.append(c.as_str());
    r
}

/// The session user id: the subject as a component of at most 32 characters.
pub fn session_user_id(claims: &Claims) -> (r: String)
    ensures
        r@ == sanitized_component(encode_utf8(claims.sub@), 32),
{
    sanitize_name_component(claims.sub.as_str(), 32)
}

/// The agent-runtime name prefix of a non-empty tenant.
pub open spec fn prefix_of(t: Seq<char>) -> Seq<char> {
    "t."@ + sanitized_component(encode_utf8(t), 40)
}

/// The tenant a non-admin caller is confined to, if any.
pub open spec fn confined_tenant(c: Claims) -> Option<Seq<char>> {
    if c.role == UserRole::Admin {
        None
    } else {
        match c.tenant {
            Some(t) if t@.len() > 0 => Some(t@),
            _ => None,
        }
    }
}

/// The name an agent gets upstream: admins and callers without a tenant
/// use the name as given; a tenant's callers get it under the tenant's
/// prefix, sanitized, an already present prefix not repeated.
pub open spec fn scoped_name(c: Claims, name: Seq<char>) -> Seq<char> {
    match confined_tenant(c) {
        None => name,
        Some(t) => {
            let p = prefix_of(t) + "."@;
            let bare = if p.is_prefix_of(name) {
                name.subrange(p.len() as int, name.len() as int)
            } else {
                name
            };
            p + sanitized_component(encode_utf8(bare), 40)
        },
    }
}

/// Whether a caller sees an agent: admins and callers without a tenant see
/// every agent, a tenant's callers only the agents under its prefix.
pub open spec fn visible(c: Claims, name: Seq<char>) -> bool {
    match confined_tenant(c) {
        None => true,
        Some(t) => (prefix_of(t) + "."@).is_prefix_of(name),
    }
}

pub fn scope_agent_name(claims: &Claims, name: &str) -> (r: String)
    ensures
        r@ == scoped_name(*claims, name@),
{
    if claims.role == UserRole::Admin {
        return owned(name);
    }
    let t = match &claims.tenant {
        Some(t) => t,
        None => {
            return owned(name);
        },
    };
    if t.unicode_len() == 0 {
        return owned(name);
    }
    let mut p = tenant_agent_prefix(t.as_str());
    p.append(".");
    let bare: &str = if starts_with(name, p.as_str()) {
        name.substring_char(p.unicode_len(), name.unicode_len())
    } else {
        name
    };
    let c = sanitize_name_component(bare, 40);
    p.append(c.as_str());
    p
}

/// Every agent a caller creates under its scoped name is one it can see.
pub proof fn lemma_scoped_names_are_visible(c: Claims, name: Seq<char>)
    ensures
        visible(c, scoped_name(c, name)),
{
    if let Some(t) = confined_tenant(c) {
        let p = prefix_of(t) + "."@;
        let bare = if p.is_prefix_of(name) {
            name.subrange(p.len() as int, name.len() as int)
        } else {
            name
        };
        let r = p + sanitized_component(encode_utf8(bare), 40);
        assert(r.subrange(0, p.len() as int) =~= p);
    }
}

/// Whether the caller sees the agent named `name`.
pub fn agent_visible(claims: &Claims, name: &str) -> (r: bool)
    ensures
        r == visible(*claims, name@),
{
    if claims.role == UserRole::Admin {
        return true;
    }
    let t = match &claims.tenant {
        Some(t) => t,
        None => {
            return true;
        },
    };
    if t.unicode_len() == 0 {
        return true;
    }
    let mut p = tenant_agent_prefix(t.as_str());
    p.append(".");
    starts_with(name, p.as_str())
}

/// The websocket form of an HTTP base URL.
pub fn http_base_to_ws(base: &str) -> (r: Result<String, String>)
    ensures
        "https://"@.is_prefix_of(base@) ==> (r matches Ok(s) && s@ == "wss://"@ + base@.subrange(8, base@.len() as int)),
        !"https://"@.is_prefix_of(base@) && "http://"@.is_prefix_of(base@) ==> (r matches Ok(s) && s@
            == "ws://"@ + base@.subrange(7, base@.len() as int)),
        !"https://"@.is_prefix_of(base@) && !"http://"@.is_prefix_of(base@) ==> (r matches Err(e) && e@
            == "unsupported agent-runtime URL scheme: "@ + base@),
{
    proof {
        reveal_strlit("https://");
        reveal_strlit("http://");
    }
    if starts_with(base, "https://") {
        let mut r = owned("wss://");
        r.append(base.substring_char(8, base.unicode_len()));
        return Ok(r);
    }
    if starts_with(base, "http://") {
        let mut r = owned("ws://");
        r.append(base.substring_char(7, base.unicode_len()));
        return Ok(r);
    }
    let mut e = owned("unsupported agent-runtime URL scheme: ");
    e.append(base);
    Err(e)
}

pub open spec fn skill_byte(b: u8) -> bool {
    (0x30 <= b <= 0x39) || (0x41 <= b <= 0x5a) || (0x61 <= b <= 0x7a) || b == 0x2d || b == 0x5f
        || b == 0x2e
}

/// A skill name: 1 to 80 bytes of ASCII letters, digits, `-`, `_` or `.`,
/// not starting with `.`; it goes into an upstream path.
pub open spec fn skill_name_ok(bs: Seq<u8>) -> bool {
    0 < bs.len() <= 80 && bs[0] != 0x2e && forall|i: int| 0 <= i < bs.len() ==> skill_byte(#[trigger] bs[i])
}

pub fn valid_skill_name(name: &str) -> (r: bool)
    ensures
        r == skill_name_ok(encode_utf8(name@)),
{
    let bs = name.as_bytes();
    if bs.len() == 0 || bs.len() > 80 || bs[0] == 0x2e {
        return false;
    }
    let mut i: usize = 0;
    while i < bs.len()
        invariant
            i <= bs@.len(),
            bs@ == encode_utf8(name@),
            forall|j: int| 0 <= j < i ==> skill_byte(#[trigger] bs@[j]),
        decreases bs.len() - i,
    {
        let b = bs[i];
        if !((0x30 <= b && b <= 0x39) || (0x41 <= b && b <= 0x5a) || (0x61 <= b && b <= 0x7a) || b
            == 0x2d || b == 0x5f || b == 0x2e) {
            return false;
        }
        i = i + 1;
    }
    true
}

/// Whether a caller may see a session: admins always; others when the
/// session's agent is one they see and the session belongs to no user or
/// to them.
pub open spec fn session_visible(c: Claims, agent: Option<Seq<char>>, user_id: Option<Seq<char>>) -> bool {
    c.role == UserRole::Admin || ((agent matches Some(a) && visible(c, a)) && match user_id {
        None => true,
        Some(u) => u == sanitized_component(encode_utf8(c.sub@), 32),
    })
}

/// The ownership check on a session record, given its `agent` and
/// `user_id` fields.
pub fn session_access(claims: &Claims, agent: Option<&str>, user_id: Option<&str>) -> (r: bool)
    ensures
        r == session_visible(
            *claims,
            match agent {
                Some(a) => Some(a@),
                None => None,
            },
            match user_id {
                Some(u) => Some(u@),
                None => None,
            },
        ),
{
    if claims.role == UserRole::Admin {
        return true;
    }
    let agent_ok = match agent {
        Some(a) => agent_visible(claims, a),
        None => false,
    };
    let user_ok = match user_id {
        None => true,
        Some(u) => {
            let uid = session_user_id(claims);
            str_eq(u, uid.as_str())
        },
    };
    agent_ok && user_ok
}

/// `k=v` pairs, each side URL-encoded, joined with `&`.
pub open spec fn query_text(pairs: Seq<(Seq<char>, Seq<char>)>) -> Seq<char>
    decreases pairs.len(),
{
    if pairs.len() == 0 {
        Seq::empty()
    } else {
        let last = url_encoded(pairs.last().0) + "="@ + url_encoded(pairs.last().1);
        if pairs.len() == 1 {
            last
        } else {
            query_text(pairs.drop_last()) + "&"@ + last
        }
    }
}

/// The upstream URL of a proxied call: base, path, and the query pairs in
/// the order given, when there are any.
pub fn upstream_url(base: &str, path: &str, query: &[(String, String)]) -> (r: String)
    ensures
        r@ == base@ + path@ + if query@.len() == 0 {
            Seq::<char>::empty()
        } else {
            "?"@ + query_text(query@.map_values(|p: (String, String)| (p.0@, p.1@)))
        },
{
    let mut url = owned(base);
    url.append(path);
    let ghost pv = query@.map_values(|p: (String, String)| (p.0@, p.1@));
    if query.len() > 0 {
        url.append("?");
        let ghost head = url@;
        let mut i: usize = 0;
        while i < query.len()
            invariant
                i <= query@.len(),
                pv == query@.map_values(|p: (String, String)| (p.0@, p.1@)),
                url@ == head + query_text(pv.subrange(0, i as int)),
            decreases query.len() - i,
        {
            if i > 0 {
                url.append("&");
            }
            let k = urlencoding_encode(query[i].0.as_str());
            let v = urlencoding_encode(query[i].1.as_str());
            url.append(k.as_str());
            url.append("=");
            url.append(v.as_str());
            proof {
                let t = pv.subrange(0, i + 1);
                assert(t.drop_last() =~= pv.subrange(0, i as int));
                assert(t.last() == (query@[i as int].0@, query@[i as int].1@));
                if i == 0 {
                    assert(query_text(pv.subrange(0, 0)) =~= Seq::<char>::empty());
                }
            }
            i = i + 1;
        }
        proof {
            assert(pv.subrange(0, query@.len() as int) =~= pv);
        }
    } else {
        proof {
            assert(url@ =~= base@ + path@ + Seq::<char>::empty());
        }
    }
    url
}

} // verus!
