//! External identity providers: RFC 3986 percent-encoding, the PKCE
//! verifier and challenge, the OIDC authorization URL, nonce and role
//! checks, JWK selection and id-token verification.
use base64::Engine;
use rand::Rng;
use vstd::prelude::*;

use crate::auth::UserRole;
use crate::crypto::{sha256, sha256_spec};
use crate::text::{eq_ignore_ascii_case, eq_ignore_case, hex_byte_upper, owned, push_char, push_hex_byte, str_eq};
use vstd::string::*;
use vstd::utf8::encode_utf8;

verus! {

#[derive(Debug, Clone)]
pub enum AuthProviderType {
    Ldap,
    Oidc,
    Saml,
}

#[derive(Debug, Clone)]
pub struct LdapConfig {
    pub server_url: String,
    pub bind_dn: String,
    pub base_dn: String,
    pub user_filter: String,
    pub group_filter: Option<String>,
    pub use_tls: bool,
    pub username_attribute: String,
    pub email_attribute: Option<String>,
    /// LDAP group to role, in order.
    pub role_mapping: Vec<(String, String)>,
}

#[derive(Debug, Clone)]
pub struct OidcConfig {
    pub issuer_url: String,
    pub client_id: String,
    /// Never returned in responses.
    pub client_secret: String,
    pub redirect_uri: String,
    pub scopes: Vec<String>,
    pub username_claim: String,
    pub role_claim: Option<String>,
    /// OIDC role value to role, in order.
    pub role_mapping: Vec<(String, String)>,
}

#[derive(Debug, Clone)]
pub enum AuthProviderConfig {
    Ldap(LdapConfig),
    Oidc(OidcConfig),
}

#[derive(Debug, Clone)]
pub struct CreateAuthProviderRequest {
    pub name: String,
    pub provider_type: AuthProviderType,
    pub config: AuthProviderConfig,
    pub enabled: bool,
    pub default_role: String,
}

#[derive(Debug, Clone)]
pub struct OidcLoginUrl {
    pub url: String,
    pub state: String,
}

#[derive(Debug, Clone)]
pub struct OidcCallbackRequest {
    pub code: String,
    pub state: String,
}

/// The role a provider grants when nothing maps.
pub fn default_viewer() -> (r: String)
    ensures
        r@ == "viewer"@,
{
    owned("viewer")
}

/// RFC 3986 unreserved bytes.
pub open spec fn unreserved_byte(b: u8) -> bool {
    (0x41 <= b <= 0x5a) || (0x61 <= b <= 0x7a) || (0x30 <= b <= 0x39) || b == 0x2d || b == 0x5f
        || b == 0x2e || b == 0x7e
}

/// Each unreserved byte as itself, every other byte as `%XX`.
pub open spec fn percent_encoded(bs: Seq<u8>) -> Seq<char>
    decreases bs.len(),
{
    if bs.len() == 0 {
        Seq::empty()
    } else {
        percent_encoded(bs.drop_last()) + if unreserved_byte(bs.last()) {
            seq![bs.last() as char]
        } else {
            seq!['%'] + hex_byte_upper(bs.last())
        }
    }
}

/// RFC 3986 percent-encoding of a URL component.
pub fn percent_encode(s: &str) -> (r: String)
    ensures
        r@ == percent_encoded(encode_utf8(s@)),
{
    let bs = s.as_bytes();
    let mut out = String::new();
    let mut i: usize = 0;
    while i < bs.len()
        invariant
            i <= bs@.len(),
            bs@ == encode_utf8(s@),
            out@ == percent_encoded(bs@.subrange(0, i as int)),
        decreases bs.len() - i,
    {
        let b = bs[i];
        if (0x41 <= b && b <= 0x5a) || (0x61 <= b && b <= 0x7a) || (0x30 <= b && b <= 0x39) || b
            == 0x2d || b == 0x5f || b == 0x2e || b == 0x7e {
            push_char(&mut out, b as char);
        } else {
            push_char(&mut out, '%');
            push_hex_byte(&mut out, b, true);
        }
        proof {
            let t = bs@.subrange(0, i + 1);
            assert(t.drop_last() =~= bs@.subrange(0, i as int));
            assert(t.last() == b);
            assert(out@ =~= percent_encoded(t));
        }
        i = i + 1;
    }
    proof {
        assert(bs@.subrange(0, bs@.len() as int) =~= bs@);
    }
    out
}

/// The characters a PKCE code verifier is drawn from.
pub open spec fn verifier_char(c: char) -> bool {
    ('A' <= c && c <= 'Z') || ('a' <= c && c <= 'z') || ('0' <= c && c <= '9') || c == '-' || c
        == '.' || c == '_' || c == '~'
}

/// `rand::Rng::random_range(0..n)` on the thread-local generator: a random
/// index below `n`.
#[verifier::external_body]
fn random_below(n: usize) -> (r: usize)
    requires
        n > 0,
    ensures
        r < n,
{
    rand::rng().random_range(0..n)
}

/// The unreserved set in draw order: `A`..`Z`, `a`..`z`, `0`..`9`, then
/// `-`, `.`, `_`, `~`.
pub open spec fn verifier_alphabet() -> Seq<char> {
    Seq::new(
        66,
        |i: int|
            if i < 26 {
                (0x41 + i) as char
            } else if i < 52 {
                (0x61 + (i - 26)) as char
            } else if i < 62 {
                (0x30 + (i - 52)) as char
            } else if i == 62 {
                '-'
            } else if i == 63 {
                '.'
            } else if i == 64 {
                '_'
            } else {
                '~'
            },
    )
}

fn verifier_charset() -> (r: Vec<char>)
    ensures
        r@ == verifier_alphabet(),
{
    let mut v: Vec<char> = Vec::new();
    let mut c: u32 = 0x41;
    while c <= 0x5a
        invariant
            0x41 <= c <= 0x5b,
            v@.len() == c - 0x41,
            forall|i: int| 0 <= i < v@.len() ==> #[trigger] v@[i] == verifier_alphabet()[i],
        decreases 0x5b - c,
    {
        v.push(crate::text::char_from_u32_ascii(c));
        c = c + 1;
    }
    let mut c: u32 = 0x61;
    while c <= 0x7a
        invariant
            0x61 <= c <= 0x7b,
            v@.len() == 26 + c - 0x61,
            forall|i: int| 0 <= i < v@.len() ==> #[trigger] v@[i] == verifier_alphabet()[i],
        decreases 0x7b - c,
    {
        v.push(crate::text::char_from_u32_ascii(c));
        c = c + 1;
    }
    let mut c: u32 = 0x30;
    while c <= 0x39
        invariant
            0x30 <= c <= 0x3a,
            v@.len() == 52 + c - 0x30,
            forall|i: int| 0 <= i < v@.len() ==> #[trigger] v@[i] == verifier_alphabet()[i],
        decreases 0x3a - c,
    {
        v.push(crate::text::char_from_u32_ascii(c));
        c = c + 1;
    }
    v.push('-');
    v.push('.');
    v.push('_');
    v.push('~');
    assert(v@ =~= verifier_alphabet());
    v
}

/// Every character of the alphabet is unreserved.
pub proof fn lemma_alphabet_unreserved()
    ensures
        forall|i: int| 0 <= i < 66 ==> verifier_char(#[trigger] verifier_alphabet()[i]),
{
    assert forall|i: int| 0 <= i < 66 implies verifier_char(#[trigger] verifier_alphabet()[i]) by {
        if i < 26 {
            assert(0x41 <= (0x41 + i) as char as int <= 0x5a);
        } else if i < 52 {
            assert(0x61 <= (0x61 + (i - 26)) as char as int <= 0x7a);
        } else if i < 62 {
            assert(0x30 <= (0x30 + (i - 52)) as char as int <= 0x39);
        }
    }
}

/// The verifier that 64 draws from the alphabet spell: the character at
/// each drawn position, in order.
pub fn code_verifier_from(draws: &[usize]) -> (r: String)
    requires
        draws@.len() == 64,
        forall|i: int| 0 <= i < 64 ==> draws@[i] < 66,
    ensures
        r@ == draws@.map_values(|j: usize| verifier_alphabet()[j as int]),
{
    let set = verifier_charset();
    let mut out = String::new();
    let mut k: usize = 0;
    while k < 64
        invariant
            k <= 64,
            draws@.len() == 64,
            forall|i: int| 0 <= i < 64 ==> draws@[i] < 66,
            set@ == verifier_alphabet(),
            out@ == draws@.subrange(0, k as int).map_values(|j: usize| verifier_alphabet()[j as int]),
        decreases 64 - k,
    {
        let j = draws[k];
        push_char(&mut out, set[j]);
        assert(draws@.subrange(0, k + 1).map_values(|j: usize| verifier_alphabet()[j as int])
            =~= draws@.subrange(0, k as int).map_values(|j: usize| verifier_alphabet()[j as int]).push(
            verifier_alphabet()[j as int],
        ));
        k = k + 1;
    }
    assert(draws@.subrange(0, 64) =~= draws@);
    out
}

/// A PKCE code verifier: 64 characters drawn at random from the unreserved
/// set, each draw a uniform index into `verifier_alphabet`.
pub fn generate_code_verifier() -> (r: String)
    ensures
        r@.len() == 64,
        forall|i: int| 0 <= i < r@.len() ==> verifier_char(#[trigger] r@[i]),
        exists|draws: Seq<usize>|
            draws.len() == 64 && (forall|i: int| 0 <= i < 64 ==> #[trigger] draws[i] < 66) && r@
                == draws.map_values(|j: usize| verifier_alphabet()[j as int]),
{
    let mut draws: Vec<usize> = Vec::new();
    while draws.len() < 64
        invariant
            draws@.len() <= 64,
            forall|i: int| 0 <= i < draws@.len() ==> draws@[i] < 66,
        decreases 64 - draws@.len(),
    {
        draws.push(random_below(66));
    }
    let r = code_verifier_from(draws.as_slice());
    proof {
        lemma_alphabet_unreserved();
        assert forall|i: int| 0 <= i < r@.len() implies verifier_char(#[trigger] r@[i]) by {
            assert(r@[i] == verifier_alphabet()[draws@[i] as int]);
        }
        assert(forall|i: int| 0 <= i < 64 ==> #[trigger] draws@[i] < 66);
    }
    r
}

/// URL-safe base64 without padding.
pub uninterp spec fn base64_url_nopad(data: Seq<u8>) -> Seq<char>;

/// `base64::engine::general_purpose::URL_SAFE_NO_PAD.encode`: the encoding
/// is named, and its length is four characters per three bytes, two or
/// three for a partial group.
#[verifier::external_body]
fn encode_url_nopad(data: &[u8]) -> (r: String)
    requires
        data@.len() <= usize::MAX / 2,
    ensures
        r@ == base64_url_nopad(data@),
        r@.len() == 4 * (data@.len() / 3) + (if data@.len() % 3 == 0 {
            0int
        } else if data@.len() % 3 == 1 {
            2int
        } else {
            3int
        }),
{
    base64::engine::general_purpose::URL_SAFE_NO_PAD.encode(data)
}

/// The S256 code challenge of a verifier: URL-safe unpadded base64 of its
/// SHA-256.
pub fn pkce_challenge_s256(code_verifier: &str) -> (r: String)
    ensures
        r@ == base64_url_nopad(sha256_spec(encode_utf8(code_verifier@))),
        r@.len() == 43,
{
    let digest = sha256(code_verifier.as_bytes());
    encode_url_nopad(digest.as_slice())
}

/// `parts` joined with single spaces.
pub open spec fn joined_spaces(parts: Seq<Seq<char>>) -> Seq<char>
    decreases parts.len(),
{
    if parts.len() == 0 {
        Seq::empty()
    } else if parts.len() == 1 {
        parts[0]
    } else {
        joined_spaces(parts.drop_last()) + " "@ + parts.last()
    }
}

/// The authorization request URL of an OIDC login with PKCE.
pub fn oidc_authorize_url(
    authorization_endpoint: &str,
    client_id: &str,
    redirect_uri: &str,
    scopes: &[String],
    state: &str,
    code_challenge: &str,
    nonce: &str,
) -> (r: String)
    ensures
        r@ == authorization_endpoint@ + "?client_id="@ + percent_encoded(encode_utf8(client_id@))
            + "&redirect_uri="@ + percent_encoded(encode_utf8(redirect_uri@))
            + "&response_type=code&scope="@ + percent_encoded(
            encode_utf8(joined_spaces(crate::text::views(scopes@))),
        ) + "&state="@ + state@ + "&code_challenge="@ + percent_encoded(encode_utf8(code_challenge@))
            + "&code_challenge_method=S256&nonce="@ + percent_encoded(encode_utf8(nonce@)),
{
    let mut joined = String::new();
    let mut j: usize = 0;
    while j < scopes.len()
        invariant
            j <= scopes@.len(),
            joined@ == joined_spaces(crate::text::views(scopes@).subrange(0, j as int)),
        decreases scopes.len() - j,
    {
        if j > 0 {
            joined.append(" ");
        }
        joined.append(scopes[j].as_str());
        proof {
            let t = crate::text::views(scopes@).subrange(0, j + 1);
            assert(t.drop_last() =~= crate::text::views(scopes@).subrange(0, j as int));
            if j == 0 {
                assert(joined@ =~= t[0]);
            }
        }
        j = j + 1;
    }
    proof {
        assert(crate::text::views(scopes@).subrange(0, scopes@.len() as int) =~= crate::text::views(scopes@));
    }
    let mut url = owned(authorization_endpoint);
    url.append("?client_id=");
    url.append(percent_encode(client_id).as_str());
    url.append("&redirect_uri=");
    url.append(percent_encode(redirect_uri).as_str());
    url.append("&response_type=code&scope=");
    url.append(percent_encode(joined.as_str()).as_str());
    url.append("&state=");
    url.append(state);
    url.append("&code_challenge=");
    url.append(percent_encode(code_challenge).as_str());
    url.append("&code_challenge_method=S256&nonce=");
    url.append(percent_encode(nonce).as_str());
    url
}

/// The id token's `nonce` claim must be present and equal the expected one.
pub fn check_nonce(actual: Option<&str>, expected: &str) -> (r: Result<(), String>)
    ensures
        match actual {
            None => r matches Err(e) && e@ == "ID token missing nonce claim"@,
            Some(a) => if a@ == expected@ {
                r is Ok
            } else {
                r matches Err(e) && e@ == "ID token nonce mismatch"@
            },
        },
{
    match actual {
        None => Err(owned("ID token missing nonce claim")),
        Some(a) => if str_eq(a, expected) {
            Ok(())
        } else {
            Err(owned("ID token nonce mismatch"))
        },
    }
}

/// A provider's role name: `admin` or `user` in any case, anything else a viewer.
pub fn parse_role(role_str: &str) -> (r: UserRole)
    ensures
        r == (if eq_ignore_case(role_str@, "admin"@) {
            UserRole::Admin
        } else if eq_ignore_case(role_str@, "user"@) {
            UserRole::User
        } else {
            UserRole::Viewer
        }),
{
    if eq_ignore_ascii_case(role_str, "admin") {
        UserRole::Admin
    } else if eq_ignore_ascii_case(role_str, "user") {
        UserRole::User
    } else {
        UserRole::Viewer
    }
}

/// A JSON Web Key as the provider publishes it.
#[derive(Debug, Clone)]
pub struct Jwk {
    pub kty: String,
    pub kid: Option<String>,
    pub alg: Option<String>,
    pub n: Option<String>,
    pub e: Option<String>,
}

/// A key fits the algorithm when it names none or the same one.
pub open spec fn alg_fits(k: Jwk, alg: Seq<char>) -> bool {
    match k.alg {
        Some(a) => a@ == alg,
        None => true,
    }
}

/// Index of the first key with id `kid`.
pub open spec fn key_by_id(keys: Seq<Jwk>, kid: Seq<char>, i: int) -> Option<int>
    decreases keys.len() - i,
{
    if i < 0 || i >= keys.len() {
        None
    } else if keys[i].kid matches Some(k) && k@ == kid {
        Some(i)
    } else {
        key_by_id(keys, kid, i + 1)
    }
}

/// The RSA keys that fit the algorithm, as indices in order.
pub open spec fn rsa_fits(keys: Seq<Jwk>, alg: Seq<char>) -> Seq<int>
    decreases keys.len(),
{
    if keys.len() == 0 {
        Seq::empty()
    } else {
        rsa_fits(keys.drop_last(), alg) + if keys.last().kty@ == "RSA"@ && alg_fits(keys.last(), alg) {
            seq![keys.len() - 1]
        } else {
            Seq::empty()
        }
    }
}

proof fn lemma_rsa_fits_bounds(keys: Seq<Jwk>, alg: Seq<char>)
    ensures
        forall|j: int| 0 <= j < rsa_fits(keys, alg).len() ==> 0 <= #[trigger] rsa_fits(keys, alg)[j] < keys.len(),
    decreases keys.len(),
{
    if keys.len() > 0 {
        lemma_rsa_fits_bounds(keys.drop_last(), alg);
        let p = rsa_fits(keys.drop_last(), alg);
        assert forall|j: int| 0 <= j < rsa_fits(keys, alg).len() implies 0 <= #[trigger] rsa_fits(keys, alg)[j] < keys.len() by {
            if j < p.len() {
                assert(rsa_fits(keys, alg)[j] == p[j]);
            }
        }
    }
}

/// The key to verify an id token with. `alg` names the token's algorithm
/// when it is RS256, RS384 or RS512 and is none for any other. A key with
/// the token's `kid` is used when its algorithm fits; without one, the only
/// RSA key that fits.
pub fn select_jwk<'a>(keys: &'a [Jwk], kid: Option<&str>, alg: Option<&str>, alg_text: &str) -> (r: Result<&'a Jwk, String>)
    ensures
        match alg {
            None => r matches Err(e) && e@ == "Unsupported JWT algorithm: "@ + alg_text@,
            Some(a) => match (match kid {
                Some(k) => key_by_id(keys@, k@, 0),
                None => None,
            }) {
                Some(i) => if alg_fits(keys@[i], a@) {
                    r == Ok::<&Jwk, String>(&keys@[i])
                } else {
                    r matches Err(e) && e@ == "JWK kid '"@ + kid->0@ + "' alg mismatch"@
                },
                None => {
                    let fits = rsa_fits(keys@, a@);
                    if fits.len() == 1 {
                        r == Ok::<&Jwk, String>(&keys@[fits[0]])
                    } else if fits.len() == 0 {
                        r matches Err(e) && e@ == "No matching RSA key in JWKS"@
                    } else {
                        r matches Err(e) && e@ == "Multiple JWKS keys; JWT header must include kid"@
                    }
                },
            },
        },
{
    let a = match alg {
        None => {
            let mut e = owned("Unsupported JWT algorithm: ");
            e.append(alg_text);
            return Err(e);
        },
        Some(a) => a,
    };
    if let Some(k) = kid {
        let mut i: usize = 0;
        while i < keys.len()
            invariant
                i <= keys@.len(),
                alg == Some(a),
                kid == Some(k),
                key_by_id(keys@, k@, 0) == key_by_id(keys@, k@, i as int),
            decreases keys.len() - i,
        {
            let hit = match &keys[i].kid {
                Some(x) => str_eq(x.as_str(), k),
                None => false,
            };
            if hit {
                let fits = match &keys[i].alg {
                    Some(x) => str_eq(x.as_str(), a),
                    None => true,
                };
                if fits {
                    return Ok(&keys[i]);
                }
                let mut e = owned("JWK kid '");
                e.append(k);
                e.append("' alg mismatch");
                return Err(e);
            }
            i = i + 1;
        }
    }
    let mut found: Vec<usize> = Vec::new();
    let mut i: usize = 0;
    while i < keys.len()
        invariant
            i <= keys@.len(),
            found@.map_values(|x: usize| x as int) == rsa_fits(keys@.subrange(0, i as int), a@),
        decreases keys.len() - i,
    {
        let is_rsa = str_eq(keys[i].kty.as_str(), "RSA");
        let fits = match &keys[i].alg {
            Some(x) => str_eq(x.as_str(), a),
            None => true,
        };
        if is_rsa && fits {
            found.push(i);
        }
        proof {
            let t = keys@.subrange(0, i + 1);
            assert(t.drop_last() =~= keys@.subrange(0, i as int));
            assert(t.last() == keys@[i as int]);
            assert(found@.map_values(|x: usize| x as int) =~= rsa_fits(t, a@));
        }
        i = i + 1;
    }
    proof {
        assert(keys@.subrange(0, keys@.len() as int) =~= keys@);
        lemma_rsa_fits_bounds(keys@, a@);
    }
    if found.len() == 1 {
        let j = found[0];
        assert(rsa_fits(keys@, a@)[0] == j as int);
        Ok(&keys[j])
    } else if found.len() == 0 {
        Err(owned("No matching RSA key in JWKS"))
    } else {
        Err(owned("Multiple JWKS keys; JWT header must include kid"))
    }
}

/// URL-safe, padded base64 decoding of `text`; none when it is not valid.
pub uninterp spec fn base64_url_decoded(text: Seq<char>) -> Option<Seq<u8>>;

/// `base64::engine::general_purpose::URL_SAFE.decode`: the decoded bytes
/// are named; a refusal comes back as text after `Base64 decode failed: `.
#[verifier::external_body]
fn decode_url_padded(text: &str) -> (r: Result<Vec<u8>, String>)
    ensures
        match base64_url_decoded(text@) {
            Some(b) => r matches Ok(v) && v@ == b,
            None => r matches Err(e) && "Base64 decode failed: "@.is_prefix_of(e@),
        },
{
    base64::engine::general_purpose::URL_SAFE.decode(text).map_err(|e| format!("Base64 decode failed: {}", e))
}

/// An unpadded base64 segment with the `=` padding its length calls for.
pub open spec fn padded_segment(p: Seq<char>) -> Seq<char> {
    if p.len() % 4 == 2 {
        p + "=="@
    } else if p.len() % 4 == 3 {
        p + "="@
    } else {
        p
    }
}

/// The raw payload of an id token, before its claims are parsed: the
/// token must have three `.`-separated parts, and the middle one is
/// base64url-decoded.
pub fn id_token_payload(id_token: &str) -> (r: Result<Vec<u8>, String>)
    ensures
        crate::text::split_char(id_token@, '.').len() != 3 ==> (r matches Err(e) && e@
            == "ID token does not have 3 parts"@),
        crate::text::split_char(id_token@, '.').len() == 3 ==> match base64_url_decoded(
            padded_segment(crate::text::split_char(id_token@, '.')[1]),
        ) {
            Some(b) => r matches Ok(v) && v@ == b,
            None => r matches Err(e) && "Base64 decode failed: "@.is_prefix_of(e@),
        },
{
    let v = crate::text::chars_of(id_token);
    proof {
        assert(v@.subrange(0, v@.len() as int) =~= v@);
    }
    let parts = crate::text::split_range(&v, 0, v.len(), '.');
    if parts.len() != 3 {
        return Err(owned("ID token does not have 3 parts"));
    }
    let mut padded = crate::text::string_of(&parts[1]);
    let n = parts[1].len();
    proof {
        assert(parts@.map_values(|p: Vec<char>| p@)[1] == parts@[1]@);
    }
    if n % 4 == 2 {
        padded.append("==");
    } else if n % 4 == 3 {
        padded.append("=");
    }
    decode_url_padded(padded.as_str())
}

/// The role a role string names, as `parse_role` reads it.
pub open spec fn role_named(s: Seq<char>) -> UserRole {
    if eq_ignore_case(s, "admin"@) {
        UserRole::Admin
    } else if eq_ignore_case(s, "user"@) {
        UserRole::User
    } else {
        UserRole::Viewer
    }
}

/// What the OIDC callback checks before it talks to the provider: the
/// pending state is at most ten minutes old, and the provider is an
/// enabled OIDC one.
pub fn oidc_state_gate(state_age_secs: i64, is_oidc: bool, enabled: bool) -> (r: Result<(), (u16, String)>)
    ensures
        state_age_secs > 600 ==> (r matches Err((c, m)) && c == 400 && m@ == "State parameter expired"@),
        state_age_secs <= 600 && !is_oidc ==> (r matches Err((c, m)) && c == 400 && m@
            == "Provider is not OIDC"@),
        state_age_secs <= 600 && is_oidc && !enabled ==> (r matches Err((c, m)) && c == 403 && m@
            == "Auth provider is disabled"@),
        state_age_secs <= 600 && is_oidc && enabled ==> r is Ok,
{
    if state_age_secs > 600 {
        return Err((400, owned("State parameter expired")));
    }
    if !is_oidc {
        return Err((400, owned("Provider is not OIDC")));
    }
    if !enabled {
        return Err((403, owned("Auth provider is disabled")));
    }
    Ok(())
}

/// What provisioning says of a user signing in through a provider.
#[derive(Debug, Clone)]
pub enum Provisioning {
    /// The provider is not linked to provisioning: the claims decide.
    NotManaged,
    /// Provisioning allows the user with this role.
    Allow(UserRole),
    /// Provisioning refuses the user, for this reason.
    Deny(String),
}

/// The mapped role of the first mapping entry for `value`, if any.
pub open spec fn mapped_role(mapping: Seq<(String, String)>, value: Seq<char>) -> Option<Seq<char>>
    decreases mapping.len(),
{
    if mapping.len() == 0 {
        None
    } else if mapping[0].0@ == value {
        Some(mapping[0].1@)
    } else {
        mapped_role(mapping.drop_first(), value)
    }
}

/// The role the ID token's claims give: the mapping of the role claim's
/// value (empty when absent) when a role claim is configured and mapped,
/// else the provider's default role.
pub open spec fn claims_role(
    role_claim_configured: bool,
    role_value: Option<Seq<char>>,
    mapping: Seq<(String, String)>,
    default_role: Seq<char>,
) -> UserRole {
    if role_claim_configured {
        match mapped_role(
            mapping,
            match role_value {
                Some(v) => v,
                None => Seq::empty(),
            },
        ) {
            Some(m) => role_named(m),
            None => role_named(default_role),
        }
    } else {
        role_named(default_role)
    }
}

fn find_mapping<'a>(mapping: &'a [(String, String)], value: &str) -> (r: Option<&'a str>)
    ensures
        mapped_role(mapping@, value@) == (match r {
            Some(s) => Some(s@),
            None => None::<Seq<char>>,
        }),
{
    let mut i: usize = 0;
    assert(mapping@.subrange(0, mapping@.len() as int) =~= mapping@);
    while i < mapping.len()
        invariant
            i <= mapping@.len(),
            mapped_role(mapping@, value@) == mapped_role(mapping@.subrange(i as int, mapping@.len() as int), value@),
        decreases mapping.len() - i,
    {
        proof {
            let t = mapping@.subrange(i as int, mapping@.len() as int);
            assert(t.drop_first() =~= mapping@.subrange(i + 1, mapping@.len() as int));
        }
        if str_eq(mapping[i].0.as_str(), value) {
            return Some(mapping[i].1.as_str());
        }
        i = i + 1;
    }
    None
}

/// Who a verified ID token signs in: the username from the configured
/// claim (502 when the token lacks it), with the role its claims give,
/// unless provisioning decides the role or refuses the user (403).
pub fn oidc_login_decision(
    username: Option<&str>,
    username_claim: &str,
    role_claim_configured: bool,
    role_value: Option<&str>,
    role_mapping: &[(String, String)],
    default_role: &str,
    provisioning: Provisioning,
) -> (r: Result<(String, UserRole), (u16, String)>)
    ensures
        match username {
            None => (r matches Err((c, m)) && c == 502 && m@ == "ID token missing '"@ + username_claim@
                + "' claim"@),
            Some(u) => match provisioning {
                Provisioning::Deny(reason) => (r matches Err((c, m)) && c == 403 && m@ == reason@),
                Provisioning::Allow(role) => (r matches Ok((n, g)) && n@ == u@ && g == role),
                Provisioning::NotManaged => (r matches Ok((n, g)) && n@ == u@ && g == claims_role(
                    role_claim_configured,
                    match role_value {
                        Some(v) => Some(v@),
                        None => None,
                    },
                    role_mapping@,
                    default_role@,
                )),
            },
        },
{
    if username.is_none() {
        let mut m = owned("ID token missing '");
        m.append(username_claim);
        m.append("' claim");
        return Err((502, m));
    }
    let u = username.unwrap();
    let claimed = if role_claim_configured {
        let value = match role_value {
            Some(v) => v,
            None => "",
        };
        proof {
            reveal_strlit("");
            assert(value@ == (match role_value {
                Some(v) => v@,
                None => Seq::<char>::empty(),
            }));
        }
        let found = find_mapping(role_mapping, value);
        match found {
            Some(m) => parse_role(m),
            None => parse_role(default_role),
        }
    } else {
        parse_role(default_role)
    };
    match provisioning {
        Provisioning::NotManaged => Ok((owned(u), claimed)),
        Provisioning::Allow(role) => Ok((owned(u), role)),
        Provisioning::Deny(reason) => Err((403, reason)),
    }
}

/// The issuers an ID token may name: the configured issuer without its
/// trailing `/`, and the same with one `/` (identity providers differ).
pub fn accepted_issuers(issuer: &str) -> (r: (String, String))
    ensures
        r.0@ == crate::text::strip_slashes(issuer@),
        r.1@ == crate::text::strip_slashes(issuer@) + "/"@,
{
    let a = crate::text::without_trailing_slashes(issuer);
    let mut b = owned(a.as_str());
    b.append("/");
    (a, b)
}

/// Whether an ID token's signing algorithm is accepted: RS256, RS384 or
/// RS512 only.
pub fn id_token_alg_supported(alg: &str) -> (r: bool)
    ensures
        r == (alg@ == "RS256"@ || alg@ == "RS384"@ || alg@ == "RS512"@),
{
    str_eq(alg, "RS256") || str_eq(alg, "RS384") || str_eq(alg, "RS512")
}


/// A token's signing algorithm, as jsonwebtoken names it; carried through.
#[verifier::external_type_specification]
#[verifier::external_body]
pub struct ExAlgorithm(jsonwebtoken::Algorithm);

/// A key that verifies token signatures, as jsonwebtoken holds it; opaque.
#[verifier::external_type_specification]
#[verifier::external_body]
pub struct ExDecodingKey(jsonwebtoken::DecodingKey);

/// Whether jsonwebtoken accepts these base64url RSA components as a key.
pub uninterp spec fn rsa_components_accepted(modulus: Seq<char>, exponent: Seq<char>) -> bool;

/// `jsonwebtoken::DecodingKey::from_rsa_components`: whether the modulus
/// and exponent make a key is named; a refusal comes back as the error's
/// text. Nothing is said of the key, which Verus cannot see into.
#[verifier::external_body]
fn rsa_decoding_key(modulus: &str, exponent: &str) -> (r: Result<jsonwebtoken::DecodingKey, String>)
    ensures
        (r is Ok) == rsa_components_accepted(modulus@, exponent@),
{
    match jsonwebtoken::DecodingKey::from_rsa_components(modulus, exponent) {
        Ok(k) => Ok(k),
        Err(e) => Err(e.to_string()),
    }
}

/// The key to verify an id token with, from the provider's JWK: an RSA key
/// with both its modulus `n` and its exponent `e`.
pub fn decoding_key_from_jwk(jwk: &Jwk) -> (r: Result<jsonwebtoken::DecodingKey, String>)
    ensures
        jwk.kty@ != "RSA"@ ==> (r matches Err(m) && m@ == "Unsupported JWK kty '"@ + jwk.kty@ + "'"@),
        jwk.kty@ == "RSA"@ && jwk.n is None ==> (r matches Err(m) && m@ == "RSA JWK missing 'n'"@),
        jwk.kty@ == "RSA"@ && jwk.n is Some && jwk.e is None ==> (r matches Err(m) && m@ == "RSA JWK missing 'e'"@),
        jwk.kty@ == "RSA"@ && jwk.n is Some && jwk.e is Some ==> {
            &&& (r is Ok) == rsa_components_accepted(jwk.n->0@, jwk.e->0@)
            &&& r matches Err(m) ==> "Invalid RSA JWK: "@.is_prefix_of(m@)
        },
{
    if !str_eq(jwk.kty.as_str(), "RSA") {
        let mut m = owned("Unsupported JWK kty '");
        m.append(jwk.kty.as_str());
        m.append("'");
        return Err(m);
    }
    let n = match &jwk.n {
        Some(n) => n,
        None => {
            return Err(owned("RSA JWK missing 'n'"));
        },
    };
    let e = match &jwk.e {
        Some(e) => e,
        None => {
            return Err(owned("RSA JWK missing 'e'"));
        },
    };
    match rsa_decoding_key(n.as_str(), e.as_str()) {
        Ok(k) => Ok(k),
        Err(err) => {
            let mut m = owned("Invalid RSA JWK: ");
            m.append(err.as_str());
            proof {
                assert("Invalid RSA JWK: "@.is_prefix_of(m@)) by {
                    assert(m@.subrange(0, "Invalid RSA JWK: "@.len() as int) =~= "Invalid RSA JWK: "@);
                }
            }
            Err(m)
        },
    }
}

/// The claims of a token's payload as JSON text, as `serde_json` writes
/// the value they parse to.
pub uninterp spec fn jwt_claims_json(token: Seq<char>) -> Seq<char>;

/// `jsonwebtoken::decode` into a `serde_json::Value` under
/// `Validation::new(alg)` with the accepted issuers and the audience set
/// and the expiry checked (with the crate's default leeway): the claims come
/// back as JSON text (`Value::to_string`), a refusal as the error's text.
/// Whether a token passes depends on the clock as well as on the token and
/// the key, so success is not stated; what is stated of an accepted token:
/// its claims are those of its payload, a string `iss` is one of the two
/// issuers and a string `aud` is the audience. The signature check against
/// the key and the algorithm check are cryptography and an opaque type,
/// and are not stated.
#[verifier::external_body]
fn decode_claims(
    token: &str,
    key: &jsonwebtoken::DecodingKey,
    alg: jsonwebtoken::Algorithm,
    issuers: &(String, String),
    audience: &str,
) -> (r: Result<String, String>)
    ensures
        r matches Ok(c) ==> c@ == jwt_claims_json(token@),
        r matches Ok(c) ==> (json_object_str_member(c@, "iss"@) matches Some(Some(i)) ==> (i == issuers.0@ || i
            == issuers.1@)),
        r matches Ok(c) ==> (json_object_str_member(c@, "aud"@) matches Some(Some(a)) ==> a == audience@),
{
    let mut validation = jsonwebtoken::Validation::new(alg);
    validation.set_issuer(&[issuers.0.as_str(), issuers.1.as_str()]);
    validation.set_audience(&[audience]);
    validation.validate_exp = true;
    match jsonwebtoken::decode::<serde_json::Value>(token, key, &validation) {
        Ok(data) => Ok(data.claims.to_string()),
        Err(e) => Err(e.to_string()),
    }
}

/// The string member `name` of the JSON object that `text` holds: none
/// when `text` is not a JSON object; inside, none when the member is
/// missing or not a string.
pub uninterp spec fn json_object_str_member(text: Seq<char>, name: Seq<char>) -> Option<Option<Seq<char>>>;

/// `serde_json::from_str::<serde_json::Value>`, then `Value::as_object`,
/// `Map::get` and `Value::as_str`: the answer is named, not stated.
#[verifier::external_body]
fn object_str_member(text: &str, name: &str) -> (r: Option<Option<String>>)
    ensures
        match json_object_str_member(text@, name@) {
            None => r is None,
            Some(None) => r == Some(None::<String>),
            Some(Some(v)) => r matches Some(Some(s)) && s@ == v,
        },
{
    match serde_json::from_str::<serde_json::Value>(text) {
        Ok(v) => v.as_object().map(|m| m.get(name).and_then(|x| x.as_str()).map(|x| x.to_string())),
        Err(_) => None,
    }
}

/// What a verified id token's claims come to: a refused token is reported
/// as such; the claims must be a JSON object whose `nonce` is the expected
/// one, and are then handed back as they came.
pub fn checked_claims(decoded: Result<String, String>, expected_nonce: &str) -> (r: Result<String, String>)
    ensures
        match decoded {
            Err(e) => r matches Err(m) && m@ == "ID token verification failed: "@ + e@,
            Ok(c) => match json_object_str_member(c@, "nonce"@) {
                None => r matches Err(m) && m@ == "ID token payload is not a JSON object"@,
                Some(None) => r matches Err(m) && m@ == "ID token missing nonce claim"@,
                Some(Some(n)) => if n == expected_nonce@ {
                    r matches Ok(k) && k@ == c@
                } else {
                    r matches Err(m) && m@ == "ID token nonce mismatch"@
                },
            },
        },
{
    match decoded {
        Err(e) => {
            let mut m = owned("ID token verification failed: ");
            m.append(e.as_str());
            Err(m)
        },
        Ok(c) => match object_str_member(c.as_str(), "nonce") {
            None => Err(owned("ID token payload is not a JSON object")),
            Some(n) => {
                let nonce = match &n {
                    Some(x) => Some(x.as_str()),
                    None => None,
                };
                match check_nonce(nonce, expected_nonce) {
                    Ok(()) => Ok(c),
                    Err(m) => Err(m),
                }
            },
        },
    }
}

/// Verifies an id token with the provider's key: signature, algorithm,
/// expiry, issuer (with or without a trailing `/`) and audience (the
/// client id) through jsonwebtoken, then the nonce. The claims come back
/// as JSON text: those of the token's payload, with a string issuer among
/// the accepted forms, a string audience equal to the client id, and the
/// expected nonce. Whether jsonwebtoken accepts the token also rests on the
/// clock, so success is not promised; a token it accepts is held to the
/// nonce as `checked_claims` says.
pub fn verify_id_token_with_key(
    id_token: &str,
    issuer: &str,
    client_id: &str,
    expected_nonce: &str,
    alg: jsonwebtoken::Algorithm,
    key: &jsonwebtoken::DecodingKey,
) -> (r: Result<String, String>)
    ensures
        r matches Ok(c) ==> c@ == jwt_claims_json(id_token@),
        r matches Ok(c) ==> json_object_str_member(c@, "nonce"@) == Some(Some(expected_nonce@)),
        r matches Ok(c) ==> (json_object_str_member(c@, "iss"@) matches Some(Some(i)) ==> (i
            == crate::text::strip_slashes(issuer@) || i == crate::text::strip_slashes(issuer@) + "/"@)),
        r matches Ok(c) ==> (json_object_str_member(c@, "aud"@) matches Some(Some(a)) ==> a == client_id@),
        r matches Err(m) ==> ("ID token verification failed: "@.is_prefix_of(m@) || m@
            == "ID token payload is not a JSON object"@ || m@ == "ID token missing nonce claim"@ || m@
            == "ID token nonce mismatch"@),
{
    let issuers = accepted_issuers(issuer);
    let decoded = decode_claims(id_token, key, alg, &issuers, client_id);
    let ghost d = decoded;
    let r = checked_claims(decoded, expected_nonce);
    proof {
        let p = "ID token verification failed: "@;
        if d is Err && r is Err {
            assert(r->Err_0@.subrange(0, p.len() as int) =~= p);
        }
    }
    r
}

} // verus!
