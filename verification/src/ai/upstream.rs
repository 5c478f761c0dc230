//! How the gateway reaches an inference replica. Plain HTTP is the default;
//! HTTPS and client certificates are opt-in.
use vstd::prelude::*;

use crate::text::{owned, trim, trim_str};
use vstd::string::*;

verus! {

#[derive(Debug, Clone, PartialEq, Eq)]
pub enum BackendTransport {
    Http,
    Https,
    Mtls { cert: String, key: String, ca: String },
}

/// A value is filled when something other than whitespace remains.
pub open spec fn filled_spec(value: Option<&str>) -> Option<Seq<char>> {
    match value {
        Some(v) => if trim(v@).len() > 0 {
            Some(trim(v@))
        } else {
            None
        },
        None => None,
    }
}

/// The trimmed value, or `None` when absent or blank.
pub fn filled(value: Option<&str>) -> (r: Option<&str>)
    ensures
        match r {
            Some(s) => filled_spec(value) == Some(s@),
            None => filled_spec(value) is None,
        },
{
    match value {
        Some(v) => {
            let t = trim_str(v);
            if t.unicode_len() > 0 {
                Some(t)
            } else {
                None
            }
        },
        None => None,
    }
}

pub fn backend_transport(tls: bool, cert: Option<&str>, key: Option<&str>, ca: Option<&str>) -> (r: Result<
    BackendTransport,
    &'static str,
>)
    ensures
        !tls && filled_spec(cert) is None && filled_spec(key) is None && filled_spec(ca) is None
            <==> r matches Ok(BackendTransport::Http),
        tls && filled_spec(cert) is None && filled_spec(key) is None && filled_spec(ca) is None
            <==> r matches Ok(BackendTransport::Https),
        (tls && filled_spec(cert) is Some && filled_spec(key) is Some && filled_spec(ca) is Some)
            <==> r is Ok && r->Ok_0 is Mtls,
        r matches Ok(BackendTransport::Mtls { cert: c, key: k, ca: a }) ==> Some(c@) == filled_spec(cert)
            && Some(k@) == filled_spec(key) && Some(a@) == filled_spec(ca),
        (!tls && filled_spec(cert) is Some && filled_spec(key) is Some && filled_spec(ca) is Some)
            ==> r == Err::<BackendTransport, &str>("FLUXVM_AI_BACKEND_TLS=1 is required with backend client certificates"),
        r is Err && !(!tls && filled_spec(cert) is Some && filled_spec(key) is Some && filled_spec(ca) is Some)
            ==> r == Err::<BackendTransport, &str>("set FLUXVM_AI_BACKEND_CLIENT_CERT, FLUXVM_AI_BACKEND_CLIENT_KEY, and FLUXVM_AI_BACKEND_CA together"),
{
    let c = filled(cert);
    let k = filled(key);
    let a = filled(ca);
    match (tls, c, k, a) {
        (false, None, None, None) => Ok(BackendTransport::Http),
        (true, None, None, None) => Ok(BackendTransport::Https),
        (true, Some(c), Some(k), Some(a)) => Ok(
            BackendTransport::Mtls { cert: owned(c), key: owned(k), ca: owned(a) },
        ),
        (false, Some(_), Some(_), Some(_)) => Err(
            "FLUXVM_AI_BACKEND_TLS=1 is required with backend client certificates",
        ),
        _ => Err(
            "set FLUXVM_AI_BACKEND_CLIENT_CERT, FLUXVM_AI_BACKEND_CLIENT_KEY, and FLUXVM_AI_BACKEND_CA together",
        ),
    }
}

/// `"{scheme}://{target}{path}"` with `http` or `https`.
pub fn upstream_origin(transport: &BackendTransport, target: &str, path: &str) -> (r: String)
    ensures
        r@ == (match transport {
            BackendTransport::Http => "http"@,
            _ => "https"@,
        }) + "://"@ + target@ + path@,
{
    let mut r = match transport {
        BackendTransport::Http => "http".to_owned(),
        _ => "https".to_owned(),
    };
    r.append("://");
    r.append(target);
    r.append(path);
    r
}

/// `"{scheme}://{target}{path}"` with `ws` or `wss`.
pub fn websocket_origin(transport: &BackendTransport, target: &str, path: &str) -> (r: String)
    ensures
        r@ == (match transport {
            BackendTransport::Http => "ws"@,
            _ => "wss"@,
        }) + "://"@ + target@ + path@,
{
    let mut r = match transport {
        BackendTransport::Http => "ws".to_owned(),
        _ => "wss".to_owned(),
    };
    r.append("://");
    r.append(target);
    r.append(path);
    r
}

} // verus!
