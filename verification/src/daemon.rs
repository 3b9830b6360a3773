//! The HTTP service's access decisions: whether a request carries the access
//! key, and which rate-limit bucket it counts against.
use vstd::prelude::*;
use crate::resources::strip_prefix;
use crate::security::constant_time_eq;
use crate::text::{chars_of, occurs_at_exec, push_chars_range, push_str, string_of_range};

verus! {

broadcast use vstd::string::group_string_axioms;

/// The token of an `Authorization: Bearer TOKEN` header.
pub open spec fn bearer_token(header: Seq<char>) -> Option<Seq<char>> {
    strip_prefix(header, "Bearer "@)
}

/// The rate-limit bucket of a request: `k:` and the first 32 characters of
/// its bearer token; else `ip:` and the peer's address; else `ip:unknown`.
pub open spec fn rate_key(auth: Option<Seq<char>>, peer_ip: Option<Seq<char>>) -> Seq<char> {
    let token = match auth {
        Some(h) => bearer_token(h),
        None => None,
    };
    match token {
        Some(t) => "k:"@ + (if t.len() > 32 {
            t.take(32)
        } else {
            t
        }),
        None => match peer_ip {
            Some(ip) => "ip:"@ + ip,
            None => "ip:unknown"@,
        },
    }
}

/// Whether a request may pass: always when no (or an empty) access key is
/// configured; else only with a bearer token equal to the key.
pub open spec fn authorized(required: Option<Seq<char>>, auth: Option<Seq<char>>) -> bool {
    match required {
        Some(k) => if k.len() == 0 {
            true
        } else {
            match auth {
                Some(h) => bearer_token(h) == Some(k),
                None => false,
            }
        },
        None => true,
    }
}

pub open spec fn opt_text(o: Option<&str>) -> Option<Seq<char>> {
    match o {
        Some(s) => Some(s@),
        None => None,
    }
}

/// The token of a bearer header, computed.
fn bearer_token_exec(header: &str) -> (r: Option<String>)
    ensures
        match bearer_token(header@) {
            Some(t) => r matches Some(s) && s@ == t,
            None => r is None,
        },
{
    let cs = chars_of(header);
    let p = chars_of("Bearer ");
    if occurs_at_exec(&cs, &p, 0) {
        let t = string_of_range(&cs, p.len(), cs.len());
        assert(t@ =~= header@.skip(p@.len() as int));
        Some(t)
    } else {
        None
    }
}

/// The rate-limit bucket of a request (see [`rate_key`]). The token is cut
/// at 32 characters; header texts are ASCII (`HeaderValue::to_str` gives no
/// other), so that is also 32 bytes.
pub fn rate_limit_key(auth: Option<&str>, peer_ip: Option<&str>) -> (r: String)
    ensures
        r@ == rate_key(opt_text(auth), opt_text(peer_ip)),
{
    let token = match auth {
        Some(h) => bearer_token_exec(h),
        None => None,
    };
    let mut key = String::new();
    match token {
        Some(t) => {
            push_str(&mut key, "k:");
            let cs = chars_of(t.as_str());
            let n = if cs.len() > 32 {
                32
            } else {
                cs.len()
            };
            push_chars_range(&mut key, &cs, 0, n);
            assert(cs@.subrange(0, n as int) =~= if cs@.len() > 32 {
                cs@.take(32)
            } else {
                cs@
            });
        },
        None => match peer_ip {
            Some(ip) => {
                push_str(&mut key, "ip:");
                push_str(&mut key, ip);
            },
            None => {
                push_str(&mut key, "ip:unknown");
            },
        },
    }
    key
}

/// Whether a request may pass (see [`authorized`]). The token and the key
/// are compared byte by byte in time that depends only on their lengths.
pub fn is_authorized(required_key: Option<&str>, auth: Option<&str>) -> (r: bool)
    ensures
        r == authorized(opt_text(required_key), opt_text(auth)),
{
    broadcast use vstd::utf8::encode_utf8_decode_utf8;

    let key = match required_key {
        None => return true,
        Some(k) => k,
    };
    if key.is_empty() {
        return true;
    }
    let header = match auth {
        None => return false,
        Some(h) => h,
    };
    match bearer_token_exec(header) {
        None => false,
        Some(t) => {
            let tb = t.as_str().as_bytes();
            let kb = key.as_bytes();
            let same = constant_time_eq(tb, kb);
            proof {
                if tb@ == kb@ {
                    assert(vstd::utf8::decode_utf8(vstd::utf8::encode_utf8(t@)) == t@);
                    assert(vstd::utf8::decode_utf8(vstd::utf8::encode_utf8(key@)) == key@);
                }
            }
            same
        },
    }
}

} // verus!
