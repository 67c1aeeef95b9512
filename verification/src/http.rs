//! The decision logic of secure fetching: URL validation, the rate limiter,
//! blocked-address rules, MIME screening, header filtering and certificate
//! pinning.  The transport itself — sockets, DNS, TLS — is an external
//! collaborator driven from outside the library.

use vstd::prelude::*;
use crate::ext::{b64_of, base64_std, sha256_digest, sha256_of, url_scheme, url_scheme_of};
use crate::text::{chars_eq, contains_chars, contains_sub, lower_chars, lower_spec, str_to_chars};

verus! {

/// Failures of a fetch.
#[derive(Debug, Clone, Copy, PartialEq, Eq, Structural)]
pub enum FetchError {
    InvalidUrl,
    DnsBlocked,
    DnsRebindingDetected,
    InsecureScheme,
    NetworkError,
    ReadError,
    DangerousContentType,
    CertificateMismatch,
    RateLimitExceeded,
}

/// An HTTP response, reduced to plain values.
#[derive(Debug)]
pub struct HttpResponse {
    pub status: u16,
    pub headers: Vec<(Vec<char>, Vec<char>)>,
    pub body: Vec<u8>,
}

// ----------------------------------------------------------------------------
// URL validation
// ----------------------------------------------------------------------------
/// What `validate_url` decides, given the scheme the URL parser found.
pub open spec fn validate_url_spec(s: Seq<char>, enforce_https: bool) -> Result<(), FetchError> {
    match url_scheme_of(s) {
        None => Err(FetchError::InvalidUrl),
        Some(sch) => {
            if sch == "https"@ {
                Ok(())
            } else if sch == "http"@ && !enforce_https {
                Ok(())
            } else if sch == "http"@ {
                Err(FetchError::InsecureScheme)
            } else {
                Err(FetchError::InvalidUrl)
            }
        },
    }
}

/// Accept `https` always and `http` only when not enforcing HTTPS; any other
/// scheme, or a string that is no URL, is rejected.
pub fn validate_url(url: &str, enforce_https: bool) -> (r: Result<(), FetchError>)
    ensures
        r == validate_url_spec(url@, enforce_https),
{
    match url_scheme(url) {
        None => Err(FetchError::InvalidUrl),
        Some(sch) => {
            let s = str_to_chars(sch.as_str());
            if chars_eq(&s, "https") {
                Ok(())
            } else if chars_eq(&s, "http") && !enforce_https {
                Ok(())
            } else if chars_eq(&s, "http") {
                Err(FetchError::InsecureScheme)
            } else {
                Err(FetchError::InvalidUrl)
            }
        },
    }
}

// ----------------------------------------------------------------------------
// blocked addresses
// ----------------------------------------------------------------------------
/// A resolved network address, as plain values: four octets, or eight
/// 16-bit segments.
#[derive(Debug, Clone, Copy, PartialEq, Eq, Structural)]
pub enum IpModel {
    V4(u8, u8, u8, u8),
    V6(u16, u16, u16, u16, u16, u16, u16, u16),
}

/// Addresses a fetch must never touch: loopback, private and unique-local
/// ranges, link-local ranges, and multicast.
pub open spec fn blocked_ip_spec(ip: IpModel) -> bool {
    match ip {
        IpModel::V4(a, b, c, d) => (a == 127) || (a == 10) || (a == 172 && 16 <= b && b <= 31) || (
        a == 192 && b == 168) || (a == 169 && b == 254) || (224 <= a && a <= 239),
        IpModel::V6(s0, s1, s2, s3, s4, s5, s6, s7) => (s0 == 0 && s1 == 0 && s2 == 0 && s3 == 0
            && s4 == 0 && s5 == 0 && s6 == 0 && s7 == 1) || (0xfc00 <= s0 && s0 <= 0xfdff) || (
        0xfe80 <= s0 && s0 <= 0xfebf) || (0xff00 <= s0),
    }
}

/// Whether the address is loopback, private/unique-local, link-local or
/// multicast.
pub fn is_blocked_ip(ip: &IpModel) -> (r: bool)
    ensures
        r == blocked_ip_spec(*ip),
{
    match ip {
        IpModel::V4(a, b, _, _) => (*a == 127) || (*a == 10) || (*a == 172 && 16 <= *b && *b
            <= 31) || (*a == 192 && *b == 168) || (*a == 169 && *b == 254) || (224 <= *a && *a
            <= 239),
        IpModel::V6(s0, s1, s2, s3, s4, s5, s6, s7) => (*s0 == 0 && *s1 == 0 && *s2 == 0 && *s3
            == 0 && *s4 == 0 && *s5 == 0 && *s6 == 0 && *s7 == 1) || (0xfc00 <= *s0 && *s0
            <= 0xfdff) || (0xfe80 <= *s0 && *s0 <= 0xfebf) || (0xff00 <= *s0),
    }
}

// ----------------------------------------------------------------------------
// MIME screening
// ----------------------------------------------------------------------------
/// Content types that are never rendered.
pub open spec fn dangerous_mime_spec(m: Seq<char>) -> bool {
    contains_sub(m, "application/x-msdownload"@) || contains_sub(m, "application/octet-stream"@)
        || contains_sub(m, "application/x-sh"@) || contains_sub(m, "text/x-script"@)
}

/// Detect dangerous MIME types (the value is expected lower-cased already).
pub fn is_dangerous_mime(mime: &str) -> (r: bool)
    ensures
        r == dangerous_mime_spec(mime@),
{
    let m = str_to_chars(mime);
    contains_chars(&m, "application/x-msdownload") || contains_chars(&m, "application/octet-stream")
        || contains_chars(&m, "application/x-sh") || contains_chars(&m, "text/x-script")
}

// ----------------------------------------------------------------------------
// header filtering
// ----------------------------------------------------------------------------
/// The only response headers that pass through.
pub open spec fn allowed_header(k: Seq<char>) -> bool {
    lower_spec(k) == "content-type"@ || lower_spec(k) == "content-length"@ || lower_spec(k)
        == "server"@
}

/// The headers with an allowed name, in order.
pub open spec fn filter_headers_spec(s: Seq<(Seq<char>, Seq<char>)>) -> Seq<(Seq<char>, Seq<char>)>
    decreases s.len(),
{
    if s.len() == 0 {
        s
    } else {
        let rest = filter_headers_spec(s.drop_last());
        if allowed_header(s.last().0) {
            rest.push(s.last())
        } else {
            rest
        }
    }
}

pub open spec fn headers_view(v: Vec<(Vec<char>, Vec<char>)>) -> Seq<(Seq<char>, Seq<char>)> {
    v@.map_values(|p: (Vec<char>, Vec<char>)| (p.0@, p.1@))
}

/// Keep only the allowed headers of a response.
pub fn filter_headers(headers: Vec<(Vec<char>, Vec<char>)>) -> (r: Vec<(Vec<char>, Vec<char>)>)
    ensures
        headers_view(r) == filter_headers_spec(headers_view(headers)),
{
    let ghost all = headers_view(headers);
    let mut headers = headers;
    let mut r: Vec<(Vec<char>, Vec<char>)> = Vec::new();
    let mut i: usize = 0;
    while i < headers.len()
        invariant
            headers_view(headers) == all,
            0 <= i <= all.len(),
            headers_view(r) == filter_headers_spec(all.take(i as int)),
        decreases all.len() - i,
    {
        let lk = lower_chars(&headers[i].0);
        let keep = chars_eq(&lk, "content-type") || chars_eq(&lk, "content-length") || chars_eq(
            &lk,
            "server",
        );
        let ghost pre = headers_view(r);
        proof {
            assert(all.take(i + 1).drop_last() =~= all.take(i as int));
            assert(all.take(i + 1).last() == all[i as int]);
            assert(all[i as int].0 == headers@[i as int].0@);
        }
        if keep {
            let k = crate::text::clone_chars(&headers[i].0);
            let v = crate::text::clone_chars(&headers[i].1);
            r.push((k, v));
            proof {
                assert(headers_view(r) =~~= pre.push((headers@[i as int].0@, headers@[
                    i as int].1@)));
                assert(headers_view(r) =~~= filter_headers_spec(all.take(i + 1)));
            }
        }
        i = i + 1;
    }
    proof {
        assert(all.take(all.len() as int) =~= all);
    }
    r
}

// ----------------------------------------------------------------------------
// certificate pinning
// ----------------------------------------------------------------------------
/// Whether a certificate's SHA-256 digest, base64-encoded, equals the
/// expected fingerprint.
pub fn cert_matches(cert_der: &Vec<u8>, expected: &str) -> (r: bool)
    ensures
        r == (b64_of(sha256_of(cert_der@)) == expected@),
{
    let digest = sha256_digest(cert_der);
    let encoded = base64_std(&digest);
    let e = str_to_chars(encoded.as_str());
    chars_eq(&e, expected)
}

// ----------------------------------------------------------------------------
// rate limiting
// ----------------------------------------------------------------------------
/// Drop timestamps that fell out of the window.
pub open spec fn keep_recent(s: Seq<u64>, now: u64, window: u64) -> Seq<u64>
    decreases s.len(),
{
    if s.len() > 0 && now - s[0] > window {
        keep_recent(s.drop_first(), now, window)
    } else {
        s
    }
}

/// A sliding-window rate limiter over caller-supplied timestamps; owned by
/// one fetching component, never shared.
#[derive(Debug)]
pub struct RateLimiter {
    pub window: u64,
    pub max: usize,
    pub times: Vec<u64>,
}

impl RateLimiter {
    /// A limiter allowing `max` requests per `window` time units.
    pub fn new(window: u64, max: usize) -> (r: RateLimiter)
        ensures
            r.window == window,
            r.max == max,
            r.times@.len() == 0,
    {
        RateLimiter { window, max, times: Vec::new() }
    }

    /// Record a request at time `now`: timestamps older than the window are
    /// dropped; the request is allowed (and recorded) exactly when fewer
    /// than `max` remain.
    pub fn check(&mut self, now: u64) -> (r: Result<(), FetchError>)
        requires
            forall|j: int| 0 <= j < old(self).times@.len() ==> old(self).times@[j] <= now,
        ensures
            final(self).window == old(self).window,
            final(self).max == old(self).max,
            ({
                let kept = keep_recent(old(self).times@, now, old(self).window);
                &&& (r is Ok <==> kept.len() < old(self).max)
                &&& final(self).times@ == (if r is Ok {
                    kept.push(now)
                } else {
                    kept
                })
                &&& (r is Err ==> r == Err::<(), FetchError>(FetchError::RateLimitExceeded))
            }),
    {
        let ghost s0 = self.times@;
        while self.times.len() > 0 && now - self.times[0] > self.window
            invariant
                forall|j: int| 0 <= j < self.times@.len() ==> self.times@[j] <= now,
                keep_recent(self.times@, now, self.window) == keep_recent(s0, now, self.window),
                self.window == old(self).window,
                self.max == old(self).max,
                s0 == old(self).times@,
            decreases self.times@.len(),
        {
            let ghost pre = self.times@;
            self.times.remove(0);
            proof {
                assert(self.times@ =~= pre.drop_first());
            }
        }
        let kept_len = self.times.len();
        proof {
            assert(keep_recent(self.times@, now, self.window) == self.times@);
        }
        if kept_len >= self.max {
            Err(FetchError::RateLimitExceeded)
        } else {
            self.times.push(now);
            Ok(())
        }
    }
}

} // verus!
