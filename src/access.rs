//! The access decisions made in front of the handlers: the client address,
//! the action and resource a request is checked as, the bucket policy's
//! verdict, and the expiry of presigned URLs.

use vstd::prelude::*;
use crate::policy::policy_allows;
use crate::json::json_of;
use crate::routes::Method;
use crate::text::{chars_of, split_chars, split_on, string_of};
use crate::wal::trim_blank;

verus! {

/// The client address: `X-Real-IP` if sent, else the first entry of
/// `X-Forwarded-For`, trimmed; else the loopback address.
pub open spec fn client_ip_spec(real_ip: Option<Seq<char>>, forwarded_for: Option<Seq<char>>) -> Seq<char> {
    match real_ip {
        Some(v) => trim_blank(split_on(v, ',')[0]),
        None => match forwarded_for {
            Some(v) => trim_blank(split_on(v, ',')[0]),
            None => "127.0.0.1"@,
        },
    }
}

fn first_entry(v: &str) -> (r: String)
    ensures
        r@ == trim_blank(split_on(v@, ',')[0]),
{
    let c = chars_of(v);
    let parts = split_chars(c.as_slice(), ',');
    proof {
        crate::text::lemma_split_nonempty(v@, ',');
    }
    let t = crate::wal::trim_chars(parts[0].as_slice());
    string_of(t.as_slice())
}

pub fn client_ip(real_ip: Option<&str>, forwarded_for: Option<&str>) -> (r: String)
    ensures
        r@ == client_ip_spec(
            match real_ip {
                Some(v) => Some(v@),
                None => None,
            },
            match forwarded_for {
                Some(v) => Some(v@),
                None => None,
            },
        ),
{
    match real_ip {
        Some(v) => first_entry(v),
        None => match forwarded_for {
            Some(v) => first_entry(v),
            None => "127.0.0.1".to_owned(),
        },
    }
}

/// The action a request is checked as: reads are `s3:GetObject`, writes
/// `s3:PutObject`, deletes `s3:DeleteObject`, anything else `s3:*`.
pub open spec fn action_spec(m: Method) -> Seq<char> {
    match m {
        Method::Get | Method::Head => "s3:GetObject"@,
        Method::Put => "s3:PutObject"@,
        Method::Delete => "s3:DeleteObject"@,
        _ => "s3:*"@,
    }
}

pub fn action_for(m: Method) -> (r: String)
    ensures
        r@ == action_spec(m),
{
    match m {
        Method::Get | Method::Head => "s3:GetObject".to_owned(),
        Method::Put => "s3:PutObject".to_owned(),
        Method::Delete => "s3:DeleteObject".to_owned(),
        _ => "s3:*".to_owned(),
    }
}

/// The resource a request on `key` of `bucket` is checked as:
/// `arn:aws:s3:::<bucket>/<key>*`.
pub open spec fn resource_spec(bucket: Seq<char>, key: Seq<char>) -> Seq<char> {
    "arn:aws:s3:::"@ + bucket + seq!['/'] + key + seq!['*']
}

pub fn policy_resource(bucket: &str, key: &str) -> (r: String)
    ensures
        r@ == resource_spec(bucket@, key@),
{
    let mut out = chars_of("arn:aws:s3:::");
    let b = chars_of(bucket);
    let k = chars_of(key);
    let mut i: usize = 0;
    let ghost start = out@;
    while i < b.len()
        invariant
            i <= b@.len(),
            out@ == start + b@.subrange(0, i as int),
        decreases b.len() - i,
    {
        out.push(b[i]);
        assert(b@.subrange(0, i + 1) =~= b@.subrange(0, i as int).push(b@[i as int]));
        i = i + 1;
    }
    out.push('/');
    let ghost mid = out@;
    let mut j: usize = 0;
    while j < k.len()
        invariant
            j <= k@.len(),
            out@ == mid + k@.subrange(0, j as int),
        decreases k.len() - j,
    {
        out.push(k[j]);
        assert(k@.subrange(0, j + 1) =~= k@.subrange(0, j as int).push(k@[j as int]));
        j = j + 1;
    }
    out.push('*');
    assert(b@.subrange(0, b@.len() as int) =~= b@);
    assert(k@.subrange(0, k@.len() as int) =~= k@);
    assert(out@ =~= resource_spec(bucket@, key@));
    string_of(out.as_slice())
}

/// The bucket policy's verdict on an authenticated request: with no policy
/// set, or one that does not parse (treated as absent), the request passes;
/// otherwise the policy decides.
pub fn authorize(policy: Option<&str>, action: &str, resource: &str, principal: &str, client_ip: Option<&str>) -> (r: bool)
    ensures
        r == match policy {
            None => true,
            Some(p) => match json_of(p@) {
                Some(doc) => policy_allows(
                    doc,
                    action@,
                    resource@,
                    principal@,
                    match client_ip {
                        Some(ip) => Some(ip@),
                        None => None,
                    },
                ),
                None => true,
            },
        },
{
    match policy {
        None => true,
        Some(p) => match crate::json::parse_json(p) {
            None => true,
            Some(doc) => {
                let a = chars_of(action);
                let res = chars_of(resource);
                let pr = chars_of(principal);
                match client_ip {
                    Some(ip) => {
                        let ipc = chars_of(ip);
                        crate::policy::evaluate_policy(&doc, a.as_slice(), res.as_slice(), pr.as_slice(), Some(ipc.as_slice()))
                    },
                    None => crate::policy::evaluate_policy(&doc, a.as_slice(), res.as_slice(), pr.as_slice(), None),
                }
            },
        },
    }
}

/// A presigned URL has expired when more than `expires_secs` seconds have
/// passed since it was signed.
pub fn presigned_expired(signed_at_secs: i64, now_secs: i64, expires_secs: i64) -> (r: bool)
    ensures
        r == (now_secs - signed_at_secs > expires_secs),
{
    let elapsed: i128 = now_secs as i128 - signed_at_secs as i128;
    elapsed > expires_secs as i128
}

/// What a presigned URL's parameters decide.
#[derive(Debug, PartialEq, Eq)]
pub enum PresignedOutcome {
    /// Admitted as the access key named.
    Admitted(String),
    MissingCredential,
    Expired,
    UnknownAccessKey,
}

/// The URL was signed at the `X-Amz-Date` stamp `date` and is valid for
/// `expires` seconds, and more than that has passed at `now_secs`.
pub open spec fn presigned_expired_spec(date: Seq<char>, expires: Seq<char>, now_secs: i64) -> bool {
    match crate::dates::amz_date_fields(date) {
        Some((y, mo, d, h, mi, sec)) => match crate::dates::epoch_seconds_of(y as i32, mo as u32, d as u32, h as u32, mi as u32, sec as u32) {
            Some(t) => match crate::text::parse_unsigned(expires, i64::MAX as nat) {
                Some(e) => now_secs - t > e,
                None => false,
            },
            None => false,
        },
        None => false,
    }
}

/// The decision on a presigned URL: it needs an `X-Amz-Credential`; an
/// expired URL is refused; the credential's access key must be known.
pub open spec fn presigned_outcome_spec(
    credential: Option<Seq<char>>,
    keys: Seq<(Seq<char>, Seq<char>)>,
    date: Option<Seq<char>>,
    expires: Option<Seq<char>>,
    now_secs: i64,
) -> (bool, bool, bool) {
    match credential {
        None => (true, false, false),
        Some(c) => {
            let expired = match (date, expires) {
                (Some(d), Some(e)) => presigned_expired_spec(d, e, now_secs),
                _ => false,
            };
            (false, expired, crate::sigv4::secret_for(keys, split_on(c, '/')[0]) is Some)
        },
    }
}

/// Decides on a presigned URL from its parameters (already percent-decoded),
/// the known access keys with their secrets, and the time now.
pub fn admit_presigned(
    credential: Option<&str>,
    keys: &Vec<(String, String)>,
    date: Option<&str>,
    expires: Option<&str>,
    now_secs: i64,
) -> (r: PresignedOutcome)
    ensures
        ({
            let (missing, expired, known) = presigned_outcome_spec(
                match credential { Some(c) => Some(c@), None => None },
                crate::sigv4::headers_view(keys@),
                match date { Some(d) => Some(d@), None => None },
                match expires { Some(e) => Some(e@), None => None },
                now_secs,
            );
            if missing {
                r == PresignedOutcome::MissingCredential
            } else if expired {
                r == PresignedOutcome::Expired
            } else if !known {
                r == PresignedOutcome::UnknownAccessKey
            } else {
                r matches PresignedOutcome::Admitted(k) && k@ == split_on(credential->0@, '/')[0]
            }
        }),
{
    let c = match credential {
        Some(c) => c,
        None => {
            return PresignedOutcome::MissingCredential;
        },
    };
    let mut expired = false;
    if let (Some(d), Some(e)) = (date, expires) {
        if let Some(signed_at) = crate::dates::parse_amz_date(d) {
            let ec = chars_of(e);
            if let Some(n) = crate::text::parse_u64(ec.as_slice()) {
                if n <= i64::MAX as u64 {
                    expired = presigned_expired(signed_at, now_secs, n as i64);
                }
            }
        }
    }
    let ghost spec_expired = match (date, expires) {
        (Some(d), Some(e)) => presigned_expired_spec(d@, e@, now_secs),
        _ => false,
    };
    assert(expired == spec_expired);
    if expired {
        return PresignedOutcome::Expired;
    }
    let cc = chars_of(c);
    let parts = split_chars(cc.as_slice(), '/');
    proof {
        crate::text::lemma_split_nonempty(c@, '/');
    }
    let ak = string_of(parts[0].as_slice());
    let akc = chars_of(ak.as_str());
    let mut i: usize = 0;
    let ghost kv = crate::sigv4::headers_view(keys@);
    assert(kv.subrange(0, kv.len() as int) =~= kv);
    while i < keys.len()
        invariant
            i <= keys@.len(),
            kv == crate::sigv4::headers_view(keys@),
            akc@ == split_on(c@, '/')[0],
            ak@ == akc@,
            credential == Some(c),
            !spec_expired,
            spec_expired == match (date, expires) {
                (Some(d), Some(e)) => presigned_expired_spec(d@, e@, now_secs),
                _ => false,
            },
            crate::sigv4::header_value(kv, akc@) == crate::sigv4::header_value(kv.subrange(i as int, kv.len() as int), akc@),
        decreases keys.len() - i,
    {
        let ghost rest = kv.subrange(i as int, kv.len() as int);
        assert(rest.drop_first() =~= kv.subrange(i + 1, kv.len() as int));
        assert(rest[0] == (keys@[i as int].0@, keys@[i as int].1@));
        if crate::text::chars_equal(chars_of(keys[i].0.as_str()).as_slice(), akc.as_slice()) {
            return PresignedOutcome::Admitted(ak);
        }
        i = i + 1;
    }
    PresignedOutcome::UnknownAccessKey
}

} // verus!
