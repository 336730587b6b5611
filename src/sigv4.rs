//! AWS Signature Version 4: parsing the `Authorization` header, building the
//! canonical request and the string to sign, deriving the signing key, and
//! comparing signatures.

use vstd::prelude::*;
use vstd::utf8::encode_utf8;
use crate::digest::{hex_text, hmac_sha256, hmac_sha256_of, sha256_digest, sha256_of, to_hex};
use crate::text::{chars_equal, chars_of, has_prefix, split_chars, split_on, starts_with, string_of};

verus! {

/// The pieces of `s` between spaces, empty pieces left out.
pub open spec fn words_of(pieces: Seq<Seq<char>>) -> Seq<Seq<char>>
    decreases pieces.len(),
{
    if pieces.len() == 0 {
        Seq::empty()
    } else if pieces.last().len() == 0 {
        words_of(pieces.drop_last())
    } else {
        words_of(pieces.drop_last()).push(pieces.last())
    }
}

pub open spec fn words(s: Seq<char>) -> Seq<Seq<char>> {
    words_of(split_on(s, ' '))
}

/// `s` less its first `n` and last `m` characters.
pub open spec fn inner(s: Seq<char>, n: int, m: int) -> Seq<char> {
    s.subrange(n, s.len() - m)
}

/// The fields of a well-formed `Authorization` header.
pub struct AuthorizationParts {
    pub access_key: Vec<char>,
    pub date: Vec<char>,
    pub region: Vec<char>,
    pub service: Vec<char>,
    pub request_type: Vec<char>,
    pub signed_headers: Vec<char>,
    pub signature: Vec<char>,
}

#[derive(Debug, Clone, Copy, PartialEq, Eq, Structural)]
pub enum AuthError {
    /// The header is not `AWS4-HMAC-SHA256 Credential=..., SignedHeaders=..., Signature=...`.
    MalformedAuthorization,
    /// The credential is not `key/date/region/service/aws4_request`.
    MalformedCredential,
    InvalidAccessKeyId,
    SignatureDoesNotMatch,
}

/// The four words of the header have the required shape.
pub open spec fn header_shape_ok(w: Seq<Seq<char>>) -> bool {
    &&& w.len() == 4
    &&& w[0] == "AWS4-HMAC-SHA256"@
    &&& has_prefix(w[1], "Credential="@) && w[1].len() >= 12 && w[1].last() == ','
    &&& has_prefix(w[2], "SignedHeaders="@) && w[2].len() >= 15 && w[2].last() == ','
    &&& has_prefix(w[3], "Signature="@)
}

pub open spec fn credential_of(w: Seq<Seq<char>>) -> Seq<Seq<char>> {
    split_on(inner(w[1], 11, 1), '/')
}

/// What parsing the header gives: its credential fields, signed header list and
/// signature, or the error for the first deviation.
pub open spec fn parse_authorization_spec(h: Seq<char>) -> Result<(Seq<Seq<char>>, Seq<char>, Seq<char>), AuthError> {
    let w = words(h);
    if !header_shape_ok(w) {
        Err(AuthError::MalformedAuthorization)
    } else {
        let c = credential_of(w);
        if c.len() != 5 || c[4] != "aws4_request"@ {
            Err(AuthError::MalformedCredential)
        } else {
            Ok((c, inner(w[2], 14, 1), inner(w[3], 10, 0)))
        }
    }
}

fn words_exec(s: &[char]) -> (r: Vec<Vec<char>>)
    ensures
        r@.len() == words(s@).len(),
        forall|i: int| 0 <= i < r@.len() ==> (#[trigger] r@[i])@ == words(s@)[i],
{
    let pieces = split_chars(s, ' ');
    let ghost ps = split_on(s@, ' ');
    let mut out: Vec<Vec<char>> = Vec::new();
    let mut i: usize = 0;
    while i < pieces.len()
        invariant
            i <= pieces@.len(),
            pieces@.len() == ps.len(),
            forall|j: int| 0 <= j < pieces@.len() ==> (#[trigger] pieces@[j])@ == ps[j],
            out@.len() == words_of(ps.subrange(0, i as int)).len(),
            forall|j: int| 0 <= j < out@.len() ==> (#[trigger] out@[j])@ == words_of(ps.subrange(0, i as int))[j],
        decreases pieces.len() - i,
    {
        assert(ps.subrange(0, i + 1).drop_last() =~= ps.subrange(0, i as int));
        if pieces[i].len() > 0 {
            out.push(vstd::slice::slice_to_vec(pieces[i].as_slice()));
        }
        i = i + 1;
    }
    assert(ps.subrange(0, pieces@.len() as int) =~= ps);
    out
}

fn middle(s: &[char], n: usize, m: usize) -> (r: Vec<char>)
    requires
        n + m <= s@.len(),
    ensures
        r@ == inner(s@, n as int, m as int),
{
    vstd::slice::slice_to_vec(vstd::slice::slice_subrange(s, n, s.len() - m))
}

/// Parses an `Authorization` header, rejecting any deviation from the form
/// `AWS4-HMAC-SHA256 Credential=AK/DATE/REGION/SERVICE/aws4_request, SignedHeaders=..., Signature=...`.
pub fn parse_authorization(header: &str) -> (r: Result<AuthorizationParts, AuthError>)
    ensures
        match parse_authorization_spec(header@) {
            Ok((c, sh, sig)) => r matches Ok(p) && p.access_key@ == c[0] && p.date@ == c[1]
                && p.region@ == c[2] && p.service@ == c[3] && p.request_type@ == c[4]
                && p.signed_headers@ == sh && p.signature@ == sig,
            Err(e) => r matches Err(e2) && e2 == e,
        },
{
    let h = chars_of(header);
    let w = words_exec(h.as_slice());
    let algo = chars_of("AWS4-HMAC-SHA256");
    let cred_prefix = chars_of("Credential=");
    let sh_prefix = chars_of("SignedHeaders=");
    let sig_prefix = chars_of("Signature=");
    proof {
        reveal_strlit("Credential=");
        reveal_strlit("SignedHeaders=");
        reveal_strlit("Signature=");
    }
    if w.len() != 4 {
        return Err(AuthError::MalformedAuthorization);
    }
    let ok = chars_equal(w[0].as_slice(), algo.as_slice())
        && starts_with(w[1].as_slice(), cred_prefix.as_slice()) && w[1].len() >= 12 && w[1][w[1].len() - 1] == ','
        && starts_with(w[2].as_slice(), sh_prefix.as_slice()) && w[2].len() >= 15 && w[2][w[2].len() - 1] == ','
        && starts_with(w[3].as_slice(), sig_prefix.as_slice());
    if !ok {
        return Err(AuthError::MalformedAuthorization);
    }
    let cred = middle(w[1].as_slice(), 11, 1);
    let c = split_chars(cred.as_slice(), '/');
    let tail = chars_of("aws4_request");
    if c.len() != 5 || !chars_equal(c[4].as_slice(), tail.as_slice()) {
        return Err(AuthError::MalformedCredential);
    }
    let signed_headers = middle(w[2].as_slice(), 14, 1);
    let signature = middle(w[3].as_slice(), 10, 0);
    Ok(AuthorizationParts {
        access_key: vstd::slice::slice_to_vec(c[0].as_slice()),
        date: vstd::slice::slice_to_vec(c[1].as_slice()),
        region: vstd::slice::slice_to_vec(c[2].as_slice()),
        service: vstd::slice::slice_to_vec(c[3].as_slice()),
        request_type: vstd::slice::slice_to_vec(c[4].as_slice()),
        signed_headers,
        signature,
    })
}

/// A request as the signature sees it. Header names are lower case.
pub struct SignedRequest {
    pub method: String,
    pub path: String,
    pub query: String,
    pub headers: Vec<(String, String)>,
}

pub open spec fn headers_view(hs: Seq<(String, String)>) -> Seq<(Seq<char>, Seq<char>)> {
    Seq::new(hs.len(), |i: int| (hs[i].0@, hs[i].1@))
}

/// The value of the first header named `name`.
pub open spec fn header_value(hs: Seq<(Seq<char>, Seq<char>)>, name: Seq<char>) -> Option<Seq<char>>
    decreases hs.len(),
{
    if hs.len() == 0 {
        None
    } else if hs[0].0 == name {
        Some(hs[0].1)
    } else {
        header_value(hs.drop_first(), name)
    }
}

/// `name:value\n` for each signed header the request carries, in the order of
/// the signed-header list.
pub open spec fn canonical_headers(hs: Seq<(Seq<char>, Seq<char>)>, names: Seq<Seq<char>>) -> Seq<char>
    decreases names.len(),
{
    if names.len() == 0 {
        Seq::empty()
    } else {
        let before = canonical_headers(hs, names.drop_last());
        match header_value(hs, names.last()) {
            Some(v) => before + names.last() + seq![':'] + v + seq!['\n'],
            None => before,
        }
    }
}

/// The payload hash the client declared, or `UNSIGNED-PAYLOAD`.
pub open spec fn payload_hash(hs: Seq<(Seq<char>, Seq<char>)>) -> Seq<char> {
    match header_value(hs, "x-amz-content-sha256"@) {
        Some(v) => v,
        None => "UNSIGNED-PAYLOAD"@,
    }
}

pub open spec fn nl() -> Seq<char> {
    seq!['\n']
}

/// `method\npath\nquery\n<canonical headers>\n<signed headers>\n<payload hash>`.
pub open spec fn canonical_request_spec(
    method: Seq<char>,
    path: Seq<char>,
    query: Seq<char>,
    hs: Seq<(Seq<char>, Seq<char>)>,
    signed_headers: Seq<char>,
) -> Seq<char> {
    method + nl() + path + nl() + query + nl() + canonical_headers(hs, split_on(signed_headers, ';'))
        + nl() + signed_headers + nl() + payload_hash(hs)
}

/// `AWS4-HMAC-SHA256\n<x-amz-date>\n<date>/<region>/<service>/<type>\n<hex sha256 of the canonical request>`.
pub open spec fn string_to_sign_spec(
    amz_date: Seq<char>,
    c: Seq<Seq<char>>,
    canonical: Seq<char>,
) -> Seq<char> {
    "AWS4-HMAC-SHA256"@ + nl() + amz_date + nl() + c[1] + seq!['/'] + c[2] + seq!['/'] + c[3]
        + seq!['/'] + c[4] + nl() + hex_text(sha256_of(encode_utf8(canonical)))
}

/// The key of four chained HMACs: `AWS4<secret>`, then date, region, service
/// and `aws4_request`.
pub open spec fn signing_key_spec(secret: Seq<char>, date: Seq<char>, region: Seq<char>, service: Seq<char>) -> Seq<u8> {
    let k1 = hmac_sha256_of(encode_utf8("AWS4"@ + secret), encode_utf8(date));
    let k2 = hmac_sha256_of(k1, encode_utf8(region));
    let k3 = hmac_sha256_of(k2, encode_utf8(service));
    hmac_sha256_of(k3, encode_utf8("aws4_request"@))
}

/// The secret of the first credential with access key `key`.
pub open spec fn secret_for(creds: Seq<(Seq<char>, Seq<char>)>, key: Seq<char>) -> Option<Seq<char>> {
    header_value(creds, key)
}

/// The signature the server expects for `req`, signed with `secret` under the
/// credential fields `c` and signed-header list `signed_headers`.
pub open spec fn expected_signature(
    req_method: Seq<char>,
    req_path: Seq<char>,
    req_query: Seq<char>,
    hs: Seq<(Seq<char>, Seq<char>)>,
    c: Seq<Seq<char>>,
    signed_headers: Seq<char>,
    secret: Seq<char>,
) -> Seq<char> {
    let canonical = canonical_request_spec(req_method, req_path, req_query, hs, signed_headers);
    let amz_date = match header_value(hs, "x-amz-date"@) {
        Some(d) => d,
        None => Seq::empty(),
    };
    let sts = string_to_sign_spec(amz_date, c, canonical);
    hex_text(hmac_sha256_of(signing_key_spec(secret, c[1], c[2], c[3]), encode_utf8(sts)))
}

/// The outcome of checking a request's header signature.
pub open spec fn verification_outcome(
    req_method: Seq<char>,
    req_path: Seq<char>,
    req_query: Seq<char>,
    hs: Seq<(Seq<char>, Seq<char>)>,
    auth: Seq<char>,
    creds: Seq<(Seq<char>, Seq<char>)>,
) -> Result<(), AuthError> {
    match parse_authorization_spec(auth) {
        Err(e) => Err(e),
        Ok((c, sh, sig)) => match secret_for(creds, c[0]) {
            None => Err(AuthError::InvalidAccessKeyId),
            Some(secret) => if expected_signature(req_method, req_path, req_query, hs, c, sh, secret) == sig {
                Ok(())
            } else {
                Err(AuthError::SignatureDoesNotMatch)
            },
        },
    }
}

fn find_value(hs: &Vec<(String, String)>, name: &[char]) -> (r: Option<Vec<char>>)
    ensures
        match header_value(headers_view(hs@), name@) {
            Some(v) => r matches Some(x) && x@ == v,
            None => r is None,
        },
{
    let ghost hv = headers_view(hs@);
    let mut i: usize = 0;
    assert(hv.subrange(0, hv.len() as int) =~= hv);
    while i < hs.len()
        invariant
            i <= hs@.len(),
            hv == headers_view(hs@),
            header_value(hv, name@) == header_value(hv.subrange(i as int, hv.len() as int), name@),
        decreases hs.len() - i,
    {
        let ghost rest = hv.subrange(i as int, hv.len() as int);
        assert(rest.drop_first() =~= hv.subrange(i + 1, hv.len() as int));
        assert(rest[0] == (hs@[i as int].0@, hs@[i as int].1@));
        let n = chars_of(hs[i].0.as_str());
        if chars_equal(n.as_slice(), name) {
            return Some(chars_of(hs[i].1.as_str()));
        }
        i = i + 1;
    }
    None
}

fn push_all(out: &mut Vec<char>, s: &[char])
    ensures
        final(out)@ == old(out)@ + s@,
{
    let mut i: usize = 0;
    while i < s.len()
        invariant
            i <= s@.len(),
            out@ == old(out)@ + s@.subrange(0, i as int),
        decreases s.len() - i,
    {
        out.push(s[i]);
        assert(s@.subrange(0, i + 1) =~= s@.subrange(0, i as int).push(s@[i as int]));
        i = i + 1;
    }
    assert(s@.subrange(0, s@.len() as int) =~= s@);
}

/// Builds the canonical request of Signature V4.
pub fn canonical_request(req: &SignedRequest, signed_headers: &[char]) -> (r: Vec<char>)
    ensures
        r@ == canonical_request_spec(req.method@, req.path@, req.query@, headers_view(req.headers@), signed_headers@),
{
    let ghost hv = headers_view(req.headers@);
    let mut out: Vec<char> = Vec::new();
    push_all(&mut out, chars_of(req.method.as_str()).as_slice());
    out.push('\n');
    push_all(&mut out, chars_of(req.path.as_str()).as_slice());
    out.push('\n');
    push_all(&mut out, chars_of(req.query.as_str()).as_slice());
    out.push('\n');
    let ghost head = out@;
    assert(head =~= req.method@ + nl() + req.path@ + nl() + req.query@ + nl());
    let names = split_chars(signed_headers, ';');
    let ghost ns = split_on(signed_headers@, ';');
    let mut i: usize = 0;
    while i < names.len()
        invariant
            i <= names@.len(),
            names@.len() == ns.len(),
            forall|j: int| 0 <= j < names@.len() ==> (#[trigger] names@[j])@ == ns[j],
            hv == headers_view(req.headers@),
            out@ == head + canonical_headers(hv, ns.subrange(0, i as int)),
        decreases names.len() - i,
    {
        assert(ns.subrange(0, i + 1).drop_last() =~= ns.subrange(0, i as int));
        assert(ns.subrange(0, i + 1).last() == names@[i as int]@);
        match find_value(&req.headers, names[i].as_slice()) {
            Some(v) => {
                push_all(&mut out, names[i].as_slice());
                out.push(':');
                push_all(&mut out, v.as_slice());
                out.push('\n');
                assert(out@ =~= head + canonical_headers(hv, ns.subrange(0, i + 1)));
            },
            None => {},
        }
        i = i + 1;
    }
    assert(ns.subrange(0, names@.len() as int) =~= ns);
    out.push('\n');
    push_all(&mut out, signed_headers);
    out.push('\n');
    let content = chars_of("x-amz-content-sha256");
    match find_value(&req.headers, content.as_slice()) {
        Some(v) => push_all(&mut out, v.as_slice()),
        None => push_all(&mut out, chars_of("UNSIGNED-PAYLOAD").as_slice()),
    }
    assert(out@ =~= canonical_request_spec(req.method@, req.path@, req.query@, hv, signed_headers@));
    out
}

/// The UTF-8 bytes of the characters.
fn utf8_bytes(c: &[char]) -> (r: Vec<u8>)
    ensures
        r@ == encode_utf8(c@),
{
    let s = string_of(c);
    vstd::slice::slice_to_vec(s.as_str().as_bytes())
}

/// Derives the signing key from the secret and the credential scope.
pub fn signing_key(secret: &[char], date: &[char], region: &[char], service: &[char]) -> (r: Vec<u8>)
    ensures
        r@ == signing_key_spec(secret@, date@, region@, service@),
{
    let mut k0: Vec<char> = chars_of("AWS4");
    push_all(&mut k0, secret);
    let k1 = hmac_sha256(utf8_bytes(k0.as_slice()).as_slice(), utf8_bytes(date).as_slice());
    let k2 = hmac_sha256(k1.as_slice(), utf8_bytes(region).as_slice());
    let k3 = hmac_sha256(k2.as_slice(), utf8_bytes(service).as_slice());
    let req_type = chars_of("aws4_request");
    hmac_sha256(k3.as_slice(), utf8_bytes(req_type.as_slice()).as_slice())
}

/// Compares two signatures, looking at every character of the longer one
/// whatever the outcome.
pub fn signatures_match(a: &[char], b: &[char]) -> (r: bool)
    ensures
        r == (a@ == b@),
{
    let n = if a.len() > b.len() { a.len() } else { b.len() };
    let mut differ = a.len() != b.len();
    let mut i: usize = 0;
    while i < n
        invariant
            i <= n,
            n == if a@.len() > b@.len() { a@.len() } else { b@.len() },
            differ == (a@.len() != b@.len() || exists|j: int| 0 <= j < i && j < a@.len() && j < b@.len() && a@[j] != b@[j]),
        decreases n - i,
    {
        if i < a.len() && i < b.len() && a[i] != b[i] {
            differ = true;
        }
        i = i + 1;
    }
    proof {
        if !differ {
            assert(a@ =~= b@);
        }
        if a@ == b@ {
            assert(!(exists|j: int| 0 <= j < n && j < a@.len() && j < b@.len() && a@[j] != b@[j]));
        }
    }
    !differ
}

/// Checks the header signature of a request against the credentials
/// (pairs of access key and secret).
pub fn verify_signature_v4(req: &SignedRequest, authorization: &str, credentials: &Vec<(String, String)>) -> (r: Result<(), AuthError>)
    ensures
        r == verification_outcome(req.method@, req.path@, req.query@, headers_view(req.headers@), authorization@, headers_view(credentials@)),
{
    let parts = match parse_authorization(authorization) {
        Ok(p) => p,
        Err(e) => {
            return Err(e);
        },
    };
    let secret = match find_value(credentials, parts.access_key.as_slice()) {
        Some(s) => s,
        None => {
            return Err(AuthError::InvalidAccessKeyId);
        },
    };
    let canonical = canonical_request(req, parts.signed_headers.as_slice());
    let canonical_hash = sha256_digest(utf8_bytes(canonical.as_slice()).as_slice());
    let hash_hex = chars_of(to_hex(canonical_hash.as_slice()).as_str());
    let mut sts: Vec<char> = chars_of("AWS4-HMAC-SHA256");
    sts.push('\n');
    match find_value(&req.headers, chars_of("x-amz-date").as_slice()) {
        Some(d) => push_all(&mut sts, d.as_slice()),
        None => {},
    }
    sts.push('\n');
    push_all(&mut sts, parts.date.as_slice());
    sts.push('/');
    push_all(&mut sts, parts.region.as_slice());
    sts.push('/');
    push_all(&mut sts, parts.service.as_slice());
    sts.push('/');
    push_all(&mut sts, parts.request_type.as_slice());
    sts.push('\n');
    push_all(&mut sts, hash_hex.as_slice());
    let ghost c = seq![parts.access_key@, parts.date@, parts.region@, parts.service@, parts.request_type@];
    let ghost amz = match header_value(headers_view(req.headers@), "x-amz-date"@) {
        Some(d) => d,
        None => Seq::empty(),
    };
    assert(sts@ =~= string_to_sign_spec(amz, c, canonical@));
    let key = signing_key(secret.as_slice(), parts.date.as_slice(), parts.region.as_slice(), parts.service.as_slice());
    let mac = hmac_sha256(key.as_slice(), utf8_bytes(sts.as_slice()).as_slice());
    let computed = chars_of(to_hex(mac.as_slice()).as_str());
    proof {
        let (pc, psh, psig) = parse_authorization_spec(authorization@)->Ok_0;
        assert(pc =~= c);
    }
    if signatures_match(computed.as_slice(), parts.signature.as_slice()) {
        Ok(())
    } else {
        Err(AuthError::SignatureDoesNotMatch)
    }
}

} // verus!
