//! Request dispatch: method, path shape and sub-resource query parameter
//! select the operation.

use vstd::prelude::*;
use crate::text::{chars_equal, chars_of, string_of};

verus! {

#[derive(Debug, Clone, Copy, PartialEq, Eq, Structural)]
pub enum Method {
    Get,
    Put,
    Post,
    Delete,
    Head,
    Options,
    Other,
}

pub open spec fn method_spec(m: Seq<char>) -> Method {
    if m == "GET"@ {
        Method::Get
    } else if m == "PUT"@ {
        Method::Put
    } else if m == "POST"@ {
        Method::Post
    } else if m == "DELETE"@ {
        Method::Delete
    } else if m == "HEAD"@ {
        Method::Head
    } else if m == "OPTIONS"@ {
        Method::Options
    } else {
        Method::Other
    }
}

pub fn parse_method(m: &str) -> (r: Method)
    ensures
        r == method_spec(m@),
{
    let c = chars_of(m);
    if chars_equal(c.as_slice(), chars_of("GET").as_slice()) {
        Method::Get
    } else if chars_equal(c.as_slice(), chars_of("PUT").as_slice()) {
        Method::Put
    } else if chars_equal(c.as_slice(), chars_of("POST").as_slice()) {
        Method::Post
    } else if chars_equal(c.as_slice(), chars_of("DELETE").as_slice()) {
        Method::Delete
    } else if chars_equal(c.as_slice(), chars_of("HEAD").as_slice()) {
        Method::Head
    } else if chars_equal(c.as_slice(), chars_of("OPTIONS").as_slice()) {
        Method::Options
    } else {
        Method::Other
    }
}

/// What a request path names.
#[derive(Debug)]
pub enum PathShape {
    Root,
    Bucket(String),
    Object(String, String),
}

/// The index of the first `c` in `s` at or after `i`, or the length of `s`.
pub open spec fn char_index(s: Seq<char>, c: char, i: int) -> int
    decreases s.len() - i,
{
    if i < 0 || i >= s.len() {
        s.len() as int
    } else if s[i] == c {
        i
    } else {
        char_index(s, c, i + 1)
    }
}

/// `/` names the service; `/<b>` and `/<b>/` name bucket `b`; `/<b>/<k>`
/// names object `k` of bucket `b`. A path without a leading `/` is read as if
/// it had one.
pub open spec fn shape_of(path: Seq<char>) -> (int, Seq<char>, Seq<char>) {
    let p = if path.len() > 0 && path[0] == '/' {
        path.drop_first()
    } else {
        path
    };
    let s = char_index(p, '/', 0);
    let bucket = p.subrange(0, s);
    let key = if s < p.len() {
        p.subrange(s + 1, p.len() as int)
    } else {
        Seq::empty()
    };
    if bucket.len() == 0 {
        (0, bucket, key)
    } else if key.len() == 0 {
        (1, bucket, key)
    } else {
        (2, bucket, key)
    }
}

pub open spec fn shape_matches(r: PathShape, path: Seq<char>) -> bool {
    let (kind, b, k) = shape_of(path);
    match r {
        PathShape::Root => kind == 0,
        PathShape::Bucket(x) => kind == 1 && x@ == b,
        PathShape::Object(x, y) => kind == 2 && x@ == b && y@ == k,
    }
}

pub fn parse_path(path: &str) -> (r: PathShape)
    ensures
        shape_matches(r, path@),
{
    let c = chars_of(path);
    let start: usize = if c.len() > 0 && c[0] == '/' { 1 } else { 0 };
    let p = vstd::slice::slice_subrange(c.as_slice(), start, c.len());
    assert(p@ == (if path@.len() > 0 && path@[0] == '/' { path@.drop_first() } else { path@ }));
    let mut s: usize = 0;
    while s < p.len() && p[s] != '/'
        invariant
            s <= p@.len(),
            char_index(p@, '/', 0) == char_index(p@, '/', s as int),
        decreases p.len() - s,
    {
        s = s + 1;
    }
    let bucket = vstd::slice::slice_subrange(p, 0, s);
    let key = if s < p.len() {
        vstd::slice::slice_subrange(p, s + 1, p.len())
    } else {
        vstd::slice::slice_subrange(p, p.len(), p.len())
    };
    if bucket.len() == 0 {
        PathShape::Root
    } else if key.len() == 0 {
        PathShape::Bucket(string_of(bucket))
    } else {
        PathShape::Object(string_of(bucket), string_of(key))
    }
}

/// A bucket sub-resource named by a query parameter.
#[derive(Debug, Clone, Copy, PartialEq, Eq, Structural)]
pub enum SubResource {
    Location,
    Acl,
    Policy,
    Encryption,
    Cors,
    Lifecycle,
    Uploads,
    Versions,
}

/// The operation a request asks for.
#[derive(Debug, Clone, Copy, PartialEq, Eq, Structural)]
pub enum Action {
    ListBuckets,
    CreateBucket,
    DeleteBucket,
    HeadBucket,
    ListObjects,
    PutVersioning,
    GetVersioning,
    GetSubResource(SubResource),
    PutSubResource(SubResource),
    DeleteSubResource(SubResource),
    BatchDelete,
    GetObject,
    PutObject,
    DeleteObject,
    HeadObject,
    InitiateMultipart,
    UploadPart,
    CompleteMultipart,
    AbortMultipart,
    GetObjectTagging,
    PutObjectTagging,
    DeleteObjectTagging,
    Preflight,
    NotImplemented,
}

/// The query carries a parameter named `name`.
pub open spec fn has_param(q: Seq<(String, String)>, name: Seq<char>) -> bool {
    exists|i: int| 0 <= i < q.len() && (#[trigger] q[i]).0@ == name
}

/// The sub-resource named on a GET of a bucket, by precedence.
pub open spec fn get_sub_resource(q: Seq<(String, String)>) -> Option<SubResource> {
    if has_param(q, "location"@) {
        Some(SubResource::Location)
    } else if has_param(q, "acl"@) {
        Some(SubResource::Acl)
    } else if has_param(q, "policy"@) {
        Some(SubResource::Policy)
    } else if has_param(q, "encryption"@) {
        Some(SubResource::Encryption)
    } else if has_param(q, "cors"@) {
        Some(SubResource::Cors)
    } else if has_param(q, "lifecycle"@) {
        Some(SubResource::Lifecycle)
    } else if has_param(q, "uploads"@) {
        Some(SubResource::Uploads)
    } else if has_param(q, "versions"@) {
        Some(SubResource::Versions)
    } else {
        None
    }
}

/// The configuration document named on a PUT or DELETE of a bucket.
pub open spec fn config_sub_resource(q: Seq<(String, String)>, with_acl: bool) -> Option<SubResource> {
    if has_param(q, "policy"@) {
        Some(SubResource::Policy)
    } else if has_param(q, "encryption"@) {
        Some(SubResource::Encryption)
    } else if has_param(q, "cors"@) {
        Some(SubResource::Cors)
    } else if has_param(q, "lifecycle"@) {
        Some(SubResource::Lifecycle)
    } else if with_acl && has_param(q, "acl"@) {
        Some(SubResource::Acl)
    } else {
        None
    }
}

/// The dispatch table.
pub open spec fn route_spec(m: Method, shape: int, q: Seq<(String, String)>) -> Action {
    if m == Method::Options {
        Action::Preflight
    } else if shape == 0 {
        if m == Method::Get {
            Action::ListBuckets
        } else {
            Action::NotImplemented
        }
    } else if shape == 1 {
        match m {
            Method::Get => if has_param(q, "versioning"@) {
                Action::GetVersioning
            } else {
                match get_sub_resource(q) {
                    Some(r) => Action::GetSubResource(r),
                    None => Action::ListObjects,
                }
            },
            Method::Put => if has_param(q, "versioning"@) {
                Action::PutVersioning
            } else {
                match config_sub_resource(q, true) {
                    Some(r) => Action::PutSubResource(r),
                    None => Action::CreateBucket,
                }
            },
            Method::Delete => match config_sub_resource(q, false) {
                Some(r) => Action::DeleteSubResource(r),
                None => Action::DeleteBucket,
            },
            Method::Post => if has_param(q, "delete"@) {
                Action::BatchDelete
            } else {
                Action::NotImplemented
            },
            Method::Head => Action::HeadBucket,
            _ => Action::NotImplemented,
        }
    } else {
        match m {
            Method::Get => if has_param(q, "tagging"@) {
                Action::GetObjectTagging
            } else {
                Action::GetObject
            },
            Method::Put => if has_param(q, "uploadId"@) && has_param(q, "partNumber"@) {
                Action::UploadPart
            } else if has_param(q, "tagging"@) {
                Action::PutObjectTagging
            } else {
                Action::PutObject
            },
            Method::Delete => if has_param(q, "uploadId"@) {
                Action::AbortMultipart
            } else if has_param(q, "tagging"@) {
                Action::DeleteObjectTagging
            } else {
                Action::DeleteObject
            },
            Method::Post => if has_param(q, "uploads"@) {
                Action::InitiateMultipart
            } else if has_param(q, "uploadId"@) {
                Action::CompleteMultipart
            } else {
                Action::NotImplemented
            },
            Method::Head => Action::HeadObject,
            _ => Action::NotImplemented,
        }
    }
}

/// Whether the query carries a parameter named `name`.
pub fn query_has(q: &Vec<(String, String)>, name: &str) -> (r: bool)
    ensures
        r == has_param(q@, name@),
{
    let n = chars_of(name);
    let mut i: usize = 0;
    while i < q.len()
        invariant
            i <= q@.len(),
            n@ == name@,
            forall|j: int| 0 <= j < i ==> (#[trigger] q@[j]).0@ != name@,
        decreases q.len() - i,
    {
        if chars_equal(chars_of(q[i].0.as_str()).as_slice(), n.as_slice()) {
            return true;
        }
        i = i + 1;
    }
    false
}

fn get_sub(q: &Vec<(String, String)>) -> (r: Option<SubResource>)
    ensures
        r == get_sub_resource(q@),
{
    if query_has(q, "location") {
        Some(SubResource::Location)
    } else if query_has(q, "acl") {
        Some(SubResource::Acl)
    } else if query_has(q, "policy") {
        Some(SubResource::Policy)
    } else if query_has(q, "encryption") {
        Some(SubResource::Encryption)
    } else if query_has(q, "cors") {
        Some(SubResource::Cors)
    } else if query_has(q, "lifecycle") {
        Some(SubResource::Lifecycle)
    } else if query_has(q, "uploads") {
        Some(SubResource::Uploads)
    } else if query_has(q, "versions") {
        Some(SubResource::Versions)
    } else {
        None
    }
}

fn config_sub(q: &Vec<(String, String)>, with_acl: bool) -> (r: Option<SubResource>)
    ensures
        r == config_sub_resource(q@, with_acl),
{
    if query_has(q, "policy") {
        Some(SubResource::Policy)
    } else if query_has(q, "encryption") {
        Some(SubResource::Encryption)
    } else if query_has(q, "cors") {
        Some(SubResource::Cors)
    } else if query_has(q, "lifecycle") {
        Some(SubResource::Lifecycle)
    } else if with_acl && query_has(q, "acl") {
        Some(SubResource::Acl)
    } else {
        None
    }
}

pub open spec fn shape_kind(s: PathShape) -> int {
    match s {
        PathShape::Root => 0,
        PathShape::Bucket(_) => 1,
        PathShape::Object(_, _) => 2,
    }
}

/// Chooses the operation for a request.
pub fn route(m: Method, shape: &PathShape, q: &Vec<(String, String)>) -> (r: Action)
    ensures
        r == route_spec(m, shape_kind(*shape), q@),
{
    if m == Method::Options {
        return Action::Preflight;
    }
    match shape {
        PathShape::Root => if m == Method::Get {
            Action::ListBuckets
        } else {
            Action::NotImplemented
        },
        PathShape::Bucket(_) => match m {
            Method::Get => if query_has(q, "versioning") {
                Action::GetVersioning
            } else {
                match get_sub(q) {
                    Some(r) => Action::GetSubResource(r),
                    None => Action::ListObjects,
                }
            },
            Method::Put => if query_has(q, "versioning") {
                Action::PutVersioning
            } else {
                match config_sub(q, true) {
                    Some(r) => Action::PutSubResource(r),
                    None => Action::CreateBucket,
                }
            },
            Method::Delete => match config_sub(q, false) {
                Some(r) => Action::DeleteSubResource(r),
                None => Action::DeleteBucket,
            },
            Method::Post => if query_has(q, "delete") {
                Action::BatchDelete
            } else {
                Action::NotImplemented
            },
            Method::Head => Action::HeadBucket,
            _ => Action::NotImplemented,
        },
        PathShape::Object(_, _) => match m {
            Method::Get => if query_has(q, "tagging") {
                Action::GetObjectTagging
            } else {
                Action::GetObject
            },
            Method::Put => if query_has(q, "uploadId") && query_has(q, "partNumber") {
                Action::UploadPart
            } else if query_has(q, "tagging") {
                Action::PutObjectTagging
            } else {
                Action::PutObject
            },
            Method::Delete => if query_has(q, "uploadId") {
                Action::AbortMultipart
            } else if query_has(q, "tagging") {
                Action::DeleteObjectTagging
            } else {
                Action::DeleteObject
            },
            Method::Post => if query_has(q, "uploads") {
                Action::InitiateMultipart
            } else if query_has(q, "uploadId") {
                Action::CompleteMultipart
            } else {
                Action::NotImplemented
            },
            Method::Head => Action::HeadObject,
            _ => Action::NotImplemented,
        },
    }
}

/// The name and value of one `name=value` piece of a query; a piece without
/// `=` has an empty value.
pub open spec fn query_pair(p: Seq<char>) -> (Seq<char>, Seq<char>) {
    let e = char_index(p, '=', 0);
    (p.subrange(0, e), if e < p.len() {
        p.subrange(e + 1, p.len() as int)
    } else {
        Seq::empty()
    })
}

/// Splits a query string into its `&`-separated `name=value` pairs.
pub fn parse_query(query: &str) -> (r: Vec<(String, String)>)
    ensures
        query@.len() == 0 ==> r@.len() == 0,
        query@.len() > 0 ==> r@.len() == crate::text::split_on(query@, '&').len() && forall|i: int|
            0 <= i < r@.len() ==> ((#[trigger] r@[i]).0@, r@[i].1@) == query_pair(crate::text::split_on(query@, '&')[i]),
{
    let c = chars_of(query);
    if c.len() == 0 {
        return Vec::new();
    }
    let pieces = crate::text::split_chars(c.as_slice(), '&');
    let mut out: Vec<(String, String)> = Vec::new();
    let mut i: usize = 0;
    while i < pieces.len()
        invariant
            i <= pieces@.len(),
            c@ == query@,
            pieces@.len() == crate::text::split_on(query@, '&').len(),
            forall|j: int| 0 <= j < pieces@.len() ==> (#[trigger] pieces@[j])@ == crate::text::split_on(query@, '&')[j],
            out@.len() == i,
            forall|j: int| 0 <= j < i ==> ((#[trigger] out@[j]).0@, out@[j].1@) == query_pair(crate::text::split_on(query@, '&')[j]),
        decreases pieces.len() - i,
    {
        let p = pieces[i].as_slice();
        let mut e: usize = 0;
        while e < p.len() && p[e] != '='
            invariant
                e <= p@.len(),
                char_index(p@, '=', 0) == char_index(p@, '=', e as int),
            decreases p.len() - e,
        {
            e = e + 1;
        }
        let name = string_of(vstd::slice::slice_subrange(p, 0, e));
        let value = if e < p.len() {
            string_of(vstd::slice::slice_subrange(p, e + 1, p.len()))
        } else {
            String::new()
        };
        assert((name@, value@) == query_pair(p@));
        out.push((name, value));
        i = i + 1;
    }
    out
}

/// The text that percent-decoding `s` gives; text without `%` is unchanged.
pub uninterp spec fn url_decoded(s: Seq<char>) -> Seq<char>;

/// Relies on `urlencoding::decode`: decodes `%XX` escapes (a `+` stays as it
/// is) and returns text without `%` unchanged; where the escapes do not decode
/// to UTF-8 the text is kept as it was sent.
#[verifier::external_body]
pub fn url_decode(s: &str) -> (r: String)
    ensures
        r@ == url_decoded(s@),
        (forall|i: int| 0 <= i < s@.len() ==> s@[i] != '%') ==> r@ == s@,
{
    match urlencoding::decode(s) {
        Ok(d) => d.into_owned(),
        Err(_) => s.to_string(),
    }
}

/// The raw value of the first parameter named `name`.
pub open spec fn param_value(q: Seq<(String, String)>, name: Seq<char>) -> Option<Seq<char>>
    decreases q.len(),
{
    if q.len() == 0 {
        None
    } else if q[0].0@ == name {
        Some(q[0].1@)
    } else {
        param_value(q.drop_first(), name)
    }
}

/// The decoded value of the first parameter named `name`.
pub fn query_value(q: &Vec<(String, String)>, name: &str) -> (r: Option<String>)
    ensures
        match param_value(q@, name@) {
            Some(v) => r matches Some(x) && x@ == url_decoded(v),
            None => r is None,
        },
{
    let n = chars_of(name);
    let mut i: usize = 0;
    assert(q@.subrange(0, q@.len() as int) =~= q@);
    while i < q.len()
        invariant
            i <= q@.len(),
            n@ == name@,
            param_value(q@, name@) == param_value(q@.subrange(i as int, q@.len() as int), name@),
        decreases q.len() - i,
    {
        let ghost rest = q@.subrange(i as int, q@.len() as int);
        assert(rest.drop_first() =~= q@.subrange(i + 1, q@.len() as int));
        if chars_equal(chars_of(q[i].0.as_str()).as_slice(), n.as_slice()) {
            return Some(url_decode(q[i].1.as_str()));
        }
        i = i + 1;
    }
    None
}

impl crate::models::ListObjectsParams {
    /// The listing parameters of a query: `prefix`, `delimiter`,
    /// `continuation-token` (decoded), `max-keys` and `list-type` where they
    /// read as numbers.
    pub fn from_query(q: &Vec<(String, String)>) -> (r: crate::models::ListObjectsParams)
        ensures
            match param_value(q@, "prefix"@) {
                Some(v) => r.prefix matches Some(x) && x@ == url_decoded(v),
                None => r.prefix is None,
            },
            match param_value(q@, "delimiter"@) {
                Some(v) => r.delimiter matches Some(x) && x@ == url_decoded(v),
                None => r.delimiter is None,
            },
            match param_value(q@, "continuation-token"@) {
                Some(v) => r.continuation_token matches Some(x) && x@ == url_decoded(v),
                None => r.continuation_token is None,
            },
            match param_value(q@, "max-keys"@) {
                Some(v) => match crate::text::parse_unsigned(url_decoded(v), usize::MAX as nat) {
                    Some(n) => r.max_keys == Some(n as usize),
                    None => r.max_keys is None,
                },
                None => r.max_keys is None,
            },
    {
        let max_keys = match query_value(q, "max-keys") {
            Some(v) => {
                let c = chars_of(v.as_str());
                match crate::text::parse_u64(c.as_slice()) {
                    Some(n) => if n <= usize::MAX as u64 {
                        Some(n as usize)
                    } else {
                        None
                    },
                    None => None,
                }
            },
            None => None,
        };
        let list_type = match query_value(q, "list-type") {
            Some(v) => {
                let c = chars_of(v.as_str());
                match crate::text::parse_u64(c.as_slice()) {
                    Some(n) => if n <= 255 {
                        Some(n as u8)
                    } else {
                        None
                    },
                    None => None,
                }
            },
            None => None,
        };
        crate::models::ListObjectsParams {
            prefix: query_value(q, "prefix"),
            delimiter: query_value(q, "delimiter"),
            max_keys,
            continuation_token: query_value(q, "continuation-token"),
            list_type,
        }
    }
}

} // verus!
