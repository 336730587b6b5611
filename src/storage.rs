//! Where things live on disk: buckets, objects and their sidecars, version
//! copies, multipart staging, bucket configuration and statistics files.

use vstd::prelude::*;
use crate::config::StorageConfig;
use crate::text::chars_of;

verus! {

/// `dir` joined with `name` by a single `/`.
pub open spec fn join_path(dir: Seq<char>, name: Seq<char>) -> Seq<char> {
    if dir.len() > 0 && dir.last() == '/' {
        dir + name
    } else {
        dir + seq!['/'] + name
    }
}

fn push_str(out: &mut Vec<char>, s: &str)
    ensures
        final(out)@ == old(out)@ + s@,
{
    let c = chars_of(s);
    let mut i: usize = 0;
    while i < c.len()
        invariant
            i <= c@.len(),
            c@ == s@,
            out@ == old(out)@ + c@.subrange(0, i as int),
        decreases c.len() - i,
    {
        out.push(c[i]);
        assert(c@.subrange(0, i + 1) =~= c@.subrange(0, i as int).push(c@[i as int]));
        i = i + 1;
    }
    assert(c@.subrange(0, c@.len() as int) =~= c@);
}

/// Joins `dir` and `name` by a single `/`.
pub fn join(dir: &str, name: &str) -> (r: String)
    ensures
        r@ == join_path(dir@, name@),
{
    let mut out: Vec<char> = Vec::new();
    push_str(&mut out, dir);
    if !(out.len() > 0 && out[out.len() - 1] == '/') {
        out.push('/');
    }
    push_str(&mut out, name);
    assert(out@ =~= join_path(dir@, name@));
    crate::text::string_of(out.as_slice())
}

/// `s` followed by `suffix`.
pub fn with_suffix(s: &str, suffix: &str) -> (r: String)
    ensures
        r@ == s@ + suffix@,
{
    let mut out: Vec<char> = Vec::new();
    push_str(&mut out, s);
    push_str(&mut out, suffix);
    crate::text::string_of(out.as_slice())
}

/// The storage layout under one root directory.
pub struct FileSystemBackend {
    pub base_path: String,
    pub config: StorageConfig,
}

impl FileSystemBackend {
    pub fn new(config: &StorageConfig) -> (r: FileSystemBackend)
        ensures
            r.base_path@ == config.path@,
    {
        FileSystemBackend { base_path: config.path.clone(), config: config.clone() }
    }

    pub open spec fn bucket_path_spec(&self, bucket: Seq<char>) -> Seq<char> {
        join_path(self.base_path@, bucket)
    }

    pub open spec fn object_path_spec(&self, bucket: Seq<char>, key: Seq<char>) -> Seq<char> {
        join_path(self.bucket_path_spec(bucket), key)
    }

    /// `<root>/<bucket>`.
    pub fn bucket_path(&self, bucket: &str) -> (r: String)
        ensures
            r@ == self.bucket_path_spec(bucket@),
    {
        join(self.base_path.as_str(), bucket)
    }

    /// `<root>/<bucket>/<key>`.
    pub fn object_path(&self, bucket: &str, key: &str) -> (r: String)
        ensures
            r@ == self.object_path_spec(bucket@, key@),
    {
        let b = self.bucket_path(bucket);
        join(b.as_str(), key)
    }

    /// The sidecar of an object: `<root>/<bucket>/<key>.metadata`.
    pub fn metadata_path(&self, bucket: &str, key: &str) -> (r: String)
        ensures
            r@ == self.object_path_spec(bucket@, key@) + ".metadata"@,
    {
        let o = self.object_path(bucket, key);
        with_suffix(o.as_str(), ".metadata")
    }

    /// A bucket-level file such as `.policy`: `<root>/<bucket>/<name>`.
    pub fn bucket_file_path(&self, bucket: &str, name: &str) -> (r: String)
        ensures
            r@ == join_path(self.bucket_path_spec(bucket@), name@),
    {
        let b = self.bucket_path(bucket);
        join(b.as_str(), name)
    }

    /// The copy of one version: `<root>/<bucket>/.versions/<key>/<version_id>`.
    pub fn version_path(&self, bucket: &str, key: &str, version_id: &str) -> (r: String)
        ensures
            r@ == join_path(join_path(join_path(self.bucket_path_spec(bucket@), ".versions"@), key@), version_id@),
    {
        let b = self.bucket_path(bucket);
        let v = join(b.as_str(), ".versions");
        let k = join(v.as_str(), key);
        join(k.as_str(), version_id)
    }

    /// The staging directory of an upload: `<root>/<bucket>/.multipart/<upload_id>`.
    pub fn upload_dir(&self, bucket: &str, upload_id: &str) -> (r: String)
        ensures
            r@ == join_path(join_path(self.bucket_path_spec(bucket@), ".multipart"@), upload_id@),
    {
        let b = self.bucket_path(bucket);
        let m = join(b.as_str(), ".multipart");
        join(m.as_str(), upload_id)
    }

    /// The statistics file of a month: `<root>/<bucket>/.stats/<yyyy-mm>.json`.
    pub fn stats_path(&self, bucket: &str, year_month: &str) -> (r: String)
        ensures
            r@ == join_path(join_path(self.bucket_path_spec(bucket@), ".stats"@), year_month@ + ".json"@),
    {
        let b = self.bucket_path(bucket);
        let s = join(b.as_str(), ".stats");
        let f = with_suffix(year_month, ".json");
        join(s.as_str(), f.as_str())
    }
}

/// S3's rules for bucket names: 3 to 63 characters of lower-case letters,
/// digits, `-` and `.`, neither starting nor ending with `.`, and no `..`.
pub open spec fn valid_bucket_name(n: Seq<char>) -> bool {
    &&& 3 <= n.len() <= 63
    &&& forall|i: int| 0 <= i < n.len() ==> ('a' <= #[trigger] n[i] <= 'z') || ('0' <= n[i] <= '9') || n[i] == '-' || n[i] == '.'
    &&& n[0] != '.'
    &&& n.last() != '.'
    &&& forall|i: int| 0 <= i < n.len() - 1 ==> !(#[trigger] n[i] == '.' && n[i + 1] == '.')
}

pub fn is_valid_bucket_name(name: &str) -> (r: bool)
    ensures
        r == valid_bucket_name(name@),
{
    let n = chars_of(name);
    if n.len() < 3 || n.len() > 63 {
        return false;
    }
    let mut i: usize = 0;
    while i < n.len()
        invariant
            i <= n@.len(),
            n@ == name@,
            3 <= n@.len() <= 63,
            forall|j: int| 0 <= j < i ==> ('a' <= #[trigger] n@[j] <= 'z') || ('0' <= n@[j] <= '9') || n@[j] == '-' || n@[j] == '.',
            forall|j: int| 0 <= j < i && j < n@.len() - 1 ==> !(#[trigger] n@[j] == '.' && n@[j + 1] == '.'),
        decreases n.len() - i,
    {
        let c = n[i];
        if !(('a' <= c && c <= 'z') || ('0' <= c && c <= '9') || c == '-' || c == '.') {
            return false;
        }
        if i + 1 < n.len() && c == '.' && n[i + 1] == '.' {
            return false;
        }
        i = i + 1;
    }
    n[0] != '.' && n[n.len() - 1] != '.'
}

/// The bucket-level file that holds a sub-resource's document.
pub open spec fn sub_resource_file_spec(r: crate::routes::SubResource) -> Seq<char> {
    match r {
        crate::routes::SubResource::Policy => ".policy"@,
        crate::routes::SubResource::Encryption => ".encryption"@,
        crate::routes::SubResource::Cors => ".cors"@,
        crate::routes::SubResource::Lifecycle => ".lifecycle"@,
        crate::routes::SubResource::Acl => ".acl"@,
        crate::routes::SubResource::Location => ".location"@,
        crate::routes::SubResource::Uploads => ".multipart"@,
        crate::routes::SubResource::Versions => ".versions"@,
    }
}

pub fn sub_resource_file(r: crate::routes::SubResource) -> (f: &'static str)
    ensures
        f@ == sub_resource_file_spec(r),
{
    match r {
        crate::routes::SubResource::Policy => ".policy",
        crate::routes::SubResource::Encryption => ".encryption",
        crate::routes::SubResource::Cors => ".cors",
        crate::routes::SubResource::Lifecycle => ".lifecycle",
        crate::routes::SubResource::Acl => ".acl",
        crate::routes::SubResource::Location => ".location",
        crate::routes::SubResource::Uploads => ".multipart",
        crate::routes::SubResource::Versions => ".versions",
    }
}

} // verus!
