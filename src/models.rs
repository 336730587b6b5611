//! The data model of bucket configuration documents, object sidecars and
//! request parameters.

use vstd::prelude::*;

verus! {

/// A bucket's default encryption: `AES256` or `aws:kms`.
#[derive(Debug, Clone)]
pub struct BucketEncryption {
    pub algorithm: String,
    pub kms_key_id: Option<String>,
}

#[derive(Debug, Clone)]
pub struct CorsConfiguration {
    pub cors_rules: Vec<CorsRule>,
}

#[derive(Debug, Clone)]
pub struct CorsRule {
    pub allowed_headers: Option<Vec<String>>,
    pub allowed_methods: Vec<String>,
    pub allowed_origins: Vec<String>,
    pub expose_headers: Option<Vec<String>>,
    pub max_age_seconds: Option<u32>,
    pub id: Option<String>,
}

#[derive(Debug, Clone)]
pub struct LifecycleConfiguration {
    pub rules: Vec<LifecycleRule>,
}

#[derive(Debug, Clone)]
pub struct LifecycleRule {
    pub id: Option<String>,
    /// `Enabled` or `Disabled`.
    pub status: String,
    pub filter: Option<LifecycleFilter>,
    pub transitions: Option<Vec<LifecycleTransition>>,
    pub expiration: Option<LifecycleExpiration>,
    pub noncurrent_version_transitions: Option<Vec<NoncurrentVersionTransition>>,
    pub noncurrent_version_expiration: Option<NoncurrentVersionExpiration>,
    pub abort_incomplete_multipart_upload: Option<AbortIncompleteMultipartUpload>,
}

#[derive(Debug, Clone)]
pub struct LifecycleFilter {
    pub prefix: Option<String>,
    pub tag: Option<LifecycleTag>,
    pub and: Option<LifecycleAnd>,
}

#[derive(Debug, Clone)]
pub struct LifecycleAnd {
    pub prefix: Option<String>,
    pub tags: Option<Vec<LifecycleTag>>,
}

#[derive(Debug, Clone)]
pub struct LifecycleTag {
    pub key: String,
    pub value: String,
}

#[derive(Debug, Clone)]
pub struct LifecycleTransition {
    pub days: Option<u32>,
    pub date: Option<String>,
    pub storage_class: String,
}

#[derive(Debug, Clone)]
pub struct LifecycleExpiration {
    pub days: Option<u32>,
    pub date: Option<String>,
    pub expired_object_delete_marker: Option<bool>,
}

#[derive(Debug, Clone)]
pub struct NoncurrentVersionTransition {
    pub noncurrent_days: u32,
    pub storage_class: String,
}

#[derive(Debug, Clone)]
pub struct NoncurrentVersionExpiration {
    pub noncurrent_days: u32,
}

#[derive(Debug, Clone)]
pub struct AbortIncompleteMultipartUpload {
    pub days_after_initiation: u32,
}

/// The key material of an encrypted object, as its sidecar stores it.
#[derive(Debug, Clone)]
pub struct ObjectEncryption {
    pub algorithm: String,
    pub key_base64: String,
    pub nonce_base64: String,
}

/// A staged part as the part's metadata file describes it.
#[derive(Debug, Clone)]
pub struct UploadPart {
    pub part_number: u32,
    pub etag: String,
    pub size: u64,
}

/// The query parameters of a request on a bucket. A parameter given without
/// a value (`?versioning`) is present with an empty value.
#[derive(Debug, Clone, Default)]
pub struct BucketQueryParams {
    pub location: Option<String>,
    pub versioning: Option<String>,
    pub versions: Option<String>,
    pub acl: Option<String>,
    pub policy: Option<String>,
    pub encryption: Option<String>,
    pub cors: Option<String>,
    pub lifecycle: Option<String>,
    pub uploads: Option<String>,
    pub delete: Option<String>,
    pub quota: Option<String>,
    pub stats: Option<String>,
    pub month: Option<String>,
    pub max_keys: Option<usize>,
    pub prefix: Option<String>,
    pub continuation_token: Option<String>,
    pub delimiter: Option<String>,
    pub list_type: Option<String>,
    pub version_id_marker: Option<String>,
    pub key_marker: Option<String>,
}

/// The query parameters of a request on an object.
#[derive(Debug, Clone, Default)]
pub struct ObjectQueryParams {
    pub uploads: Option<String>,
    pub upload_id: Option<String>,
    pub part_number: Option<u32>,
    pub acl: Option<String>,
    pub versions: Option<String>,
    pub version_id: Option<String>,
    pub tagging: Option<String>,
}

/// The parameters of a ListObjects request.
#[derive(Debug, Clone, Default)]
pub struct ListObjectsParams {
    pub prefix: Option<String>,
    pub delimiter: Option<String>,
    pub max_keys: Option<usize>,
    pub continuation_token: Option<String>,
    pub list_type: Option<u8>,
}

/// Per-bucket configuration documents, keyed by bucket name.
pub struct BucketConfigs<T> {
    pub entries: Vec<(String, T)>,
}

/// The document stored for `bucket`, if any.
pub open spec fn config_of<T>(es: Seq<(String, T)>, bucket: Seq<char>) -> Option<T>
    decreases es.len(),
{
    if es.len() == 0 {
        None
    } else if es.last().0@ == bucket {
        Some(es.last().1)
    } else {
        config_of(es.drop_last(), bucket)
    }
}

impl<T> BucketConfigs<T> {
    pub open spec fn lookup(&self, bucket: Seq<char>) -> Option<T> {
        config_of(self.entries@, bucket)
    }

    pub fn new() -> (r: BucketConfigs<T>)
        ensures
            forall|b: Seq<char>| r.lookup(b) is None,
    {
        BucketConfigs { entries: Vec::new() }
    }

    fn position(&self, bucket: &str) -> (r: Option<usize>)
        ensures
            match r {
                Some(i) => i < self.entries@.len() && self.entries@[i as int].0@ == bucket@
                    && forall|j: int| i < j < self.entries@.len() ==> self.entries@[j].0@ != bucket@,
                None => forall|j: int| 0 <= j < self.entries@.len() ==> self.entries@[j].0@ != bucket@,
            },
    {
        let b = crate::text::chars_of(bucket);
        let mut i: usize = self.entries.len();
        while i > 0
            invariant
                i <= self.entries@.len(),
                b@ == bucket@,
                forall|j: int| i <= j < self.entries@.len() ==> self.entries@[j].0@ != bucket@,
            decreases i,
        {
            if crate::text::chars_equal(crate::text::chars_of(self.entries[i - 1].0.as_str()).as_slice(), b.as_slice()) {
                return Some(i - 1);
            }
            i = i - 1;
        }
        None
    }

    /// The document stored for `bucket`.
    pub fn get(&self, bucket: &str) -> (r: Option<&T>)
        ensures
            match r {
                Some(x) => self.lookup(bucket@) == Some(*x),
                None => self.lookup(bucket@) is None,
            },
    {
        proof {
            lemma_config_of(self.entries@, bucket@);
        }
        match self.position(bucket) {
            Some(i) => Some(&self.entries[i].1),
            None => None,
        }
    }

    /// Stores `config` for `bucket`, replacing what was there.
    pub fn set(&mut self, bucket: &str, config: T)
        ensures
            final(self).lookup(bucket@) == Some(config),
            forall|b: Seq<char>| b != bucket@ ==> final(self).lookup(b) == old(self).lookup(b),
    {
        match self.position(bucket) {
            Some(i) => {
                let ghost es = self.entries@;
                let name = bucket.to_owned();
                self.entries.set(i, (name, config));
                proof {
                    lemma_config_update(es, i as int, self.entries@[i as int]);
                    lemma_config_of(self.entries@, bucket@);
                    assert forall|j: int| i < j < self.entries@.len() implies self.entries@[j].0@ != bucket@ by {
                        assert(self.entries@[j] == es[j]);
                    }
                }
            },
            None => {
                self.entries.push((bucket.to_owned(), config));
                assert forall|b: Seq<char>| b != bucket@ implies self.lookup(b) == old(self).lookup(b) by {
                    assert(self.entries@.drop_last() =~= old(self).entries@);
                }
                assert(self.entries@.last().0@ == bucket@);
            },
        }
    }

    /// Removes the document of `bucket`.
    pub fn delete(&mut self, bucket: &str)
        ensures
            final(self).lookup(bucket@) is None,
            forall|b: Seq<char>| b != bucket@ ==> final(self).lookup(b) == old(self).lookup(b),
    {
        let mut kept: Vec<(String, T)> = Vec::new();
        let b = crate::text::chars_of(bucket);
        while self.entries.len() > 0
            invariant
                b@ == bucket@,
                forall|x: Seq<char>| x != bucket@ ==> config_of(self.entries@ + kept@, x) == old(self).lookup(x),
                forall|j: int| 0 <= j < kept@.len() ==> kept@[j].0@ != bucket@,
            decreases self.entries.len(),
        {
            let ghost before = self.entries@;
            let e = self.entries.pop().unwrap();
            if !crate::text::chars_equal(crate::text::chars_of(e.0.as_str()).as_slice(), b.as_slice()) {
                let ghost k0 = kept@;
                kept.insert(0, e);
                proof {
                    assert(before =~= self.entries@.push(e));
                    assert forall|x: Seq<char>| x != bucket@ implies config_of(self.entries@ + kept@, x) == old(self).lookup(x) by {
                        assert(self.entries@ + kept@ =~= before + k0);
                    }
                }
            } else {
                proof {
                    assert forall|x: Seq<char>| x != bucket@ implies config_of(self.entries@ + kept@, x) == old(self).lookup(x) by {
                        lemma_config_skip(self.entries@, e, kept@, x);
                        assert(before + kept@ =~= self.entries@.push(e) + kept@);
                    }
                }
            }
        }
        assert(self.entries@ + kept@ =~= kept@);
        self.entries = kept;
        proof {
            lemma_config_absent(self.entries@, bucket@);
        }
    }
}

proof fn lemma_config_of<T>(es: Seq<(String, T)>, bucket: Seq<char>)
    ensures
        forall|i: int| 0 <= i < es.len() && es[i].0@ == bucket && (forall|j: int| i < j < es.len() ==> es[j].0@ != bucket) ==> config_of(es, bucket) == Some(es[i].1),
        (forall|j: int| 0 <= j < es.len() ==> es[j].0@ != bucket) ==> config_of(es, bucket) is None,
    decreases es.len(),
{
    if es.len() > 0 {
        lemma_config_of(es.drop_last(), bucket);
        assert forall|i: int| 0 <= i < es.len() && es[i].0@ == bucket && (forall|j: int| i < j < es.len() ==> es[j].0@ != bucket) implies config_of(es, bucket) == Some(es[i].1) by {
            if i < es.len() - 1 {
                assert(es.drop_last()[i] == es[i]);
                assert(es[es.len() - 1].0@ != bucket);
            }
        }
    }
}

proof fn lemma_config_update<T>(es: Seq<(String, T)>, i: int, e: (String, T))
    requires
        0 <= i < es.len(),
        e.0@ == es[i].0@,
    ensures
        forall|b: Seq<char>| b != e.0@ ==> #[trigger] config_of(es.update(i, e), b) == config_of(es, b),
    decreases es.len(),
{
    assert forall|b: Seq<char>| b != e.0@ implies #[trigger] config_of(es.update(i, e), b) == config_of(es, b) by {
        lemma_config_update_one(es, i, e, b);
    }
}

proof fn lemma_config_update_one<T>(es: Seq<(String, T)>, i: int, e: (String, T), b: Seq<char>)
    requires
        0 <= i < es.len(),
        e.0@ == es[i].0@,
        b != e.0@,
    ensures
        config_of(es.update(i, e), b) == config_of(es, b),
    decreases es.len(),
{
    let u = es.update(i, e);
    if i == es.len() - 1 {
        assert(u.drop_last() =~= es.drop_last());
    } else {
        assert(u.drop_last() =~= es.drop_last().update(i, e));
        assert(u.last() == es.last());
        lemma_config_update_one(es.drop_last(), i, e, b);
    }
}

proof fn lemma_config_absent<T>(es: Seq<(String, T)>, bucket: Seq<char>)
    requires
        forall|j: int| 0 <= j < es.len() ==> es[j].0@ != bucket,
    ensures
        config_of(es, bucket) is None,
{
    lemma_config_of(es, bucket);
}

proof fn lemma_config_skip<T>(front: Seq<(String, T)>, e: (String, T), back: Seq<(String, T)>, x: Seq<char>)
    requires
        e.0@ != x,
    ensures
        config_of(front.push(e) + back, x) == config_of(front + back, x),
    decreases back.len(),
{
    if back.len() == 0 {
        assert(front.push(e) + back =~= front.push(e));
        assert(front + back =~= front);
        assert(front.push(e).drop_last() =~= front);
    } else {
        assert((front.push(e) + back).drop_last() =~= front.push(e) + back.drop_last());
        assert((front + back).drop_last() =~= front + back.drop_last());
        lemma_config_skip(front, e, back.drop_last(), x);
    }
}

} // verus!
