//! The XML documents of successful responses.

use vstd::prelude::*;
use crate::errors::{push_escaped, push_text, xml_escaped};
use crate::wal::{decimal_text, push_decimal};

verus! {

pub open spec fn prolog() -> Seq<char> {
    "<?xml version=\"1.0\" encoding=\"UTF-8\"?>\n"@
}

/// `<tag>text</tag>`, the text escaped.
pub open spec fn element(tag: Seq<char>, text: Seq<char>) -> Seq<char> {
    "<"@ + tag + ">"@ + xml_escaped(text) + "</"@ + tag + ">"@
}

/// `<tag>n</tag>` with `n` in decimal.
pub open spec fn number_element(tag: Seq<char>, n: nat) -> Seq<char> {
    "<"@ + tag + ">"@ + decimal_text(n) + "</"@ + tag + ">"@
}

pub fn push_element(out: &mut Vec<char>, tag: &str, text: &str)
    ensures
        final(out)@ == old(out)@ + element(tag@, text@),
{
    push_text(out, "<");
    push_text(out, tag);
    push_text(out, ">");
    push_escaped(out, text);
    push_text(out, "</");
    push_text(out, tag);
    push_text(out, ">");
    assert(final(out)@ =~= old(out)@ + element(tag@, text@));
}

pub fn push_number(out: &mut Vec<char>, tag: &str, n: u64)
    ensures
        final(out)@ == old(out)@ + number_element(tag@, n as nat),
{
    push_text(out, "<");
    push_text(out, tag);
    push_text(out, ">");
    push_decimal(out, n);
    push_text(out, "</");
    push_text(out, tag);
    push_text(out, ">");
    assert(final(out)@ =~= old(out)@ + number_element(tag@, n as nat));
}

/// `<Bucket><Name>n</Name></Bucket>` for each name.
pub open spec fn buckets_part(names: Seq<String>) -> Seq<char>
    decreases names.len(),
{
    if names.len() == 0 {
        Seq::empty()
    } else {
        buckets_part(names.drop_last()) + "<Bucket>"@ + element("Name"@, names.last()@) + "</Bucket>"@
    }
}

/// The ListAllMyBuckets answer.
pub fn list_buckets_xml(names: &Vec<String>) -> (r: String)
    ensures
        r@ == prolog() + "<ListAllMyBucketsResult><Buckets>"@ + buckets_part(names@) + "</Buckets></ListAllMyBucketsResult>"@,
{
    let mut out: Vec<char> = Vec::new();
    push_text(&mut out, "<?xml version=\"1.0\" encoding=\"UTF-8\"?>\n");
    push_text(&mut out, "<ListAllMyBucketsResult><Buckets>");
    let ghost head = out@;
    let mut i: usize = 0;
    while i < names.len()
        invariant
            i <= names@.len(),
            out@ == head + buckets_part(names@.subrange(0, i as int)),
        decreases names.len() - i,
    {
        assert(names@.subrange(0, i + 1).drop_last() =~= names@.subrange(0, i as int));
        push_text(&mut out, "<Bucket>");
        push_element(&mut out, "Name", names[i].as_str());
        push_text(&mut out, "</Bucket>");
        assert(out@ =~= head + buckets_part(names@.subrange(0, i + 1)));
        i = i + 1;
    }
    assert(names@.subrange(0, names@.len() as int) =~= names@);
    push_text(&mut out, "</Buckets></ListAllMyBucketsResult>");
    assert(out@ =~= prolog() + "<ListAllMyBucketsResult><Buckets>"@ + buckets_part(names@) + "</Buckets></ListAllMyBucketsResult>"@);
    crate::text::string_of(out.as_slice())
}

/// `<Contents>` for each key and size.
pub open spec fn contents_part(entries: Seq<(String, u64)>) -> Seq<char>
    decreases entries.len(),
{
    if entries.len() == 0 {
        Seq::empty()
    } else {
        contents_part(entries.drop_last()) + "<Contents>"@ + element("Key"@, entries.last().0@) + "<Size>"@
            + decimal_text(entries.last().1 as nat) + "</Size><StorageClass>STANDARD</StorageClass></Contents>"@
    }
}

/// `<CommonPrefixes>` for each prefix.
pub open spec fn prefixes_part(ps: Seq<String>) -> Seq<char>
    decreases ps.len(),
{
    if ps.len() == 0 {
        Seq::empty()
    } else {
        prefixes_part(ps.drop_last()) + "<CommonPrefixes>"@ + element("Prefix"@, ps.last()@) + "</CommonPrefixes>"@
    }
}

/// The ListObjects (V2) answer for one page: `entries` holds each listed key
/// with its size, `next_token` the continuation token where the page is cut.
pub fn list_objects_xml(
    bucket: &str,
    prefix: &str,
    max_keys: u64,
    is_truncated: bool,
    next_token: Option<&str>,
    entries: &Vec<(String, u64)>,
    common_prefixes: &Vec<String>,
) -> (r: String)
    ensures
        r@ == prolog() + "<ListBucketResult xmlns=\"http://s3.amazonaws.com/doc/2006-03-01/\">"@ + element("Name"@, bucket@)
            + element("Prefix"@, prefix@) + number_element("MaxKeys"@, max_keys as nat)
            + element("IsTruncated"@, if is_truncated { "true"@ } else { "false"@ }) + number_element("KeyCount"@, entries@.len()) + match next_token {
                Some(t) => element("NextContinuationToken"@, t@),
                None => Seq::empty(),
            } + contents_part(entries@) + prefixes_part(common_prefixes@) + "</ListBucketResult>"@,
{
    let mut out: Vec<char> = Vec::new();
    push_text(&mut out, "<?xml version=\"1.0\" encoding=\"UTF-8\"?>\n");
    push_text(&mut out, "<ListBucketResult xmlns=\"http://s3.amazonaws.com/doc/2006-03-01/\">");
    push_element(&mut out, "Name", bucket);
    push_element(&mut out, "Prefix", prefix);
    push_number(&mut out, "MaxKeys", max_keys);
    push_element(&mut out, "IsTruncated", if is_truncated { "true" } else { "false" });
    push_number(&mut out, "KeyCount", entries.len() as u64);
    match next_token {
        Some(t) => push_element(&mut out, "NextContinuationToken", t),
        None => {},
    }
    let ghost head = out@;
    assert((entries.len() as u64) as nat == entries@.len());
    assert(head =~= prolog() + "<ListBucketResult xmlns=\"http://s3.amazonaws.com/doc/2006-03-01/\">"@ + element("Name"@, bucket@)
            + element("Prefix"@, prefix@) + number_element("MaxKeys"@, max_keys as nat)
            + element("IsTruncated"@, if is_truncated { "true"@ } else { "false"@ }) + number_element("KeyCount"@, entries@.len()) + match next_token {
                Some(t) => element("NextContinuationToken"@, t@),
                None => Seq::empty(),
            });
    let mut i: usize = 0;
    while i < entries.len()
        invariant
            i <= entries@.len(),
            out@ == head + contents_part(entries@.subrange(0, i as int)),
        decreases entries.len() - i,
    {
        assert(entries@.subrange(0, i + 1).drop_last() =~= entries@.subrange(0, i as int));
        push_text(&mut out, "<Contents>");
        push_element(&mut out, "Key", entries[i].0.as_str());
        push_text(&mut out, "<Size>");
        push_decimal(&mut out, entries[i].1);
        push_text(&mut out, "</Size><StorageClass>STANDARD</StorageClass></Contents>");
        assert(out@ =~= head + contents_part(entries@.subrange(0, i + 1)));
        i = i + 1;
    }
    assert(entries@.subrange(0, entries@.len() as int) =~= entries@);
    let ghost mid = out@;
    let mut j: usize = 0;
    while j < common_prefixes.len()
        invariant
            j <= common_prefixes@.len(),
            out@ == mid + prefixes_part(common_prefixes@.subrange(0, j as int)),
        decreases common_prefixes.len() - j,
    {
        assert(common_prefixes@.subrange(0, j + 1).drop_last() =~= common_prefixes@.subrange(0, j as int));
        push_text(&mut out, "<CommonPrefixes>");
        push_element(&mut out, "Prefix", common_prefixes[j].as_str());
        push_text(&mut out, "</CommonPrefixes>");
        assert(out@ =~= mid + prefixes_part(common_prefixes@.subrange(0, j + 1)));
        j = j + 1;
    }
    assert(common_prefixes@.subrange(0, common_prefixes@.len() as int) =~= common_prefixes@);
    push_text(&mut out, "</ListBucketResult>");
    assert(out@ =~= prolog() + "<ListBucketResult xmlns=\"http://s3.amazonaws.com/doc/2006-03-01/\">"@ + element("Name"@, bucket@)
            + element("Prefix"@, prefix@) + number_element("MaxKeys"@, max_keys as nat)
            + element("IsTruncated"@, if is_truncated { "true"@ } else { "false"@ }) + number_element("KeyCount"@, entries@.len()) + match next_token {
                Some(t) => element("NextContinuationToken"@, t@),
                None => Seq::empty(),
            } + contents_part(entries@) + prefixes_part(common_prefixes@) + "</ListBucketResult>"@);
    crate::text::string_of(out.as_slice())
}

/// `<Tag>` for each key and value.
pub open spec fn tags_part(tags: Seq<(String, String)>) -> Seq<char>
    decreases tags.len(),
{
    if tags.len() == 0 {
        Seq::empty()
    } else {
        tags_part(tags.drop_last()) + "<Tag>"@ + element("Key"@, tags.last().0@) + element("Value"@, tags.last().1@) + "</Tag>"@
    }
}

/// The GET-tagging answer.
pub fn tagging_xml(tags: &Vec<(String, String)>) -> (r: String)
    ensures
        r@ == prolog() + "<Tagging><TagSet>"@ + tags_part(tags@) + "</TagSet></Tagging>"@,
{
    let mut out: Vec<char> = Vec::new();
    push_text(&mut out, "<?xml version=\"1.0\" encoding=\"UTF-8\"?>\n");
    push_text(&mut out, "<Tagging><TagSet>");
    let ghost head = out@;
    let mut i: usize = 0;
    while i < tags.len()
        invariant
            i <= tags@.len(),
            out@ == head + tags_part(tags@.subrange(0, i as int)),
        decreases tags.len() - i,
    {
        assert(tags@.subrange(0, i + 1).drop_last() =~= tags@.subrange(0, i as int));
        push_text(&mut out, "<Tag>");
        push_element(&mut out, "Key", tags[i].0.as_str());
        push_element(&mut out, "Value", tags[i].1.as_str());
        push_text(&mut out, "</Tag>");
        assert(out@ =~= head + tags_part(tags@.subrange(0, i + 1)));
        i = i + 1;
    }
    assert(tags@.subrange(0, tags@.len() as int) =~= tags@);
    push_text(&mut out, "</TagSet></Tagging>");
    assert(out@ =~= prolog() + "<Tagging><TagSet>"@ + tags_part(tags@) + "</TagSet></Tagging>"@);
    crate::text::string_of(out.as_slice())
}

/// `<Deleted><Key>k</Key></Deleted>` for each key.
pub open spec fn deleted_part(keys: Seq<String>) -> Seq<char>
    decreases keys.len(),
{
    if keys.len() == 0 {
        Seq::empty()
    } else {
        deleted_part(keys.drop_last()) + "<Deleted>"@ + element("Key"@, keys.last()@) + "</Deleted>"@
    }
}

/// The batch-delete answer.
pub fn delete_result_xml(keys: &Vec<String>) -> (r: String)
    ensures
        r@ == prolog() + "<DeleteResult>"@ + deleted_part(keys@) + "</DeleteResult>"@,
{
    let mut out: Vec<char> = Vec::new();
    push_text(&mut out, "<?xml version=\"1.0\" encoding=\"UTF-8\"?>\n");
    push_text(&mut out, "<DeleteResult>");
    let ghost head = out@;
    let mut i: usize = 0;
    while i < keys.len()
        invariant
            i <= keys@.len(),
            out@ == head + deleted_part(keys@.subrange(0, i as int)),
        decreases keys.len() - i,
    {
        assert(keys@.subrange(0, i + 1).drop_last() =~= keys@.subrange(0, i as int));
        push_text(&mut out, "<Deleted>");
        push_element(&mut out, "Key", keys[i].as_str());
        push_text(&mut out, "</Deleted>");
        assert(out@ =~= head + deleted_part(keys@.subrange(0, i + 1)));
        i = i + 1;
    }
    assert(keys@.subrange(0, keys@.len() as int) =~= keys@);
    push_text(&mut out, "</DeleteResult>");
    assert(out@ =~= prolog() + "<DeleteResult>"@ + deleted_part(keys@) + "</DeleteResult>"@);
    crate::text::string_of(out.as_slice())
}

/// The answer to initiating a multipart upload.
pub fn initiate_xml(bucket: &str, key: &str, upload_id: &str) -> (r: String)
    ensures
        r@ == prolog() + "<InitiateMultipartUploadResult>"@ + element("Bucket"@, bucket@) + element("Key"@, key@)
            + element("UploadId"@, upload_id@) + "</InitiateMultipartUploadResult>"@,
{
    let mut out: Vec<char> = Vec::new();
    push_text(&mut out, "<?xml version=\"1.0\" encoding=\"UTF-8\"?>\n");
    push_text(&mut out, "<InitiateMultipartUploadResult>");
    push_element(&mut out, "Bucket", bucket);
    push_element(&mut out, "Key", key);
    push_element(&mut out, "UploadId", upload_id);
    push_text(&mut out, "</InitiateMultipartUploadResult>");
    assert(out@ =~= prolog() + "<InitiateMultipartUploadResult>"@ + element("Bucket"@, bucket@) + element("Key"@, key@)
            + element("UploadId"@, upload_id@) + "</InitiateMultipartUploadResult>"@);
    crate::text::string_of(out.as_slice())
}

/// The answer to completing a multipart upload; the ETag is quoted.
pub fn complete_xml(bucket: &str, key: &str, etag: &str) -> (r: String)
    ensures
        r@ == prolog() + "<CompleteMultipartUploadResult>"@ + element("Bucket"@, bucket@) + element("Key"@, key@)
            + "<ETag>&quot;"@ + xml_escaped(etag@) + "&quot;</ETag></CompleteMultipartUploadResult>"@,
{
    let mut out: Vec<char> = Vec::new();
    push_text(&mut out, "<?xml version=\"1.0\" encoding=\"UTF-8\"?>\n");
    push_text(&mut out, "<CompleteMultipartUploadResult>");
    push_element(&mut out, "Bucket", bucket);
    push_element(&mut out, "Key", key);
    push_text(&mut out, "<ETag>&quot;");
    push_escaped(&mut out, etag);
    push_text(&mut out, "&quot;</ETag></CompleteMultipartUploadResult>");
    assert(out@ =~= prolog() + "<CompleteMultipartUploadResult>"@ + element("Bucket"@, bucket@) + element("Key"@, key@)
            + "<ETag>&quot;"@ + xml_escaped(etag@) + "&quot;</ETag></CompleteMultipartUploadResult>"@);
    crate::text::string_of(out.as_slice())
}

/// The answer to a copy.
pub fn copy_result_xml(etag: &str, last_modified: &str) -> (r: String)
    ensures
        r@ == prolog() + "<CopyObjectResult>"@ + element("LastModified"@, last_modified@) + "<ETag>&quot;"@
            + xml_escaped(etag@) + "&quot;</ETag></CopyObjectResult>"@,
{
    let mut out: Vec<char> = Vec::new();
    push_text(&mut out, "<?xml version=\"1.0\" encoding=\"UTF-8\"?>\n");
    push_text(&mut out, "<CopyObjectResult>");
    push_element(&mut out, "LastModified", last_modified);
    push_text(&mut out, "<ETag>&quot;");
    push_escaped(&mut out, etag);
    push_text(&mut out, "&quot;</ETag></CopyObjectResult>");
    assert(out@ =~= prolog() + "<CopyObjectResult>"@ + element("LastModified"@, last_modified@) + "<ETag>&quot;"@
            + xml_escaped(etag@) + "&quot;</ETag></CopyObjectResult>"@);
    crate::text::string_of(out.as_slice())
}

/// The GET-versioning answer; a bucket never configured has no status.
pub fn versioning_xml(status: Option<&str>) -> (r: String)
    ensures
        r@ == prolog() + "<VersioningConfiguration>"@ + match status {
            Some(s) => element("Status"@, s@),
            None => Seq::empty(),
        } + "</VersioningConfiguration>"@,
{
    let mut out: Vec<char> = Vec::new();
    push_text(&mut out, "<?xml version=\"1.0\" encoding=\"UTF-8\"?>\n");
    push_text(&mut out, "<VersioningConfiguration>");
    match status {
        Some(s) => push_element(&mut out, "Status", s),
        None => {},
    }
    push_text(&mut out, "</VersioningConfiguration>");
    assert(out@ =~= prolog() + "<VersioningConfiguration>"@ + match status {
            Some(s) => element("Status"@, s@),
            None => Seq::empty(),
        } + "</VersioningConfiguration>"@);
    crate::text::string_of(out.as_slice())
}

/// `<Version>` for each version of `key`, the first marked latest.
pub open spec fn versions_part(key: Seq<char>, vs: Seq<crate::objects::VersionEntry>, first: bool) -> Seq<char>
    decreases vs.len(),
{
    if vs.len() == 0 {
        Seq::empty()
    } else {
        let last_is_first = first && vs.len() == 1;
        versions_part(key, vs.drop_last(), first) + "<Version>"@ + element("Key"@, key) + element("VersionId"@, vs.last().version_id@)
            + element("IsLatest"@, if last_is_first { "true"@ } else { "false"@ }) + number_element("Size"@, vs.last().size as nat)
            + "</Version>"@
    }
}

fn push_versions(out: &mut Vec<char>, key: &str, versions: &Vec<crate::objects::VersionEntry>)
    ensures
        final(out)@ == old(out)@ + versions_part(key@, versions@, true),
{
    let ghost head = out@;
    let mut i: usize = 0;
    assert(out@ =~= head + versions_part(key@, versions@.subrange(0, 0), true));
    while i < versions.len()
        invariant
            i <= versions@.len(),
            out@ == head + versions_part(key@, versions@.subrange(0, i as int), true),
        decreases versions.len() - i,
    {
        assert(versions@.subrange(0, i + 1).drop_last() =~= versions@.subrange(0, i as int));
        push_text(out, "<Version>");
        push_element(out, "Key", key);
        push_element(out, "VersionId", versions[i].version_id.as_str());
        push_element(out, "IsLatest", if i == 0 { "true" } else { "false" });
        push_number(out, "Size", versions[i].size);
        push_text(out, "</Version>");
        assert(out@ =~= head + versions_part(key@, versions@.subrange(0, i + 1), true));
        i = i + 1;
    }
    assert(versions@.subrange(0, versions@.len() as int) =~= versions@);
}

pub open spec fn groups_part(gs: Seq<(String, Vec<crate::objects::VersionEntry>)>) -> Seq<char>
    decreases gs.len(),
{
    if gs.len() == 0 {
        Seq::empty()
    } else {
        groups_part(gs.drop_last()) + versions_part(gs.last().0@, gs.last().1@, true)
    }
}

/// The versions listing of a bucket: for each key, its versions in the order
/// given (newest first), the first marked latest.
pub fn bucket_versions_xml(groups: &Vec<(String, Vec<crate::objects::VersionEntry>)>) -> (r: String)
    ensures
        r@ == prolog() + "<ListVersionsResult>"@ + groups_part(groups@) + "</ListVersionsResult>"@,
{
    let mut out: Vec<char> = Vec::new();
    push_text(&mut out, "<?xml version=\"1.0\" encoding=\"UTF-8\"?>\n");
    push_text(&mut out, "<ListVersionsResult>");
    let ghost head = out@;
    let mut i: usize = 0;
    while i < groups.len()
        invariant
            i <= groups@.len(),
            out@ == head + groups_part(groups@.subrange(0, i as int)),
        decreases groups.len() - i,
    {
        assert(groups@.subrange(0, i + 1).drop_last() =~= groups@.subrange(0, i as int));
        push_versions(&mut out, groups[i].0.as_str(), &groups[i].1);
        assert(out@ =~= head + groups_part(groups@.subrange(0, i + 1)));
        i = i + 1;
    }
    assert(groups@.subrange(0, groups@.len() as int) =~= groups@);
    push_text(&mut out, "</ListVersionsResult>");
    assert(out@ =~= prolog() + "<ListVersionsResult>"@ + groups_part(groups@) + "</ListVersionsResult>"@);
    crate::text::string_of(out.as_slice())
}

/// The versions listing of one key, in the order given (newest first).
pub fn versions_xml(key: &str, versions: &Vec<crate::objects::VersionEntry>) -> (r: String)
    ensures
        r@ == prolog() + "<ListVersionsResult>"@ + versions_part(key@, versions@, true) + "</ListVersionsResult>"@,
{
    let mut out: Vec<char> = Vec::new();
    push_text(&mut out, "<?xml version=\"1.0\" encoding=\"UTF-8\"?>\n");
    push_text(&mut out, "<ListVersionsResult>");
    let ghost head = out@;
    let mut i: usize = 0;
    while i < versions.len()
        invariant
            i <= versions@.len(),
            out@ == head + versions_part(key@, versions@.subrange(0, i as int), true),
        decreases versions.len() - i,
    {
        assert(versions@.subrange(0, i + 1).drop_last() =~= versions@.subrange(0, i as int));
        push_text(&mut out, "<Version>");
        push_element(&mut out, "Key", key);
        push_element(&mut out, "VersionId", versions[i].version_id.as_str());
        push_element(&mut out, "IsLatest", if i == 0 { "true" } else { "false" });
        push_number(&mut out, "Size", versions[i].size);
        push_text(&mut out, "</Version>");
        assert(out@ =~= head + versions_part(key@, versions@.subrange(0, i + 1), true));
        i = i + 1;
    }
    assert(versions@.subrange(0, versions@.len() as int) =~= versions@);
    push_text(&mut out, "</ListVersionsResult>");
    assert(out@ =~= prolog() + "<ListVersionsResult>"@ + versions_part(key@, versions@, true) + "</ListVersionsResult>"@);
    crate::text::string_of(out.as_slice())
}

/// The GET-encryption answer.
pub fn encryption_xml(config: &crate::models::BucketEncryption) -> (r: String)
    ensures
        r@ == prolog() + "<ServerSideEncryptionConfiguration xmlns=\"http://s3.amazonaws.com/doc/2006-03-01/\"><Rule><ApplyServerSideEncryptionByDefault>"@
            + element("SSEAlgorithm"@, config.algorithm@) + match config.kms_key_id {
                Some(k) => element("KMSMasterKeyID"@, k@),
                None => Seq::empty(),
            } + "</ApplyServerSideEncryptionByDefault></Rule></ServerSideEncryptionConfiguration>"@,
{
    let mut out: Vec<char> = Vec::new();
    push_text(&mut out, "<?xml version=\"1.0\" encoding=\"UTF-8\"?>\n");
    push_text(&mut out, "<ServerSideEncryptionConfiguration xmlns=\"http://s3.amazonaws.com/doc/2006-03-01/\"><Rule><ApplyServerSideEncryptionByDefault>");
    push_element(&mut out, "SSEAlgorithm", config.algorithm.as_str());
    match &config.kms_key_id {
        Some(k) => push_element(&mut out, "KMSMasterKeyID", k.as_str()),
        None => {},
    }
    push_text(&mut out, "</ApplyServerSideEncryptionByDefault></Rule></ServerSideEncryptionConfiguration>");
    assert(out@ =~= prolog() + "<ServerSideEncryptionConfiguration xmlns=\"http://s3.amazonaws.com/doc/2006-03-01/\"><Rule><ApplyServerSideEncryptionByDefault>"@
            + element("SSEAlgorithm"@, config.algorithm@) + match config.kms_key_id {
                Some(k) => element("KMSMasterKeyID"@, k@),
                None => Seq::empty(),
            } + "</ApplyServerSideEncryptionByDefault></Rule></ServerSideEncryptionConfiguration>"@);
    crate::text::string_of(out.as_slice())
}

} // verus!
