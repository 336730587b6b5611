//! Object-level decisions: sidecar metadata, user metadata from headers, the
//! metadata directive of a copy, version listings, and delete outcomes.

use vstd::prelude::*;
use crate::digest::{etag_of, etag_text};
use crate::models::ObjectEncryption;
use crate::text::{chars_equal, chars_of, has_prefix, starts_with, string_of};

verus! {

/// The sidecar of an object.
#[derive(Debug)]
pub struct ObjectMetadata {
    pub key: String,
    pub size: u64,
    /// Hex MD5 of the plaintext the client sent.
    pub etag: String,
    /// Milliseconds since the Unix epoch.
    pub last_modified_ms: u64,
    pub content_type: String,
    pub storage_class: String,
    /// User metadata (`x-amz-meta-*`), names without the prefix.
    pub metadata: Vec<(String, String)>,
    pub version_id: Option<String>,
    pub encryption: Option<ObjectEncryption>,
    pub tags: Option<Vec<(String, String)>>,
}

pub open spec fn pairs_view(p: Seq<(String, String)>) -> Seq<(Seq<char>, Seq<char>)> {
    Seq::new(p.len(), |i: int| (p[i].0@, p[i].1@))
}

/// The value of the last entry named `name`.
pub open spec fn lookup(p: Seq<(Seq<char>, Seq<char>)>, name: Seq<char>) -> Option<Seq<char>>
    decreases p.len(),
{
    if p.len() == 0 {
        None
    } else if p.last().0 == name {
        Some(p.last().1)
    } else {
        lookup(p.drop_last(), name)
    }
}

/// The sidecar assumed for an object file that has none: the MD5 of its bytes,
/// its modification time, and `application/octet-stream`.
pub fn metadata_without_sidecar(key: &str, data: &[u8], modified_ms: u64) -> (r: ObjectMetadata)
    ensures
        r.key@ == key@,
        r.size == data@.len(),
        r.etag@ == etag_text(data@),
        r.last_modified_ms == modified_ms,
        r.content_type@ == "application/octet-stream"@,
        r.storage_class@ == "STANDARD"@,
        r.metadata@.len() == 0,
        r.version_id is None,
        r.encryption is None,
        r.tags is None,
{
    ObjectMetadata {
        key: key.to_owned(),
        size: data.len() as u64,
        etag: etag_of(data),
        last_modified_ms: modified_ms,
        content_type: "application/octet-stream".to_owned(),
        storage_class: "STANDARD".to_owned(),
        metadata: Vec::new(),
        version_id: None,
        encryption: None,
        tags: None,
    }
}

/// The user metadata carried by request headers: each `x-amz-meta-<name>`
/// header gives `<name>`, in header order.
pub open spec fn user_metadata_spec(h: Seq<(Seq<char>, Seq<char>)>) -> Seq<(Seq<char>, Seq<char>)>
    decreases h.len(),
{
    if h.len() == 0 {
        Seq::empty()
    } else if has_prefix(h.last().0, "x-amz-meta-"@) {
        user_metadata_spec(h.drop_last()).push((h.last().0.subrange(11, h.last().0.len() as int), h.last().1))
    } else {
        user_metadata_spec(h.drop_last())
    }
}

pub fn user_metadata(headers: &Vec<(String, String)>) -> (r: Vec<(String, String)>)
    ensures
        pairs_view(r@) == user_metadata_spec(pairs_view(headers@)),
{
    let ghost hv = pairs_view(headers@);
    let prefix = chars_of("x-amz-meta-");
    proof {
        reveal_strlit("x-amz-meta-");
    }
    let mut out: Vec<(String, String)> = Vec::new();
    let mut i: usize = 0;
    while i < headers.len()
        invariant
            i <= headers@.len(),
            hv == pairs_view(headers@),
            prefix@ == "x-amz-meta-"@,
            prefix@.len() == 11,
            pairs_view(out@) == user_metadata_spec(hv.subrange(0, i as int)),
        decreases headers.len() - i,
    {
        assert(hv.subrange(0, i + 1).drop_last() =~= hv.subrange(0, i as int));
        assert(hv[i as int] == (headers@[i as int].0@, headers@[i as int].1@));
        let name = chars_of(headers[i].0.as_str());
        if starts_with(name.as_slice(), prefix.as_slice()) {
            let short = string_of(vstd::slice::slice_subrange(name.as_slice(), 11, name.len()));
            out.push((short, headers[i].1.clone()));
        }
        assert(pairs_view(out@) =~= user_metadata_spec(hv.subrange(0, i + 1)));
        i = i + 1;
    }
    assert(hv.subrange(0, headers@.len() as int) =~= hv);
    out
}

#[derive(Debug, Clone, Copy, PartialEq, Eq, Structural)]
pub enum MetadataDirective {
    /// Keep the source's metadata, with the request's entries laid over it.
    Copy,
    /// Take the request's metadata alone.
    Replace,
}

/// `REPLACE` selects replacement; anything else, or no header, means `COPY`.
pub fn parse_directive(header: Option<&str>) -> (r: MetadataDirective)
    ensures
        r == match header {
            Some(h) => if h@ == "REPLACE"@ {
                MetadataDirective::Replace
            } else {
                MetadataDirective::Copy
            },
            None => MetadataDirective::Copy,
        },
{
    match header {
        Some(h) => if chars_equal(chars_of(h).as_slice(), chars_of("REPLACE").as_slice()) {
            MetadataDirective::Replace
        } else {
            MetadataDirective::Copy
        },
        None => MetadataDirective::Copy,
    }
}

/// The user metadata of a copy: under `Replace` the request's entries; under
/// `Copy` the source's, then the request's, so that a request entry wins.
pub open spec fn copied_metadata(
    directive: MetadataDirective,
    source: Seq<(Seq<char>, Seq<char>)>,
    request: Seq<(Seq<char>, Seq<char>)>,
) -> Seq<(Seq<char>, Seq<char>)> {
    match directive {
        MetadataDirective::Replace => request,
        MetadataDirective::Copy => source + request,
    }
}

fn clone_pairs(p: &Vec<(String, String)>, out: &mut Vec<(String, String)>)
    ensures
        pairs_view(final(out)@) == pairs_view(old(out)@) + pairs_view(p@),
{
    let mut i: usize = 0;
    while i < p.len()
        invariant
            i <= p@.len(),
            pairs_view(out@) == pairs_view(old(out)@) + pairs_view(p@).subrange(0, i as int),
        decreases p.len() - i,
    {
        let ghost before = pairs_view(out@);
        out.push((p[i].0.clone(), p[i].1.clone()));
        assert(pairs_view(out@) =~= before.push((p@[i as int].0@, p@[i as int].1@)));
        assert(pairs_view(out@) =~= pairs_view(old(out)@) + pairs_view(p@).subrange(0, i + 1));
        i = i + 1;
    }
    assert(pairs_view(p@).subrange(0, p@.len() as int) =~= pairs_view(p@));
}

/// Applies the metadata directive of a copy.
pub fn merge_metadata(directive: MetadataDirective, source: &Vec<(String, String)>, request: &Vec<(String, String)>) -> (r: Vec<(String, String)>)
    ensures
        pairs_view(r@) == copied_metadata(directive, pairs_view(source@), pairs_view(request@)),
{
    let mut out: Vec<(String, String)> = Vec::new();
    if directive == MetadataDirective::Copy {
        clone_pairs(source, &mut out);
    }
    assert(directive == MetadataDirective::Replace ==> pairs_view(out@) =~= Seq::<(Seq<char>, Seq<char>)>::empty());
    clone_pairs(request, &mut out);
    assert(directive == MetadataDirective::Replace ==> pairs_view(out@) =~= pairs_view(request@));
    out
}

/// A copy keeps the source's metadata under `COPY` when the request names none,
/// and takes exactly the request's under `REPLACE`.
pub proof fn lemma_copy_keeps_metadata(source: Seq<(Seq<char>, Seq<char>)>, request: Seq<(Seq<char>, Seq<char>)>)
    ensures
        request.len() == 0 ==> copied_metadata(MetadataDirective::Copy, source, request) == source,
        copied_metadata(MetadataDirective::Replace, source, request) == request,
        forall|n: Seq<char>| lookup(request, n) is Some ==> #[trigger] lookup(copied_metadata(MetadataDirective::Copy, source, request), n) == lookup(request, n),
{
    if request.len() == 0 {
        assert(source + request =~= source);
    }
    assert forall|n: Seq<char>| lookup(request, n) is Some implies #[trigger] lookup(copied_metadata(MetadataDirective::Copy, source, request), n) == lookup(request, n) by {
        lemma_lookup_append(source, request, n);
    }
}

proof fn lemma_lookup_append(a: Seq<(Seq<char>, Seq<char>)>, b: Seq<(Seq<char>, Seq<char>)>, n: Seq<char>)
    requires
        lookup(b, n) is Some,
    ensures
        lookup(a + b, n) == lookup(b, n),
    decreases b.len(),
{
    if b.len() > 0 {
        assert((a + b).drop_last() =~= a + b.drop_last());
        if b.last().0 != n {
            lemma_lookup_append(a, b.drop_last(), n);
        }
    }
}

/// The content type of a copy: the request's where it names one, else the source's.
pub fn copied_content_type(source: &str, request: Option<&str>) -> (r: String)
    ensures
        r@ == match request {
            Some(c) => c@,
            None => source@,
        },
{
    match request {
        Some(c) => c.to_owned(),
        None => source.to_owned(),
    }
}

/// One stored version of an object.
#[derive(Debug)]
pub struct VersionEntry {
    pub version_id: String,
    pub last_modified_ms: u64,
    pub size: u64,
}

pub open spec fn version_views(v: Seq<VersionEntry>) -> Seq<(Seq<char>, u64, u64)> {
    Seq::new(v.len(), |i: int| (v[i].version_id@, v[i].last_modified_ms, v[i].size))
}

pub open spec fn newest_first(v: Seq<(Seq<char>, u64, u64)>) -> bool {
    forall|i: int, j: int| 0 <= i < j < v.len() ==> (#[trigger] v[i]).1 >= (#[trigger] v[j]).1
}

/// Orders the versions of an object newest first; versions written at the
/// same time keep their order.
pub fn sort_newest_first(versions: &Vec<VersionEntry>) -> (r: Vec<VersionEntry>)
    ensures
        newest_first(version_views(r@)),
        version_views(r@).to_multiset() == version_views(versions@).to_multiset(),
        r@.len() == versions@.len(),
{
    let ghost vv = version_views(versions@);
    let mut out: Vec<VersionEntry> = Vec::new();
    let mut i: usize = 0;
    assert(version_views(out@) =~= vv.subrange(0, 0));
    while i < versions.len()
        invariant
            i <= versions@.len(),
            vv == version_views(versions@),
            out@.len() == i,
            newest_first(version_views(out@)),
            version_views(out@).to_multiset() == vv.subrange(0, i as int).to_multiset(),
        decreases versions.len() - i,
    {
        let t = versions[i].last_modified_ms;
        let mut j: usize = 0;
        while j < out.len() && out[j].last_modified_ms >= t
            invariant
                j <= out@.len(),
                forall|k: int| 0 <= k < j ==> (#[trigger] out@[k]).last_modified_ms >= t,
            decreases out.len() - j,
        {
            j = j + 1;
        }
        let ghost before = version_views(out@);
        let e = VersionEntry { version_id: versions[i].version_id.clone(), last_modified_ms: t, size: versions[i].size };
        let ghost ev = (e.version_id@, e.last_modified_ms, e.size);
        out.insert(j, e);
        proof {
            assert(version_views(out@) =~= before.insert(j as int, ev));
            assert(vv.subrange(0, i + 1) =~= vv.subrange(0, i as int).push(vv[i as int]));
            assert(vv[i as int] == ev);
            vstd::seq_lib::to_multiset_insert(before, j as int, ev);
            vstd::seq_lib::to_multiset_build(vv.subrange(0, i as int), ev);
            let nv = version_views(out@);
            assert forall|a: int, b: int| 0 <= a < b < nv.len() implies (#[trigger] nv[a]).1 >= (#[trigger] nv[b]).1 by {
                if a < j && b == j {
                } else if a == j && b > j {
                    assert(nv[b] == before[b - 1]);
                    if b - 1 > j {
                        assert(before[j as int].1 >= before[b - 1].1);
                    }
                    assert(j < before.len() ==> before[j as int].1 < t);
                } else if a < j && b > j {
                    assert(nv[b] == before[b - 1]);
                } else if a > j {
                    assert(nv[a] == before[a - 1]);
                    assert(nv[b] == before[b - 1]);
                }
            }
        }
        i = i + 1;
    }
    assert(vv.subrange(0, versions@.len() as int) =~= vv);
    out
}

/// The status of a DELETE of an object: 204 whether or not it existed, so
/// that deleting twice answers 204 both times.
pub fn delete_status(existed: bool) -> (r: u16)
    ensures
        r == 204,
{
    204
}

/// The bytes of `;chunk-signature=`.
pub open spec fn chunk_signature_marker() -> Seq<u8> {
    seq![59u8, 99, 104, 117, 110, 107, 45, 115, 105, 103, 110, 97, 116, 117, 114, 101, 61]
}

/// A body sent with AWS chunk framing: longer than 100 bytes, with
/// `;chunk-signature=` within its first 100.
pub open spec fn looks_chunked(body: Seq<u8>) -> bool {
    body.len() > 100 && crate::chunked::first_match_from(body.subrange(0, 100), chunk_signature_marker(), 0) is Some
}

/// The object bytes of a PUT body: its chunk framing removed where it has one.
pub fn decode_put_body(body: &[u8]) -> (r: Vec<u8>)
    ensures
        r@ == if looks_chunked(body@) {
            crate::chunked::decode_chunked(body@)
        } else {
            body@
        },
{
    let marker: Vec<u8> = vec![59u8, 99, 104, 117, 110, 107, 45, 115, 105, 103, 110, 97, 116, 117, 114, 101, 61];
    assert(marker@ =~= chunk_signature_marker());
    if body.len() > 100 {
        let head = vstd::slice::slice_subrange(body, 0, 100);
        if crate::chunked::find_sequence(head, marker.as_slice()).is_some() {
            return crate::chunked::parse_chunked_data(body);
        }
    }
    vstd::slice::slice_to_vec(body)
}

/// A key that names a directory rather than an object: empty, or ending in `/`.
pub fn is_directory_key(key: &str) -> (r: bool)
    ensures
        r == (key@.len() == 0 || key@.last() == '/'),
{
    let k = chars_of(key);
    k.len() == 0 || k[k.len() - 1] == '/'
}

} // verus!
