//! XML request bodies: a batch delete
//! (`<Delete><Object><Key>k</Key><VersionId>v</VersionId></Object>...</Delete>`)
//! and an object's tag set (`<Tagging><TagSet><Tag><Key>k</Key><Value>v</Value></Tag>...`).

use vstd::prelude::*;
use crate::listing::{find_chars, find_from, lemma_find_from};
use crate::text::{chars_of, string_of};

verus! {

/// The pieces of `s` from `from` on between occurrences of `sep`.
pub open spec fn split_str(s: Seq<char>, sep: Seq<char>, from: int) -> Seq<Seq<char>>
    decreases s.len() - from,
    via split_str_decreases
{
    if from < 0 || from > s.len() || sep.len() == 0 {
        seq![s.subrange(if 0 <= from <= s.len() { from } else { s.len() as int }, s.len() as int)]
    } else {
        match find_from(s, sep, from) {
            None => seq![s.subrange(from, s.len() as int)],
            Some(i) => seq![s.subrange(from, i)] + split_str(s, sep, i + sep.len()),
        }
    }
}

#[via_fn]
proof fn split_str_decreases(s: Seq<char>, sep: Seq<char>, from: int) {
    if 0 <= from <= s.len() && sep.len() > 0 {
        lemma_find_from(s, sep, from);
    }
}

/// The text between the first `open` and the first `close` of `s`, where both
/// occur in that order.
pub open spec fn element_text(s: Seq<char>, open: Seq<char>, close: Seq<char>) -> Option<Seq<char>> {
    match (find_from(s, open, 0), find_from(s, close, 0)) {
        (Some(a), Some(b)) => if a + open.len() <= b {
            Some(s.subrange(a + open.len(), b))
        } else {
            None
        },
        _ => None,
    }
}

/// The object named by one `<Object>` piece: its key, where non-empty, and
/// its version id, where given.
pub open spec fn object_of(piece: Seq<char>) -> Option<(Seq<char>, Option<Seq<char>>)> {
    match element_text(piece, "<Key>"@, "</Key>"@) {
        Some(k) => if k.len() > 0 {
            Some((k, element_text(piece, "<VersionId>"@, "</VersionId>"@)))
        } else {
            None
        },
        None => None,
    }
}

/// The objects a batch delete names, in order.
pub open spec fn objects_in(pieces: Seq<Seq<char>>) -> Seq<(Seq<char>, Option<Seq<char>>)>
    decreases pieces.len(),
{
    if pieces.len() == 0 {
        Seq::empty()
    } else {
        match object_of(pieces.last()) {
            Some(o) => objects_in(pieces.drop_last()).push(o),
            None => objects_in(pieces.drop_last()),
        }
    }
}

pub open spec fn delete_targets(body: Seq<char>) -> Seq<(Seq<char>, Option<Seq<char>>)> {
    objects_in(split_str(body, "<Object>"@, 0).drop_first())
}

pub fn element(s: &[char], open: &[char], close: &[char]) -> (r: Option<Vec<char>>)
    requires
        open@.len() > 0,
        close@.len() > 0,
    ensures
        match element_text(s@, open@, close@) {
            Some(t) => r matches Some(x) && x@ == t,
            None => r is None,
        },
{
    let a = match find_chars(s, open, 0) {
        Some(a) => a,
        None => {
            return None;
        },
    };
    let b = match find_chars(s, close, 0) {
        Some(b) => b,
        None => {
            return None;
        },
    };
    proof {
        lemma_find_from(s@, open@, 0);
        lemma_find_from(s@, close@, 0);
    }
    if b < a || b - a < open.len() {
        return None;
    }
    Some(vstd::slice::slice_to_vec(vstd::slice::slice_subrange(s, a + open.len(), b)))
}

pub fn split_on_str(s: &[char], sep: &[char]) -> (r: Vec<Vec<char>>)
    requires
        sep@.len() > 0,
    ensures
        r@.len() == split_str(s@, sep@, 0).len(),
        forall|i: int| 0 <= i < r@.len() ==> (#[trigger] r@[i])@ == split_str(s@, sep@, 0)[i],
{
    let mut out: Vec<Vec<char>> = Vec::new();
    let mut from: usize = 0;
    loop
        invariant
            from <= s@.len(),
            sep@.len() > 0,
            split_str(s@, sep@, 0) == key_views_of(out@) + split_str(s@, sep@, from as int),
        decreases s@.len() - from,
    {
        proof {
            lemma_find_from(s@, sep@, from as int);
        }
        match find_chars(s, sep, from) {
            Some(i) => {
                let piece = vstd::slice::slice_to_vec(vstd::slice::slice_subrange(s, from, i));
                let ghost before = key_views_of(out@);
                out.push(piece);
                assert(key_views_of(out@) =~= before.push(s@.subrange(from as int, i as int)));
                assert(split_str(s@, sep@, from as int) == seq![s@.subrange(from as int, i as int)] + split_str(s@, sep@, i + sep@.len()));
                assert(key_views_of(out@) + split_str(s@, sep@, i + sep@.len()) =~= before + split_str(s@, sep@, from as int));
                let sl = s.len();
                assert(i + sep@.len() <= sl);
                from = i + sep.len();
            },
            None => {
                let piece = vstd::slice::slice_to_vec(vstd::slice::slice_subrange(s, from, s.len()));
                let ghost before = key_views_of(out@);
                out.push(piece);
                assert(key_views_of(out@) =~= split_str(s@, sep@, 0));
                return out;
            },
        }
    }
}

pub open spec fn key_views_of(v: Seq<Vec<char>>) -> Seq<Seq<char>> {
    Seq::new(v.len(), |i: int| v[i]@)
}

/// A key to delete, with the version named, if any.
pub struct DeleteTarget {
    pub key: String,
    pub version_id: Option<String>,
}

/// The objects that a batch delete body names, in order.
pub fn parse_delete_request(body: &str) -> (r: Vec<DeleteTarget>)
    ensures
        r@.len() == delete_targets(body@).len(),
        forall|i: int| 0 <= i < r@.len() ==> (#[trigger] r@[i]).key@ == delete_targets(body@)[i].0
            && match delete_targets(body@)[i].1 {
                Some(v) => r@[i].version_id matches Some(x) && x@ == v,
                None => r@[i].version_id is None,
            },
{
    let c = chars_of(body);
    let sep = chars_of("<Object>");
    let k_open = chars_of("<Key>");
    let k_close = chars_of("</Key>");
    let v_open = chars_of("<VersionId>");
    let v_close = chars_of("</VersionId>");
    proof {
        reveal_strlit("<Object>");
        reveal_strlit("<Key>");
        reveal_strlit("</Key>");
        reveal_strlit("<VersionId>");
        reveal_strlit("</VersionId>");
    }
    let pieces = split_on_str(c.as_slice(), sep.as_slice());
    let ghost ps = split_str(body@, "<Object>"@, 0).drop_first();
    let mut out: Vec<DeleteTarget> = Vec::new();
    let mut i: usize = 1;
    proof {
        assert(ps.subrange(0, 0) =~= Seq::<Seq<char>>::empty());
    }
    while i < pieces.len()
        invariant
            1 <= i <= pieces@.len() || pieces@.len() == 0,
            pieces@.len() == split_str(body@, "<Object>"@, 0).len(),
            forall|j: int| 0 <= j < pieces@.len() ==> (#[trigger] pieces@[j])@ == split_str(body@, "<Object>"@, 0)[j],
            ps == split_str(body@, "<Object>"@, 0).drop_first(),
            k_open@ == "<Key>"@, k_close@ == "</Key>"@, v_open@ == "<VersionId>"@, v_close@ == "</VersionId>"@,
            k_open@.len() > 0, k_close@.len() > 0, v_open@.len() > 0, v_close@.len() > 0,
            i >= 1 ==> out@.len() == objects_in(ps.subrange(0, i - 1)).len(),
            i >= 1 ==> forall|j: int| 0 <= j < out@.len() ==> (#[trigger] out@[j]).key@ == objects_in(ps.subrange(0, i - 1))[j].0
                && match objects_in(ps.subrange(0, i - 1))[j].1 {
                    Some(v) => out@[j].version_id matches Some(x) && x@ == v,
                    None => out@[j].version_id is None,
                },
        decreases pieces.len() - i,
    {
        let ghost pre = ps.subrange(0, i - 1);
        assert(ps.subrange(0, i as int).drop_last() =~= pre);
        assert(ps.subrange(0, i as int).last() == pieces@[i as int]@);
        let p = pieces[i].as_slice();
        if let Some(k) = element(p, k_open.as_slice(), k_close.as_slice()) {
            if k.len() > 0 {
                let v = match element(p, v_open.as_slice(), v_close.as_slice()) {
                    Some(v) => Some(string_of(v.as_slice())),
                    None => None,
                };
                out.push(DeleteTarget { key: string_of(k.as_slice()), version_id: v });
            }
        }
        i = i + 1;
    }
    proof {
        if pieces@.len() >= 1 {
            assert(ps.subrange(0, pieces@.len() - 1) =~= ps);
        }
    }
    out
}

/// The tag of one `<Tag>` piece: its key, where non-empty, and its value
/// (empty where missing).
pub open spec fn tag_of(piece: Seq<char>) -> Option<(Seq<char>, Seq<char>)> {
    match element_text(piece, "<Key>"@, "</Key>"@) {
        Some(k) => if k.len() > 0 {
            Some((k, match element_text(piece, "<Value>"@, "</Value>"@) {
                Some(v) => v,
                None => Seq::empty(),
            }))
        } else {
            None
        },
        None => None,
    }
}

pub open spec fn tags_in(pieces: Seq<Seq<char>>) -> Seq<(Seq<char>, Seq<char>)>
    decreases pieces.len(),
{
    if pieces.len() == 0 {
        Seq::empty()
    } else {
        match tag_of(pieces.last()) {
            Some(t) => tags_in(pieces.drop_last()).push(t),
            None => tags_in(pieces.drop_last()),
        }
    }
}

/// The tags that a tagging body sets, in order.
pub open spec fn tag_set(body: Seq<char>) -> Seq<(Seq<char>, Seq<char>)> {
    tags_in(split_str(body, "<Tag>"@, 0).drop_first())
}

/// Reads the tag set of a PUT-tagging body.
pub fn parse_tagging(body: &str) -> (r: Vec<(String, String)>)
    ensures
        r@.len() == tag_set(body@).len(),
        forall|i: int| 0 <= i < r@.len() ==> (#[trigger] r@[i]).0@ == tag_set(body@)[i].0 && r@[i].1@ == tag_set(body@)[i].1,
{
    let c = chars_of(body);
    let sep = chars_of("<Tag>");
    let k_open = chars_of("<Key>");
    let k_close = chars_of("</Key>");
    let v_open = chars_of("<Value>");
    let v_close = chars_of("</Value>");
    proof {
        reveal_strlit("<Tag>");
        reveal_strlit("<Key>");
        reveal_strlit("</Key>");
        reveal_strlit("<Value>");
        reveal_strlit("</Value>");
    }
    let pieces = split_on_str(c.as_slice(), sep.as_slice());
    let ghost ps = split_str(body@, "<Tag>"@, 0).drop_first();
    let mut out: Vec<(String, String)> = Vec::new();
    let mut i: usize = 1;
    proof {
        assert(ps.subrange(0, 0) =~= Seq::<Seq<char>>::empty());
    }
    while i < pieces.len()
        invariant
            1 <= i <= pieces@.len() || pieces@.len() == 0,
            pieces@.len() == split_str(body@, "<Tag>"@, 0).len(),
            forall|j: int| 0 <= j < pieces@.len() ==> (#[trigger] pieces@[j])@ == split_str(body@, "<Tag>"@, 0)[j],
            ps == split_str(body@, "<Tag>"@, 0).drop_first(),
            k_open@ == "<Key>"@, k_close@ == "</Key>"@, v_open@ == "<Value>"@, v_close@ == "</Value>"@,
            k_open@.len() > 0, k_close@.len() > 0, v_open@.len() > 0, v_close@.len() > 0,
            i >= 1 ==> out@.len() == tags_in(ps.subrange(0, i - 1)).len(),
            i >= 1 ==> forall|j: int| 0 <= j < out@.len() ==> (#[trigger] out@[j]).0@ == tags_in(ps.subrange(0, i - 1))[j].0
                && out@[j].1@ == tags_in(ps.subrange(0, i - 1))[j].1,
        decreases pieces.len() - i,
    {
        let ghost pre = ps.subrange(0, i - 1);
        assert(ps.subrange(0, i as int).drop_last() =~= pre);
        assert(ps.subrange(0, i as int).last() == pieces@[i as int]@);
        let p = pieces[i].as_slice();
        if let Some(k) = element(p, k_open.as_slice(), k_close.as_slice()) {
            if k.len() > 0 {
                let v = match element(p, v_open.as_slice(), v_close.as_slice()) {
                    Some(v) => string_of(v.as_slice()),
                    None => String::new(),
                };
                out.push((string_of(k.as_slice()), v));
            }
        }
        i = i + 1;
    }
    proof {
        if pieces@.len() >= 1 {
            assert(ps.subrange(0, pieces@.len() - 1) =~= ps);
        }
    }
    out
}

/// The status a PUT-versioning body sets: `Enabled` or `Suspended` where the
/// body holds `<Status>Enabled</Status>` or `<Status>Suspended</Status>`
/// (the first wins); otherwise none.
pub open spec fn versioning_status_of(body: Seq<char>) -> Option<crate::settings::VersioningStatus> {
    if find_from(body, "<Status>Enabled</Status>"@, 0) is Some {
        Some(crate::settings::VersioningStatus::Enabled)
    } else if find_from(body, "<Status>Suspended</Status>"@, 0) is Some {
        Some(crate::settings::VersioningStatus::Suspended)
    } else {
        None
    }
}

pub fn parse_versioning(body: &str) -> (r: Option<crate::settings::VersioningStatus>)
    ensures
        r == versioning_status_of(body@),
{
    let c = chars_of(body);
    let enabled = chars_of("<Status>Enabled</Status>");
    let suspended = chars_of("<Status>Suspended</Status>");
    proof {
        reveal_strlit("<Status>Enabled</Status>");
        reveal_strlit("<Status>Suspended</Status>");
    }
    if find_chars(c.as_slice(), enabled.as_slice(), 0).is_some() {
        Some(crate::settings::VersioningStatus::Enabled)
    } else if find_chars(c.as_slice(), suspended.as_slice(), 0).is_some() {
        Some(crate::settings::VersioningStatus::Suspended)
    } else {
        None
    }
}

/// The default encryption a PUT-encryption body sets: the `SSEAlgorithm`
/// (`AES256` where absent) and the `KMSMasterKeyID`, if any. Only `AES256`
/// and `aws:kms` are accepted.
pub open spec fn encryption_config_of(body: Seq<char>) -> Option<(Seq<char>, Option<Seq<char>>)> {
    let alg = match element_text(body, "<SSEAlgorithm>"@, "</SSEAlgorithm>"@) {
        Some(a) => a,
        None => "AES256"@,
    };
    if alg == "AES256"@ || alg == "aws:kms"@ {
        Some((alg, element_text(body, "<KMSMasterKeyID>"@, "</KMSMasterKeyID>"@)))
    } else {
        None
    }
}

/// Reads a PUT-encryption body; `None` for an algorithm other than `AES256`
/// or `aws:kms`.
pub fn parse_encryption_config(body: &str) -> (r: Option<crate::models::BucketEncryption>)
    ensures
        match encryption_config_of(body@) {
            Some((alg, kms)) => r matches Some(c) && c.algorithm@ == alg && match kms {
                Some(k) => c.kms_key_id matches Some(x) && x@ == k,
                None => c.kms_key_id is None,
            },
            None => r is None,
        },
{
    let c = chars_of(body);
    let a_open = chars_of("<SSEAlgorithm>");
    let a_close = chars_of("</SSEAlgorithm>");
    let k_open = chars_of("<KMSMasterKeyID>");
    let k_close = chars_of("</KMSMasterKeyID>");
    proof {
        reveal_strlit("<SSEAlgorithm>");
        reveal_strlit("</SSEAlgorithm>");
        reveal_strlit("<KMSMasterKeyID>");
        reveal_strlit("</KMSMasterKeyID>");
    }
    let alg = match element(c.as_slice(), a_open.as_slice(), a_close.as_slice()) {
        Some(a) => a,
        None => chars_of("AES256"),
    };
    if !(crate::text::chars_equal(alg.as_slice(), chars_of("AES256").as_slice())
        || crate::text::chars_equal(alg.as_slice(), chars_of("aws:kms").as_slice())) {
        return None;
    }
    let kms = match element(c.as_slice(), k_open.as_slice(), k_close.as_slice()) {
        Some(k) => Some(string_of(k.as_slice())),
        None => None,
    };
    Some(crate::models::BucketEncryption { algorithm: string_of(alg.as_slice()), kms_key_id: kms })
}

/// New objects of a bucket are encrypted when its default encryption is
/// `AES256` or `aws:kms` (server-managed keys serve both).
pub fn encrypts_new_objects(algorithm: &str) -> (r: bool)
    ensures
        r == (algorithm@ == "AES256"@ || algorithm@ == "aws:kms"@),
{
    let a = chars_of(algorithm);
    crate::text::chars_equal(a.as_slice(), chars_of("AES256").as_slice())
        || crate::text::chars_equal(a.as_slice(), chars_of("aws:kms").as_slice())
}

} // verus!
