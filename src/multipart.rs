//! The multipart upload engine: uploads in progress, their parts kept in
//! ascending part-number order, and their assembly on completion.

use vstd::prelude::*;
use crate::digest::{etag_of, etag_text};
use crate::text::{chars_equal, chars_of};

verus! {

/// One staged part of an upload.
#[derive(Debug)]
pub struct Part {
    pub part_number: u32,
    pub etag: String,
    pub size: u64,
    pub data: Vec<u8>,
}

/// Part numbers and data, in the order held.
pub open spec fn parts_view(ps: Seq<Part>) -> Seq<(u32, Seq<u8>)> {
    Seq::new(ps.len(), |i: int| (ps[i].part_number, ps[i].data@))
}

/// Part numbers strictly ascend.
pub open spec fn ascending(ps: Seq<(u32, Seq<u8>)>) -> bool {
    forall|i: int, j: int| 0 <= i < j < ps.len() ==> (#[trigger] ps[i]).0 < (#[trigger] ps[j]).0
}

/// The data of each part number.
pub open spec fn parts_map(ps: Seq<(u32, Seq<u8>)>) -> Map<u32, Seq<u8>>
    decreases ps.len(),
{
    if ps.len() == 0 {
        Map::empty()
    } else {
        parts_map(ps.drop_first()).insert(ps[0].0, ps[0].1)
    }
}

/// The parts' data concatenated in the order held.
pub open spec fn concat_parts(ps: Seq<(u32, Seq<u8>)>) -> Seq<u8>
    decreases ps.len(),
{
    if ps.len() == 0 {
        Seq::empty()
    } else {
        concat_parts(ps.drop_last()) + ps.last().1
    }
}

pub proof fn lemma_parts_map_domain(ps: Seq<(u32, Seq<u8>)>)
    requires
        ascending(ps),
    ensures
        forall|k: u32| #[trigger] parts_map(ps).contains_key(k) <==> exists|i: int| 0 <= i < ps.len() && ps[i].0 == k,
        forall|i: int| 0 <= i < ps.len() ==> #[trigger] parts_map(ps)[ps[i].0] == ps[i].1,
    decreases ps.len(),
{
    if ps.len() > 0 {
        let t = ps.drop_first();
        assert(ascending(t));
        lemma_parts_map_domain(t);
        assert(parts_map(ps) == parts_map(t).insert(ps[0].0, ps[0].1));
        assert forall|k: u32| #[trigger] parts_map(ps).contains_key(k) <==> exists|i: int| 0 <= i < ps.len() && ps[i].0 == k by {
            if parts_map(ps).contains_key(k) && k != ps[0].0 {
                let j = choose|j: int| 0 <= j < t.len() && t[j].0 == k;
                assert(ps[j + 1].0 == k);
            }
            if exists|i: int| 0 <= i < ps.len() && ps[i].0 == k {
                let i = choose|i: int| 0 <= i < ps.len() && ps[i].0 == k;
                if i > 0 {
                    assert(t[i - 1].0 == k);
                }
            }
        }
        assert forall|i: int| 0 <= i < ps.len() implies #[trigger] parts_map(ps)[ps[i].0] == ps[i].1 by {
            if i > 0 {
                assert(ps[0].0 < ps[i].0);
                assert(t[i - 1] == ps[i]);
            }
        }
    }
}

/// Two ascending part lists that hold the same data under the same numbers are
/// the same list.
pub proof fn lemma_ascending_parts_unique(a: Seq<(u32, Seq<u8>)>, b: Seq<(u32, Seq<u8>)>)
    requires
        ascending(a),
        ascending(b),
        parts_map(a) == parts_map(b),
    ensures
        a == b,
    decreases a.len(),
{
    lemma_parts_map_domain(a);
    lemma_parts_map_domain(b);
    if a.len() == 0 {
        if b.len() > 0 {
            assert(parts_map(b).contains_key(b[0].0));
        }
        assert(a =~= b);
    } else if b.len() == 0 {
        assert(parts_map(a).contains_key(a[0].0));
    } else {
        assert(parts_map(a).contains_key(b[0].0));
        assert(parts_map(b).contains_key(a[0].0));
        let ia = choose|i: int| 0 <= i < a.len() && a[i].0 == b[0].0;
        let ib = choose|i: int| 0 <= i < b.len() && b[i].0 == a[0].0;
        if ia > 0 {
            assert(a[0].0 < a[ia].0);
        }
        if ib > 0 {
            assert(b[0].0 < b[ib].0);
        }
        assert(a[0].0 == b[0].0);
        assert(parts_map(a)[a[0].0] == a[0].1);
        assert(parts_map(b)[b[0].0] == b[0].1);
        assert(a[0].1 == b[0].1);
        let ta = a.drop_first();
        let tb = b.drop_first();
        assert(ascending(ta));
        assert(ascending(tb));
        lemma_parts_map_domain(ta);
        lemma_parts_map_domain(tb);
        assert(!parts_map(ta).contains_key(a[0].0)) by {
            if parts_map(ta).contains_key(a[0].0) {
                let j = choose|j: int| 0 <= j < ta.len() && ta[j].0 == a[0].0;
                assert(a[j + 1].0 == a[0].0);
            }
        }
        assert(!parts_map(tb).contains_key(b[0].0)) by {
            if parts_map(tb).contains_key(b[0].0) {
                let j = choose|j: int| 0 <= j < tb.len() && tb[j].0 == b[0].0;
                assert(b[j + 1].0 == b[0].0);
            }
        }
        assert(parts_map(a) == parts_map(ta).insert(a[0].0, a[0].1));
        assert(parts_map(b) == parts_map(tb).insert(b[0].0, b[0].1));
        assert(parts_map(ta) =~= parts_map(a).remove(a[0].0));
        assert(parts_map(tb) =~= parts_map(b).remove(b[0].0));
        lemma_ascending_parts_unique(ta, tb);
        assert(a =~= seq![a[0]] + ta);
        assert(b =~= seq![b[0]] + tb);
    }
}

/// Completing an upload gives the same bytes whatever order its parts were
/// uploaded in: it depends only on which data each part number holds.
pub proof fn lemma_assembly_ignores_upload_order(a: Seq<(u32, Seq<u8>)>, b: Seq<(u32, Seq<u8>)>)
    requires
        ascending(a),
        ascending(b),
        parts_map(a) == parts_map(b),
    ensures
        concat_parts(a) == concat_parts(b),
{
    lemma_ascending_parts_unique(a, b);
}

/// Puts `part` into an ascending list of parts: it replaces a part with the
/// same number (the last upload of a number wins), or goes where its number
/// keeps the list ascending.
pub fn insert_part(parts: &mut Vec<Part>, part: Part)
    requires
        ascending(parts_view(old(parts)@)),
    ensures
        ascending(parts_view(final(parts)@)),
        parts_map(parts_view(final(parts)@)) == parts_map(parts_view(old(parts)@)).insert(
            part.part_number,
            part.data@,
        ),
{
    let ghost old_view = parts_view(parts@);
    let n = part.part_number;
    let ghost d = part.data@;
    let mut i: usize = 0;
    while i < parts.len() && parts[i].part_number < n
        invariant
            i <= parts@.len(),
            parts_view(parts@) == old_view,
            forall|j: int| 0 <= j < i ==> (#[trigger] parts@[j]).part_number < n,
        decreases parts.len() - i,
    {
        i = i + 1;
    }
    let replace = i < parts.len() && parts[i].part_number == n;
    if replace {
        parts.set(i, part);
    } else {
        parts.insert(i, part);
    }
    proof {
        let nv = parts_view(parts@);
        if replace {
            assert(nv =~= old_view.update(i as int, (n, d)));
        } else {
            assert(nv =~= old_view.insert(i as int, (n, d)));
        }
        assert(ascending(nv)) by {
            assert forall|a: int, b: int| 0 <= a < b < nv.len() implies (#[trigger] nv[a]).0 < (#[trigger] nv[b]).0 by {
                if replace {
                    if a == i {
                        assert(old_view[a].0 == n);
                    } else if b == i {
                        assert(old_view[b].0 == n);
                    }
                } else {
                    if b < i {
                    } else if a < i && b == i {
                    } else if a < i && b > i {
                        assert(nv[b] == old_view[b - 1]);
                    } else if a == i {
                        assert(nv[b] == old_view[b - 1]);
                        assert(i < old_view.len() ==> old_view[i as int].0 > n);
                        if b - 1 > i {
                            assert(old_view[i as int].0 < old_view[b - 1].0);
                        }
                    } else {
                        assert(nv[a] == old_view[a - 1]);
                        assert(nv[b] == old_view[b - 1]);
                    }
                }
            }
        }
        lemma_parts_map_domain(old_view);
        lemma_parts_map_domain(nv);
        let m_old = parts_map(old_view);
        let m_new = parts_map(nv);
        assert(m_new =~= m_old.insert(n, d)) by {
            assert forall|k: u32| #[trigger] m_new.contains_key(k) <==> m_old.insert(n, d).contains_key(k) by {
                if m_new.contains_key(k) {
                    let j = choose|j: int| 0 <= j < nv.len() && nv[j].0 == k;
                    if replace {
                        if j != i {
                            assert(old_view[j].0 == k);
                        }
                    } else if j < i {
                        assert(old_view[j].0 == k);
                    } else if j > i {
                        assert(old_view[j - 1].0 == k);
                    }
                }
                if m_old.contains_key(k) {
                    let j = choose|j: int| 0 <= j < old_view.len() && old_view[j].0 == k;
                    if replace {
                        assert(nv[j].0 == k);
                    } else if j < i {
                        assert(nv[j].0 == k);
                    } else {
                        assert(nv[j + 1].0 == k);
                    }
                }
                if k == n {
                    assert(nv[i as int].0 == n);
                }
            }
            assert forall|k: u32| #[trigger] m_new.contains_key(k) implies m_new[k] == m_old.insert(n, d)[k] by {
                let j = choose|j: int| 0 <= j < nv.len() && nv[j].0 == k;
                assert(m_new[nv[j].0] == nv[j].1);
                if j == i {
                    assert(nv[j] == (n, d));
                    assert(m_old.insert(n, d)[n] == d);
                } else if replace {
                    assert(nv[j] == old_view[j]);
                    assert(old_view[i as int].0 == n);
                    assert(k != n);
                    assert(m_old[old_view[j].0] == old_view[j].1);
                } else if j < i {
                    assert(nv[j] == old_view[j]);
                    assert(k != n);
                    assert(m_old[old_view[j].0] == old_view[j].1);
                } else {
                    assert(nv[j] == old_view[j - 1]);
                    assert(old_view[i as int].0 > n);
                    if j - 1 > i {
                        assert(old_view[i as int].0 < old_view[j - 1].0);
                    }
                    assert(k != n);
                    assert(m_old[old_view[j - 1].0] == old_view[j - 1].1);
                }
            }
        }
    }
}

/// Concatenates the data of the parts in the order held.
pub fn assemble_parts(parts: &Vec<Part>) -> (r: Vec<u8>)
    ensures
        r@ == concat_parts(parts_view(parts@)),
{
    let ghost v = parts_view(parts@);
    let mut out: Vec<u8> = Vec::new();
    let mut i: usize = 0;
    while i < parts.len()
        invariant
            i <= parts@.len(),
            v == parts_view(parts@),
            out@ == concat_parts(v.subrange(0, i as int)),
        decreases parts.len() - i,
    {
        let data = &parts[i].data;
        let mut k: usize = 0;
        let ghost before = out@;
        while k < data.len()
            invariant
                k <= data@.len(),
                out@ == before + data@.subrange(0, k as int),
            decreases data.len() - k,
        {
            out.push(data[k]);
            assert(data@.subrange(0, k + 1) =~= data@.subrange(0, k as int).push(data@[k as int]));
            k = k + 1;
        }
        assert(data@.subrange(0, data@.len() as int) =~= data@);
        assert(v.subrange(0, i + 1).drop_last() =~= v.subrange(0, i as int));
        i = i + 1;
    }
    assert(v.subrange(0, parts@.len() as int) =~= v);
    out
}

/// An upload in progress.
#[derive(Debug)]
pub struct Upload {
    pub upload_id: String,
    pub bucket: String,
    pub key: String,
    pub content_type: String,
    /// Staged parts, in ascending part-number order.
    pub parts: Vec<Part>,
}

/// The object that a completed upload yields.
#[derive(Debug)]
pub struct CompletedUpload {
    pub bucket: String,
    pub key: String,
    pub content_type: String,
    pub data: Vec<u8>,
    pub etag: String,
}

#[derive(Debug, PartialEq, Eq, Structural)]
pub enum MultipartError {
    NoSuchUpload,
}

/// The index of the first upload from `i` on with id `id`.
pub open spec fn upload_index(us: Seq<Upload>, id: Seq<char>, i: int) -> Option<int>
    decreases us.len() - i,
{
    if i < 0 || i >= us.len() {
        None
    } else if us[i].upload_id@ == id {
        Some(i)
    } else {
        upload_index(us, id, i + 1)
    }
}

proof fn lemma_upload_index(us: Seq<Upload>, id: Seq<char>, i: int)
    requires
        0 <= i,
    ensures
        upload_index(us, id, i) matches Some(j) ==> i <= j < us.len() && us[j].upload_id@ == id,
    decreases us.len() - i,
{
    if 0 <= i < us.len() && us[i].upload_id@ != id {
        lemma_upload_index(us, id, i + 1);
    }
}

proof fn lemma_upload_index_none(us: Seq<Upload>, id: Seq<char>, i: int)
    requires
        0 <= i,
        upload_index(us, id, i) is None,
    ensures
        forall|j: int| i <= j < us.len() ==> us[j].upload_id@ != id,
    decreases us.len() - i,
{
    if i < us.len() {
        lemma_upload_index_none(us, id, i + 1);
    }
}

proof fn lemma_upload_index_absent(us: Seq<Upload>, id: Seq<char>, i: int)
    requires
        0 <= i,
        forall|j: int| i <= j < us.len() ==> us[j].upload_id@ != id,
    ensures
        upload_index(us, id, i) is None,
    decreases us.len() - i,
{
    if i < us.len() {
        lemma_upload_index_absent(us, id, i + 1);
    }
}

/// The uploads in progress, each identified by its upload id.
pub struct MultipartTable {
    pub uploads: Vec<Upload>,
}

impl MultipartTable {
    /// Upload ids are unique, and every upload's parts ascend by part number.
    pub open spec fn well_formed(&self) -> bool {
        &&& forall|i: int| 0 <= i < self.uploads@.len() ==> ascending(parts_view(#[trigger] self.uploads@[i].parts@))
        &&& forall|i: int, j: int| 0 <= i < j < self.uploads@.len() ==> (#[trigger] self.uploads@[i]).upload_id@ != (#[trigger] self.uploads@[j]).upload_id@
    }

    /// Whether an upload with this id is in progress.
    pub fn contains(&self, upload_id: &str) -> (r: bool)
        ensures
            r == (upload_index(self.uploads@, upload_id@, 0) is Some),
    {
        self.find(upload_id).is_some()
    }

    pub fn new() -> (r: MultipartTable)
        ensures
            r.well_formed(),
            r.uploads@.len() == 0,
    {
        MultipartTable { uploads: Vec::new() }
    }

    fn find(&self, upload_id: &str) -> (r: Option<usize>)
        ensures
            match r {
                Some(i) => upload_index(self.uploads@, upload_id@, 0) == Some(i as int),
                None => upload_index(self.uploads@, upload_id@, 0) is None,
            },
    {
        let id = chars_of(upload_id);
        let mut i: usize = 0;
        while i < self.uploads.len()
            invariant
                i <= self.uploads@.len(),
                id@ == upload_id@,
                upload_index(self.uploads@, upload_id@, 0) == upload_index(self.uploads@, upload_id@, i as int),
            decreases self.uploads.len() - i,
        {
            if chars_equal(chars_of(self.uploads[i].upload_id.as_str()).as_slice(), id.as_slice()) {
                return Some(i);
            }
            i = i + 1;
        }
        None
    }

    /// Starts an upload with no parts under a fresh `upload_id`, one that no
    /// upload in progress has.
    pub fn initiate(&mut self, upload_id: String, bucket: String, key: String, content_type: String)
        requires
            old(self).well_formed(),
            upload_index(old(self).uploads@, upload_id@, 0) is None,
        ensures
            final(self).well_formed(),
            final(self).uploads@.len() == old(self).uploads@.len() + 1,
            forall|i: int| 0 <= i < old(self).uploads@.len() ==> #[trigger] final(self).uploads@[i] == old(self).uploads@[i],
            final(self).uploads@.last().upload_id == upload_id,
            final(self).uploads@.last().bucket == bucket,
            final(self).uploads@.last().key == key,
            final(self).uploads@.last().content_type == content_type,
            final(self).uploads@.last().parts@.len() == 0,
    {
        proof {
            lemma_upload_index_none(self.uploads@, upload_id@, 0);
        }
        self.uploads.push(Upload { upload_id, bucket, key, content_type, parts: Vec::new() });
        assert forall|i: int| 0 <= i < self.uploads@.len() implies ascending(parts_view(#[trigger] self.uploads@[i].parts@)) by {
            if i < old(self).uploads@.len() {
                assert(self.uploads@[i] == old(self).uploads@[i]);
            }
        }
        assert forall|i: int, j: int| 0 <= i < j < self.uploads@.len() implies (#[trigger] self.uploads@[i]).upload_id@ != (#[trigger] self.uploads@[j]).upload_id@ by {
            assert(self.uploads@[i] == old(self).uploads@[i]);
            if j < old(self).uploads@.len() {
                assert(self.uploads@[j] == old(self).uploads@[j]);
            }
        }
    }

    /// Stages part `part_number` of an upload and returns its ETag; a part with
    /// the same number is replaced.
    pub fn upload_part(&mut self, upload_id: &str, part_number: u32, data: Vec<u8>) -> (r: Result<String, MultipartError>)
        requires
            old(self).well_formed(),
        ensures
            final(self).well_formed(),
            match upload_index(old(self).uploads@, upload_id@, 0) {
                None => r == Err::<String, MultipartError>(MultipartError::NoSuchUpload) && final(self).uploads@ == old(self).uploads@,
                Some(i) => {
                    &&& r matches Ok(etag) && etag@ == etag_text(data@)
                    &&& final(self).uploads@.len() == old(self).uploads@.len()
                    &&& forall|j: int| 0 <= j < old(self).uploads@.len() && j != i ==> #[trigger] final(self).uploads@[j] == old(self).uploads@[j]
                    &&& final(self).uploads@[i].upload_id == old(self).uploads@[i].upload_id
                    &&& final(self).uploads@[i].bucket == old(self).uploads@[i].bucket
                    &&& final(self).uploads@[i].key == old(self).uploads@[i].key
                    &&& final(self).uploads@[i].content_type == old(self).uploads@[i].content_type
                    &&& parts_map(parts_view(final(self).uploads@[i].parts@)) == parts_map(parts_view(old(self).uploads@[i].parts@)).insert(part_number, data@)
                },
            },
    {
        let i = match self.find(upload_id) {
            Some(i) => i,
            None => {
                return Err(MultipartError::NoSuchUpload);
            },
        };
        proof {
            lemma_upload_index(self.uploads@, upload_id@, 0);
        }
        let etag = etag_of(data.as_slice());
        let size = data.len() as u64;
        let mut up = self.uploads.remove(i);
        assert(up == old(self).uploads@[i as int]);
        assert(ascending(parts_view(up.parts@)));
        insert_part(&mut up.parts, Part { part_number, etag: etag.clone(), size, data });
        self.uploads.insert(i, up);
        assert forall|j: int| 0 <= j < self.uploads@.len() implies ascending(parts_view(#[trigger] self.uploads@[j].parts@)) by {
            if j != i {
                assert(self.uploads@[j] == old(self).uploads@[j]);
            }
        }
        assert forall|j: int| 0 <= j < old(self).uploads@.len() && j != i implies #[trigger] self.uploads@[j] == old(self).uploads@[j] by {
        }
        assert forall|a: int, b: int| 0 <= a < b < self.uploads@.len() implies (#[trigger] self.uploads@[a]).upload_id@ != (#[trigger] self.uploads@[b]).upload_id@ by {
            assert(self.uploads@[a].upload_id == old(self).uploads@[a].upload_id);
            assert(self.uploads@[b].upload_id == old(self).uploads@[b].upload_id);
        }
        Ok(etag)
    }

    /// Assembles an upload for completion: its parts concatenated in
    /// ascending part-number order, and the ETag, the hex MD5 of the result.
    /// The upload stays in progress, so that completion can be retried until
    /// the object is stored; `abort` then drops the staged parts.
    pub fn complete(&self, upload_id: &str) -> (r: Result<CompletedUpload, MultipartError>)
        ensures
            match upload_index(self.uploads@, upload_id@, 0) {
                None => r is Err && r->Err_0 == MultipartError::NoSuchUpload,
                Some(i) => {
                    &&& r matches Ok(c)
                    &&& c.data@ == concat_parts(parts_view(self.uploads@[i].parts@))
                    &&& c.etag@ == etag_text(c.data@)
                    &&& c.bucket == self.uploads@[i].bucket
                    &&& c.key == self.uploads@[i].key
                    &&& c.content_type == self.uploads@[i].content_type
                },
            },
    {
        let i = match self.find(upload_id) {
            Some(i) => i,
            None => {
                return Err(MultipartError::NoSuchUpload);
            },
        };
        proof {
            lemma_upload_index(self.uploads@, upload_id@, 0);
        }
        let up = &self.uploads[i];
        let data = assemble_parts(&up.parts);
        let etag = etag_of(data.as_slice());
        Ok(CompletedUpload {
            bucket: up.bucket.clone(),
            key: up.key.clone(),
            content_type: up.content_type.clone(),
            data,
            etag,
        })
    }

    /// Aborts an upload (or retires a completed one), dropping its parts.
    /// Returns whether there was one; afterwards there is none with that id,
    /// so aborting again returns false.
    pub fn abort(&mut self, upload_id: &str) -> (r: bool)
        requires
            old(self).well_formed(),
        ensures
            final(self).well_formed(),
            match upload_index(old(self).uploads@, upload_id@, 0) {
                None => !r && final(self).uploads@ == old(self).uploads@,
                Some(i) => r && final(self).uploads@ == old(self).uploads@.remove(i),
            },
            upload_index(final(self).uploads@, upload_id@, 0) is None,
    {
        let i = match self.find(upload_id) {
            Some(i) => i,
            None => {
                return false;
            },
        };
        proof {
            lemma_upload_index(self.uploads@, upload_id@, 0);
        }
        let _dropped = self.uploads.remove(i);
        assert forall|j: int| 0 <= j < self.uploads@.len() implies ascending(parts_view(#[trigger] self.uploads@[j].parts@)) by {
            if j < i {
                assert(self.uploads@[j] == old(self).uploads@[j]);
            } else {
                assert(self.uploads@[j] == old(self).uploads@[j + 1]);
            }
        }
        assert forall|a: int, b: int| 0 <= a < b < self.uploads@.len() implies (#[trigger] self.uploads@[a]).upload_id@ != (#[trigger] self.uploads@[b]).upload_id@ by {
            let oa = if a < i { a } else { a + 1 };
            let ob = if b < i { b } else { b + 1 };
            assert(self.uploads@[a] == old(self).uploads@[oa]);
            assert(self.uploads@[b] == old(self).uploads@[ob]);
        }
        assert forall|j: int| 0 <= j < self.uploads@.len() implies self.uploads@[j].upload_id@ != upload_id@ by {
            let oj = if j < i { j } else { j + 1 };
            assert(self.uploads@[j] == old(self).uploads@[oj]);
            assert(old(self).uploads@[i as int].upload_id@ == upload_id@);
        }
        proof {
            lemma_upload_index_absent(self.uploads@, upload_id@, 0);
        }
        true
    }
}

} // verus!
