//! Per-bucket quota and request statistics, held in memory and written out by
//! a periodic flush.

use vstd::prelude::*;
use crate::text::{chars_equal, chars_of};

verus! {

/// A bucket's byte ceiling and its current usage.
#[derive(Debug, Clone, Copy, PartialEq, Eq, Structural)]
pub struct BucketQuota {
    pub max_size_bytes: u64,
    pub current_usage_bytes: u64,
    pub object_count: u64,
    /// When the usage last changed, in milliseconds since the Unix epoch.
    pub last_updated_ms: u64,
}

/// Whether `new_size` more bytes fit under the quota.
pub open spec fn fits(q: BucketQuota, new_size: nat) -> bool {
    q.current_usage_bytes + new_size <= q.max_size_bytes
}

/// Whether an upload of `new_size` bytes fits in the bucket.
pub fn check_quota(q: &BucketQuota, new_size: u64) -> (r: bool)
    ensures
        r == fits(*q, new_size as nat),
{
    if q.max_size_bytes < q.current_usage_bytes {
        false
    } else {
        new_size <= q.max_size_bytes - q.current_usage_bytes
    }
}

pub open spec fn saturating_add(a: u64, b: u64) -> u64 {
    if a + b > u64::MAX {
        u64::MAX
    } else {
        (a + b) as u64
    }
}

pub open spec fn saturating_sub(a: u64, b: u64) -> u64 {
    if a < b {
        0
    } else {
        (a - b) as u64
    }
}

/// The quota after an object of `size` bytes was stored.
pub open spec fn after_put(q: BucketQuota, size: u64, now_ms: u64) -> BucketQuota {
    BucketQuota {
        max_size_bytes: q.max_size_bytes,
        current_usage_bytes: saturating_add(q.current_usage_bytes, size),
        object_count: saturating_add(q.object_count, 1),
        last_updated_ms: now_ms,
    }
}

/// The quota after an object of `size` bytes was removed; usage stops at zero.
pub open spec fn after_delete(q: BucketQuota, size: u64, now_ms: u64) -> BucketQuota {
    BucketQuota {
        max_size_bytes: q.max_size_bytes,
        current_usage_bytes: saturating_sub(q.current_usage_bytes, size),
        object_count: saturating_sub(q.object_count, 1),
        last_updated_ms: now_ms,
    }
}

/// A file that counts towards usage: not hidden, and not a sidecar.
pub open spec fn counts_as_object(name: Seq<char>) -> bool {
    !(name.len() > 0 && name[0] == '.') && !(name.len() >= 9 && name.subrange(
        name.len() - 9,
        name.len() as int,
    ) == ".metadata"@)
}

/// Total size and number of the files that count as objects, each total
/// stopping at `u64::MAX`.
pub open spec fn usage_of(files: Seq<(Seq<char>, u64)>) -> (u64, u64)
    decreases files.len(),
{
    if files.len() == 0 {
        (0, 0)
    } else {
        let (total, count) = usage_of(files.drop_last());
        if counts_as_object(files.last().0) {
            (saturating_add(total, files.last().1), saturating_add(count, 1))
        } else {
            (total, count)
        }
    }
}

pub fn is_object_file(name: &str) -> (r: bool)
    ensures
        r == counts_as_object(name@),
{
    let c = chars_of(name);
    let suffix = chars_of(".metadata");
    proof {
        reveal_strlit(".metadata");
    }
    let hidden = c.len() > 0 && c[0] == '.';
    let sidecar = c.len() >= 9 && chars_equal(vstd::slice::slice_subrange(c.as_slice(), c.len() - 9, c.len()), suffix.as_slice());
    !hidden && !sidecar
}

fn sat_add(a: u64, b: u64) -> (r: u64)
    ensures
        r == saturating_add(a, b),
{
    if a > u64::MAX - b {
        u64::MAX
    } else {
        a + b
    }
}

fn sat_sub(a: u64, b: u64) -> (r: u64)
    ensures
        r == saturating_sub(a, b),
{
    if a < b {
        0
    } else {
        a - b
    }
}

/// The usage found by scanning a bucket: `files` lists each regular file's
/// name and size.
pub fn usage_from_files(files: &Vec<(String, u64)>) -> (r: (u64, u64))
    ensures
        r == usage_of(files@.map_values(|f: (String, u64)| (f.0@, f.1))),
{
    let ghost fs = files@.map_values(|f: (String, u64)| (f.0@, f.1));
    let mut total: u64 = 0;
    let mut count: u64 = 0;
    let mut i: usize = 0;
    while i < files.len()
        invariant
            i <= files@.len(),
            fs == files@.map_values(|f: (String, u64)| (f.0@, f.1)),
            (total, count) == usage_of(fs.subrange(0, i as int)),
        decreases files.len() - i,
    {
        assert(fs.subrange(0, i + 1).drop_last() =~= fs.subrange(0, i as int));
        if is_object_file(files[i].0.as_str()) {
            total = sat_add(total, files[i].1);
            count = sat_add(count, 1);
        }
        i = i + 1;
    }
    assert(fs.subrange(0, files@.len() as int) =~= fs);
    (total, count)
}

/// A cached quota and whether it changed since it was last written out.
#[derive(Debug)]
pub struct QuotaEntry {
    pub bucket: String,
    pub quota: BucketQuota,
    pub dirty: bool,
}

/// The in-memory quotas of all buckets seen so far.
pub struct QuotaManager {
    pub enabled: bool,
    /// The ceiling given to a bucket whose quota is built by a scan.
    pub default_max_bytes: u64,
    pub entries: Vec<QuotaEntry>,
}

/// The index of the first entry for `bucket`.
pub open spec fn entry_index(es: Seq<QuotaEntry>, bucket: Seq<char>, i: int) -> Option<int>
    decreases es.len() - i,
{
    if i < 0 || i >= es.len() {
        None
    } else if es[i].bucket@ == bucket {
        Some(i)
    } else {
        entry_index(es, bucket, i + 1)
    }
}

proof fn lemma_entry_index(es: Seq<QuotaEntry>, bucket: Seq<char>, i: int)
    requires
        0 <= i,
    ensures
        entry_index(es, bucket, i) matches Some(j) ==> i <= j < es.len() && es[j].bucket@ == bucket,
    decreases es.len() - i,
{
    if 0 <= i < es.len() && es[i].bucket@ != bucket {
        lemma_entry_index(es, bucket, i + 1);
    }
}

impl QuotaManager {
    pub fn new(enabled: bool, default_max_bytes: u64) -> (r: QuotaManager)
        ensures
            r.enabled == enabled,
            r.default_max_bytes == default_max_bytes,
            r.entries@.len() == 0,
    {
        QuotaManager { enabled, default_max_bytes, entries: Vec::new() }
    }

    pub fn is_enabled(&self) -> (r: bool)
        ensures
            r == self.enabled,
    {
        self.enabled
    }

    fn find(&self, bucket: &str) -> (r: Option<usize>)
        ensures
            match r {
                Some(i) => entry_index(self.entries@, bucket@, 0) == Some(i as int),
                None => entry_index(self.entries@, bucket@, 0) is None,
            },
    {
        let b = chars_of(bucket);
        let mut i: usize = 0;
        while i < self.entries.len()
            invariant
                i <= self.entries@.len(),
                b@ == bucket@,
                entry_index(self.entries@, bucket@, 0) == entry_index(self.entries@, bucket@, i as int),
            decreases self.entries.len() - i,
        {
            if chars_equal(chars_of(self.entries[i].bucket.as_str()).as_slice(), b.as_slice()) {
                return Some(i);
            }
            i = i + 1;
        }
        None
    }

    /// The cached quota of `bucket`, if it has been loaded.
    pub fn cached(&self, bucket: &str) -> (r: Option<BucketQuota>)
        ensures
            match entry_index(self.entries@, bucket@, 0) {
                Some(i) => r == Some(self.entries@[i].quota),
                None => r is None,
            },
    {
        match self.find(bucket) {
            Some(i) => {
                proof {
                    lemma_entry_index(self.entries@, bucket@, 0);
                }
                Some(self.entries[i].quota)
            },
            None => None,
        }
    }

    /// The quota built from a scan of the bucket: the default ceiling and the
    /// usage found.
    pub fn quota_from_scan(&self, usage: (u64, u64), now_ms: u64) -> (r: BucketQuota)
        ensures
            r == (BucketQuota {
                max_size_bytes: self.default_max_bytes,
                current_usage_bytes: usage.0,
                object_count: usage.1,
                last_updated_ms: now_ms,
            }),
    {
        BucketQuota {
            max_size_bytes: self.default_max_bytes,
            current_usage_bytes: usage.0,
            object_count: usage.1,
            last_updated_ms: now_ms,
        }
    }

    /// Caches a loaded or freshly built quota for a bucket not cached yet.
    pub fn seed(&mut self, bucket: &str, quota: BucketQuota)
        ensures
            final(self).enabled == old(self).enabled,
            final(self).default_max_bytes == old(self).default_max_bytes,
            match entry_index(old(self).entries@, bucket@, 0) {
                Some(_) => final(self).entries@ == old(self).entries@,
                None => final(self).entries@.len() == old(self).entries@.len() + 1
                    && entry_index(final(self).entries@, bucket@, 0) == Some(old(self).entries@.len() as int)
                    && final(self).entries@.last().quota == quota && !final(self).entries@.last().dirty
                    && forall|j: int| 0 <= j < old(self).entries@.len() ==> #[trigger] final(self).entries@[j] == old(self).entries@[j],
            },
    {
        if self.find(bucket).is_some() {
            return;
        }
        let ghost n = self.entries@.len() as int;
        self.entries.push(QuotaEntry { bucket: bucket.to_owned(), quota, dirty: false });
        proof {
            lemma_index_after_push(old(self).entries@, self.entries@, bucket@, 0);
        }
    }

    /// Whether `new_size` more bytes fit in `bucket`: always where quotas are
    /// off; `None` where the bucket's quota is not loaded yet.
    pub fn check(&self, bucket: &str, new_size: u64) -> (r: Option<bool>)
        ensures
            !self.enabled ==> r == Some(true),
            self.enabled ==> match entry_index(self.entries@, bucket@, 0) {
                Some(i) => r == Some(fits(self.entries@[i].quota, new_size as nat)),
                None => r is None,
            },
    {
        if !self.enabled {
            return Some(true);
        }
        match self.cached(bucket) {
            Some(q) => Some(check_quota(&q, new_size)),
            None => None,
        }
    }

    fn update(&mut self, bucket: &str, size: u64, now_ms: u64, add: bool) -> (r: bool)
        ensures
            final(self).enabled == old(self).enabled,
            final(self).default_max_bytes == old(self).default_max_bytes,
            !old(self).enabled ==> r && final(self).entries@ == old(self).entries@,
            old(self).enabled ==> match entry_index(old(self).entries@, bucket@, 0) {
                Some(i) => r && final(self).entries@ == old(self).entries@.update(
                    i,
                    QuotaEntry {
                        bucket: old(self).entries@[i].bucket,
                        quota: if add {
                            after_put(old(self).entries@[i].quota, size, now_ms)
                        } else {
                            after_delete(old(self).entries@[i].quota, size, now_ms)
                        },
                        dirty: true,
                    },
                ),
                None => !r && final(self).entries@ == old(self).entries@,
            },
    {
        if !self.enabled {
            return true;
        }
        let i = match self.find(bucket) {
            Some(i) => i,
            None => {
                return false;
            },
        };
        proof {
            lemma_entry_index(self.entries@, bucket@, 0);
        }
        let q = self.entries[i].quota;
        let nq = if add {
            BucketQuota {
                max_size_bytes: q.max_size_bytes,
                current_usage_bytes: sat_add(q.current_usage_bytes, size),
                object_count: sat_add(q.object_count, 1),
                last_updated_ms: now_ms,
            }
        } else {
            BucketQuota {
                max_size_bytes: q.max_size_bytes,
                current_usage_bytes: sat_sub(q.current_usage_bytes, size),
                object_count: sat_sub(q.object_count, 1),
                last_updated_ms: now_ms,
            }
        };
        let name = self.entries[i].bucket.clone();
        self.entries.set(i, QuotaEntry { bucket: name, quota: nq, dirty: true });
        true
    }

    /// Counts a stored object of `size` bytes. Returns false, changing
    /// nothing, where the bucket's quota is not loaded yet.
    pub fn record_put(&mut self, bucket: &str, size: u64, now_ms: u64) -> (r: bool)
        ensures
            final(self).enabled == old(self).enabled,
            !old(self).enabled ==> r && final(self).entries@ == old(self).entries@,
            old(self).enabled ==> match entry_index(old(self).entries@, bucket@, 0) {
                Some(i) => r && final(self).entries@ == old(self).entries@.update(
                    i,
                    QuotaEntry {
                        bucket: old(self).entries@[i].bucket,
                        quota: after_put(old(self).entries@[i].quota, size, now_ms),
                        dirty: true,
                    },
                ),
                None => !r && final(self).entries@ == old(self).entries@,
            },
    {
        self.update(bucket, size, now_ms, true)
    }

    /// Counts a removed object of `size` bytes, stopping at zero. Returns
    /// false, changing nothing, where the bucket's quota is not loaded yet.
    pub fn record_delete(&mut self, bucket: &str, size: u64, now_ms: u64) -> (r: bool)
        ensures
            final(self).enabled == old(self).enabled,
            !old(self).enabled ==> r && final(self).entries@ == old(self).entries@,
            old(self).enabled ==> match entry_index(old(self).entries@, bucket@, 0) {
                Some(i) => r && final(self).entries@ == old(self).entries@.update(
                    i,
                    QuotaEntry {
                        bucket: old(self).entries@[i].bucket,
                        quota: after_delete(old(self).entries@[i].quota, size, now_ms),
                        dirty: true,
                    },
                ),
                None => !r && final(self).entries@ == old(self).entries@,
            },
    {
        self.update(bucket, size, now_ms, false)
    }

    /// Hands out the quotas that changed since the last flush, for writing to
    /// disk, and marks them clean.
    pub fn take_dirty(&mut self) -> (r: Vec<(String, BucketQuota)>)
        ensures
            final(self).enabled == old(self).enabled,
            final(self).entries@.len() == old(self).entries@.len(),
            forall|j: int| 0 <= j < final(self).entries@.len() ==> !(#[trigger] final(self).entries@[j]).dirty
                && final(self).entries@[j].bucket == old(self).entries@[j].bucket
                && final(self).entries@[j].quota == old(self).entries@[j].quota,
            r@.map_values(|p: (String, BucketQuota)| (p.0@, p.1)) == dirty_list(old(self).entries@),
    {
        let mut out: Vec<(String, BucketQuota)> = Vec::new();
        let mut i: usize = 0;
        while i < self.entries.len()
            invariant
                i <= self.entries@.len(),
                self.enabled == old(self).enabled,
                self.entries@.len() == old(self).entries@.len(),
                forall|j: int| 0 <= j < self.entries@.len() ==> (#[trigger] self.entries@[j]).bucket == old(self).entries@[j].bucket
                    && self.entries@[j].quota == old(self).entries@[j].quota,
                forall|j: int| 0 <= j < i ==> !(#[trigger] self.entries@[j]).dirty,
                forall|j: int| i <= j < self.entries@.len() ==> (#[trigger] self.entries@[j]).dirty == old(self).entries@[j].dirty,
                out@.map_values(|p: (String, BucketQuota)| (p.0@, p.1)) == dirty_list(old(self).entries@.subrange(0, i as int)),
            decreases self.entries.len() - i,
        {
            assert(old(self).entries@.subrange(0, i + 1).drop_last() =~= old(self).entries@.subrange(0, i as int));
            if self.entries[i].dirty {
                let name = self.entries[i].bucket.clone();
                let q = self.entries[i].quota;
                out.push((name.clone(), q));
                self.entries.set(i, QuotaEntry { bucket: name, quota: q, dirty: false });
            }
            assert(out@.map_values(|p: (String, BucketQuota)| (p.0@, p.1)) =~= dirty_list(old(self).entries@.subrange(0, i + 1)));
            i = i + 1;
        }
        assert(old(self).entries@.subrange(0, old(self).entries@.len() as int) =~= old(self).entries@);
        out
    }
}

/// The bucket names and quotas of the entries that changed, in order.
pub open spec fn dirty_list(es: Seq<QuotaEntry>) -> Seq<(Seq<char>, BucketQuota)>
    decreases es.len(),
{
    if es.len() == 0 {
        Seq::empty()
    } else if es.last().dirty {
        dirty_list(es.drop_last()).push((es.last().bucket@, es.last().quota))
    } else {
        dirty_list(es.drop_last())
    }
}

proof fn lemma_index_after_push(old_es: Seq<QuotaEntry>, es: Seq<QuotaEntry>, bucket: Seq<char>, k: int)
    requires
        0 <= k <= old_es.len(),
        es.len() == old_es.len() + 1,
        forall|j: int| 0 <= j < old_es.len() ==> es[j] == old_es[j],
        es.last().bucket@ == bucket,
        entry_index(old_es, bucket, 0) is None,
    ensures
        entry_index(es, bucket, k) == Some(old_es.len() as int),
    decreases old_es.len() - k,
{
    if k < old_es.len() {
        lemma_entry_index_none_below(old_es, bucket, k);
        lemma_index_after_push(old_es, es, bucket, k + 1);
    }
}

proof fn lemma_entry_index_none_below(es: Seq<QuotaEntry>, bucket: Seq<char>, k: int)
    requires
        0 <= k,
        entry_index(es, bucket, 0) is None,
    ensures
        entry_index(es, bucket, k) is None,
        k < es.len() ==> es[k].bucket@ != bucket,
    decreases k,
{
    if k > 0 {
        lemma_entry_index_none_below(es, bucket, k - 1);
    }
}

/// One kind of request that the statistics count.
#[derive(Debug, Clone, Copy, PartialEq, Eq, Structural)]
pub enum Operation {
    Get,
    Put,
    Delete,
    List,
    Head,
    Multipart,
}

/// A bucket's request counts for one calendar month.
#[derive(Debug, Clone, Copy, PartialEq, Eq, Structural)]
pub struct BucketStats {
    pub get_count: u64,
    pub put_count: u64,
    pub delete_count: u64,
    pub list_count: u64,
    pub head_count: u64,
    pub multipart_count: u64,
}

/// The counts with the one for `op` raised by one (stopping at `u64::MAX`).
pub open spec fn counted(s: BucketStats, op: Operation) -> BucketStats {
    match op {
        Operation::Get => BucketStats { get_count: saturating_add(s.get_count, 1), ..s },
        Operation::Put => BucketStats { put_count: saturating_add(s.put_count, 1), ..s },
        Operation::Delete => BucketStats { delete_count: saturating_add(s.delete_count, 1), ..s },
        Operation::List => BucketStats { list_count: saturating_add(s.list_count, 1), ..s },
        Operation::Head => BucketStats { head_count: saturating_add(s.head_count, 1), ..s },
        Operation::Multipart => BucketStats { multipart_count: saturating_add(s.multipart_count, 1), ..s },
    }
}

impl BucketStats {
    pub fn zero() -> (r: BucketStats)
        ensures
            r == (BucketStats { get_count: 0, put_count: 0, delete_count: 0, list_count: 0, head_count: 0, multipart_count: 0 }),
    {
        BucketStats { get_count: 0, put_count: 0, delete_count: 0, list_count: 0, head_count: 0, multipart_count: 0 }
    }

    /// Counts one request of kind `op`.
    pub fn increment(&mut self, op: Operation)
        ensures
            *final(self) == counted(*old(self), op),
    {
        match op {
            Operation::Get => self.get_count = sat_add(self.get_count, 1),
            Operation::Put => self.put_count = sat_add(self.put_count, 1),
            Operation::Delete => self.delete_count = sat_add(self.delete_count, 1),
            Operation::List => self.list_count = sat_add(self.list_count, 1),
            Operation::Head => self.head_count = sat_add(self.head_count, 1),
            Operation::Multipart => self.multipart_count = sat_add(self.multipart_count, 1),
        }
    }
}

} // verus!
