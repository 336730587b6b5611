//! The replicator's decisions: reading log lines into entries, choosing the
//! new entries of the local node, shrinking a batch, and deduplicating the
//! entries that arrive from peers.

use vstd::prelude::*;
use crate::text::{split_on, split_chars, parse_u64, parse_unsigned, chars_of, string_of, chars_equal, decimal_value, all_digits, unsigned_digits};
use crate::wal::{WALOp, record_line, join_tabs, decimal_text, digit_char, op_fields, op_name};

verus! {

/// One parsed log record.
#[derive(Debug)]
pub struct WalEntry {
    pub node_id: String,
    pub sequence_id: u64,
    pub timestamp: u64,
    pub operation: String,
    pub bucket: String,
    /// The object key; for metadata operations, the metadata kind.
    pub key: String,
    pub size: Option<u64>,
    /// The ETag; for `UPDATE_METADATA`, the escaped content.
    pub etag: Option<String>,
}

pub struct EntryView {
    pub node_id: Seq<char>,
    pub sequence_id: u64,
    pub timestamp: u64,
    pub operation: Seq<char>,
    pub bucket: Seq<char>,
    pub key: Seq<char>,
    pub size: Option<u64>,
    pub etag: Option<Seq<char>>,
}

impl View for WalEntry {
    type V = EntryView;

    open spec fn view(&self) -> EntryView {
        EntryView {
            node_id: self.node_id@,
            sequence_id: self.sequence_id,
            timestamp: self.timestamp,
            operation: self.operation@,
            bucket: self.bucket@,
            key: self.key@,
            size: self.size,
            etag: match self.etag {
                Some(e) => Some(e@),
                None => None,
            },
        }
    }
}

pub open spec fn entry_of(
    f: Seq<Seq<char>>,
    sequence_id: nat,
    timestamp: nat,
    key: Seq<char>,
    size: Option<u64>,
    etag: Option<Seq<char>>,
) -> EntryView {
    EntryView {
        node_id: f[1],
        sequence_id: sequence_id as u64,
        timestamp: timestamp as u64,
        operation: f[0],
        bucket: f[4],
        key,
        size,
        etag,
    }
}

/// The entry that a log line (without its line end) holds: its tab-separated
/// fields, of which `PUT`, `DELETE` and `DELETE_METADATA` need six,
/// `UPDATE_METADATA` seven and the rest five, with numeric sequence and
/// timestamp. An unknown operation is kept with no key.
pub open spec fn parse_line(line: Seq<char>) -> Option<EntryView> {
    let f = split_on(line, '\t');
    if f.len() < 5 {
        None
    } else {
        match (parse_unsigned(f[2], u64::MAX as nat), parse_unsigned(f[3], u64::MAX as nat)) {
            (Some(sq), Some(ts)) => {
                let op = f[0];
                if op == "PUT"@ {
                    if f.len() < 6 {
                        None
                    } else {
                        Some(
                            entry_of(
                                f,
                                sq,
                                ts,
                                f[5],
                                if f.len() > 6 {
                                    match parse_unsigned(f[6], u64::MAX as nat) {
                                        Some(n) => Some(n as u64),
                                        None => None,
                                    }
                                } else {
                                    None
                                },
                                if f.len() > 7 && f[7].len() > 0 {
                                    Some(f[7])
                                } else {
                                    None
                                },
                            ),
                        )
                    }
                } else if op == "DELETE"@ || op == "DELETE_METADATA"@ {
                    if f.len() < 6 {
                        None
                    } else {
                        Some(entry_of(f, sq, ts, f[5], None, None))
                    }
                } else if op == "UPDATE_METADATA"@ {
                    if f.len() < 7 {
                        None
                    } else {
                        Some(entry_of(f, sq, ts, f[5], None, Some(f[6])))
                    }
                } else {
                    Some(entry_of(f, sq, ts, Seq::empty(), None, None))
                }
            },
            _ => None,
        }
    }
}

fn make_entry(
    f: &Vec<Vec<char>>,
    sequence_id: u64,
    timestamp: u64,
    key: &[char],
    size: Option<u64>,
    etag: Option<&[char]>,
) -> (r: WalEntry)
    requires
        f@.len() >= 5,
    ensures
        r@ == (EntryView {
            node_id: f@[1]@,
            sequence_id,
            timestamp,
            operation: f@[0]@,
            bucket: f@[4]@,
            key: key@,
            size,
            etag: match etag {
                Some(e) => Some(e@),
                None => None,
            },
        }),
{
    WalEntry {
        node_id: string_of(f[1].as_slice()),
        sequence_id,
        timestamp,
        operation: string_of(f[0].as_slice()),
        bucket: string_of(f[4].as_slice()),
        key: string_of(key),
        size,
        etag: match etag {
            Some(e) => Some(string_of(e)),
            None => None,
        },
    }
}

/// Reads one log line (without its line end).
pub fn parse_wal_line(line: &str) -> (r: Option<WalEntry>)
    ensures
        match r {
            Some(e) => parse_line(line@) == Some(e@),
            None => parse_line(line@) is None,
        },
{
    let chars = chars_of(line);
    let f = split_chars(chars.as_slice(), '\t');
    let ghost fs = split_on(line@, '\t');
    if f.len() < 5 {
        return None;
    }
    assert(f@[0]@ == fs[0] && f@[1]@ == fs[1] && f@[2]@ == fs[2] && f@[3]@ == fs[3] && f@[4]@ == fs[4]);
    let sq = match parse_u64(f[2].as_slice()) {
        Some(v) => v,
        None => {
            return None;
        },
    };
    let ts = match parse_u64(f[3].as_slice()) {
        Some(v) => v,
        None => {
            return None;
        },
    };
    let op = f[0].as_slice();
    let put = chars_of("PUT");
    let delete = chars_of("DELETE");
    let delete_meta = chars_of("DELETE_METADATA");
    let update_meta = chars_of("UPDATE_METADATA");
    let empty: Vec<char> = Vec::new();
    if chars_equal(op, put.as_slice()) {
        if f.len() < 6 {
            return None;
        }
        assert(f@[5]@ == fs[5]);
        let size = if f.len() > 6 {
            assert(f@[6]@ == fs[6]);
            parse_u64(f[6].as_slice())
        } else {
            None
        };
        let etag = if f.len() > 7 && f[7].len() > 0 {
            assert(f@[7]@ == fs[7]);
            Some(f[7].as_slice())
        } else {
            None
        };
        Some(make_entry(&f, sq, ts, f[5].as_slice(), size, etag))
    } else if chars_equal(op, delete.as_slice()) || chars_equal(op, delete_meta.as_slice()) {
        if f.len() < 6 {
            return None;
        }
        assert(f@[5]@ == fs[5]);
        Some(make_entry(&f, sq, ts, f[5].as_slice(), None, None))
    } else if chars_equal(op, update_meta.as_slice()) {
        if f.len() < 7 {
            return None;
        }
        assert(f@[5]@ == fs[5] && f@[6]@ == fs[6]);
        Some(make_entry(&f, sq, ts, f[5].as_slice(), None, Some(f[6].as_slice())))
    } else {
        assert(empty@ =~= Seq::<char>::empty());
        Some(make_entry(&f, sq, ts, empty.as_slice(), None, None))
    }
}

impl WalEntry {
    /// A field-for-field copy.
    pub fn duplicate(&self) -> (r: WalEntry)
        ensures
            r@ == self@,
    {
        WalEntry {
            node_id: self.node_id.clone(),
            sequence_id: self.sequence_id,
            timestamp: self.timestamp,
            operation: self.operation.clone(),
            bucket: self.bucket.clone(),
            key: self.key.clone(),
            size: self.size,
            etag: match &self.etag {
                Some(e) => Some(e.clone()),
                None => None,
            },
        }
    }
}

/// A log entry that the reader takes: parsed, written by `node`, and newer
/// than the last sequence number taken.
pub open spec fn takes(e: Option<EntryView>, node: Seq<char>, last: u64) -> bool {
    e is Some && e->0.node_id == node && e->0.sequence_id > last
}

/// The entries taken from the first `k` lines, and the last sequence number
/// taken after them.
pub open spec fn scan(lines: Seq<Seq<char>>, node: Seq<char>, last: u64, k: nat) -> (
    Seq<EntryView>,
    u64,
)
    decreases k,
{
    if k == 0 || k > lines.len() {
        (Seq::empty(), last)
    } else {
        let (es, l) = scan(lines, node, last, (k - 1) as nat);
        let e = parse_line(lines[k - 1]);
        if takes(e, node, l) {
            (es.push(e->0), e->0.sequence_id)
        } else {
            (es, l)
        }
    }
}

/// How many lines one read consumes: up to `max_batch` lines, or all there are.
pub open spec fn lines_consumed(lines: Seq<Seq<char>>, max_batch: nat) -> nat {
    if lines.len() < max_batch {
        lines.len()
    } else {
        max_batch
    }
}

/// What one read of the log yields.
pub struct ReadResult {
    pub entries: Vec<WalEntry>,
    /// The last sequence number taken, to be remembered for the next read.
    pub last_sequence: u64,
    /// How many of the lines were consumed.
    pub lines_consumed: usize,
}

/// Reads the local node's new entries from `lines` (log lines without their
/// line ends), reading at most `max_batch` lines.
pub fn read_new_entries(lines: &Vec<String>, node_id: &str, last_sequence: u64, max_batch: usize) -> (r: ReadResult)
    ensures
        r.lines_consumed == lines_consumed(lines@.map_values(|l: String| l@), max_batch as nat),
        r.entries@.len() == scan(lines@.map_values(|l: String| l@), node_id@, last_sequence, r.lines_consumed as nat).0.len(),
        forall|i: int| 0 <= i < r.entries@.len() ==> (#[trigger] r.entries@[i])@ == scan(
            lines@.map_values(|l: String| l@),
            node_id@,
            last_sequence,
            r.lines_consumed as nat,
        ).0[i],
        r.last_sequence == scan(lines@.map_values(|l: String| l@), node_id@, last_sequence, r.lines_consumed as nat).1,
{
    let ghost ls = lines@.map_values(|l: String| l@);
    let node = chars_of(node_id);
    let n = if lines.len() < max_batch { lines.len() } else { max_batch };
    let mut entries: Vec<WalEntry> = Vec::new();
    let mut last = last_sequence;
    let mut i: usize = 0;
    while i < n
        invariant
            i <= n <= lines@.len(),
            ls == lines@.map_values(|l: String| l@),
            node@ == node_id@,
            entries@.len() == scan(ls, node_id@, last_sequence, i as nat).0.len(),
            forall|j: int| 0 <= j < entries@.len() ==> (#[trigger] entries@[j])@ == scan(ls, node_id@, last_sequence, i as nat).0[j],
            last == scan(ls, node_id@, last_sequence, i as nat).1,
        decreases n - i,
    {
        let parsed = parse_wal_line(lines[i].as_str());
        assert(ls[i as int] == lines@[i as int]@);
        match parsed {
            Some(e) => {
                if chars_equal(chars_of(e.node_id.as_str()).as_slice(), node.as_slice()) && e.sequence_id > last {
                    last = e.sequence_id;
                    entries.push(e);
                }
            },
            None => {},
        }
        i = i + 1;
    }
    ReadResult { entries, last_sequence: last, lines_consumed: n }
}

proof fn lemma_scan_local(lines: Seq<Seq<char>>, node: Seq<char>, last: u64, k: nat)
    ensures
        forall|i: int| 0 <= i < scan(lines, node, last, k).0.len() ==> (#[trigger] scan(lines, node, last, k).0[i]).node_id == node,
    decreases k,
{
    if k > 0 && k <= lines.len() {
        lemma_scan_local(lines, node, last, (k - 1) as nat);
    }
}

/// The reader ships only records that the local node wrote itself: a record
/// that arrived from a peer is never sent on, so it never comes back.
pub proof fn lemma_only_local_records_shipped(lines: Seq<Seq<char>>, node: Seq<char>, last: u64, max_batch: nat, i: int)
    requires
        0 <= i < scan(lines, node, last, lines_consumed(lines, max_batch)).0.len(),
    ensures
        scan(lines, node, last, lines_consumed(lines, max_batch)).0[i].node_id == node,
{
    lemma_scan_local(lines, node, last, lines_consumed(lines, max_batch));
}

pub open spec fn same_target(a: EntryView, b: EntryView) -> bool {
    a.bucket == b.bucket && a.key == b.key
}

/// No later entry of the batch has the same bucket and key as entry `i`.
pub open spec fn last_for_target(s: Seq<EntryView>, i: int) -> bool {
    forall|j: int| i < j < s.len() ==> !same_target(#[trigger] s[j], s[i])
}

/// Some entry of the batch with the target of entry `i` is a `op`.
pub open spec fn target_has_op(s: Seq<EntryView>, i: int, op: Seq<char>) -> bool {
    exists|j: int| 0 <= j < s.len() && same_target(#[trigger] s[j], s[i]) && s[j].operation == op
}

/// Entry `i` survives optimisation: it is the last one for its bucket and key,
/// and that target was not both written and deleted within the batch.
pub open spec fn survives(s: Seq<EntryView>, i: int) -> bool {
    last_for_target(s, i) && !(target_has_op(s, i, "PUT"@) && target_has_op(s, i, "DELETE"@))
}

/// The surviving entries among the first `k`, in batch order.
pub open spec fn optimized_prefix(s: Seq<EntryView>, k: int) -> Seq<EntryView>
    decreases k,
{
    if k <= 0 || k > s.len() {
        Seq::empty()
    } else if survives(s, k - 1) {
        optimized_prefix(s, k - 1).push(s[k - 1])
    } else {
        optimized_prefix(s, k - 1)
    }
}

pub open spec fn optimized(s: Seq<EntryView>) -> Seq<EntryView> {
    optimized_prefix(s, s.len() as int)
}

fn same_target_exec(a: &WalEntry, b: &WalEntry) -> (r: bool)
    ensures
        r == same_target(a@, b@),
{
    chars_equal(chars_of(a.bucket.as_str()).as_slice(), chars_of(b.bucket.as_str()).as_slice())
        && chars_equal(chars_of(a.key.as_str()).as_slice(), chars_of(b.key.as_str()).as_slice())
}

fn entry_survives(entries: &Vec<WalEntry>, i: usize) -> (r: bool)
    requires
        i < entries@.len(),
    ensures
        r == survives(entries@.map_values(|e: WalEntry| e@), i as int),
{
    let ghost s = entries@.map_values(|e: WalEntry| e@);
    let put = chars_of("PUT");
    let delete = chars_of("DELETE");
    let mut has_put = false;
    let mut has_delete = false;
    let mut j: usize = 0;
    while j < entries.len()
        invariant
            i < entries@.len(),
            j <= entries@.len(),
            s == entries@.map_values(|e: WalEntry| e@),
            put@ == "PUT"@,
            delete@ == "DELETE"@,
            has_put == exists|k: int| 0 <= k < j && same_target(#[trigger] s[k], s[i as int]) && s[k].operation == "PUT"@,
            has_delete == exists|k: int| 0 <= k < j && same_target(#[trigger] s[k], s[i as int]) && s[k].operation == "DELETE"@,
            forall|k: int| i < k < j ==> !same_target(#[trigger] s[k], s[i as int]),
        decreases entries.len() - j,
    {
        assert(s[j as int] == entries@[j as int]@);
        if same_target_exec(&entries[j], &entries[i]) {
            if j > i {
                return false;
            }
            let op = chars_of(entries[j].operation.as_str());
            if chars_equal(op.as_slice(), put.as_slice()) {
                has_put = true;
            }
            if chars_equal(op.as_slice(), delete.as_slice()) {
                has_delete = true;
            }
        }
        j = j + 1;
    }
    !(has_put && has_delete)
}

/// Shrinks a batch: for each bucket and key only the last entry is kept, and a
/// target that was both written and deleted within the batch is dropped.
pub fn optimize_batch(entries: &Vec<WalEntry>) -> (r: Vec<WalEntry>)
    ensures
        r@.len() == optimized(entries@.map_values(|e: WalEntry| e@)).len(),
        forall|i: int| 0 <= i < r@.len() ==> (#[trigger] r@[i])@ == optimized(entries@.map_values(|e: WalEntry| e@))[i],
{
    let ghost s = entries@.map_values(|e: WalEntry| e@);
    let mut out: Vec<WalEntry> = Vec::new();
    let mut i: usize = 0;
    while i < entries.len()
        invariant
            i <= entries@.len(),
            s == entries@.map_values(|e: WalEntry| e@),
            out@.len() == optimized_prefix(s, i as int).len(),
            forall|k: int| 0 <= k < out@.len() ==> (#[trigger] out@[k])@ == optimized_prefix(s, i as int)[k],
        decreases entries.len() - i,
    {
        if entry_survives(entries, i) {
            out.push(entries[i].duplicate());
        }
        i = i + 1;
    }
    out
}

/// The `(node, sequence)` pairs of the entries already applied here.
pub struct SeenEvents {
    pub ids: Vec<(String, u64)>,
}

impl SeenEvents {
    pub open spec fn contains(&self, node: Seq<char>, sequence: u64) -> bool {
        exists|i: int| 0 <= i < self.ids@.len() && (#[trigger] self.ids@[i]).0@ == node && self.ids@[i].1 == sequence
    }

    pub fn new() -> (r: SeenEvents)
        ensures
            forall|n: Seq<char>, q: u64| !r.contains(n, q),
    {
        SeenEvents { ids: Vec::new() }
    }

    pub fn has_seen(&self, node: &str, sequence: u64) -> (r: bool)
        ensures
            r == self.contains(node@, sequence),
    {
        let n = chars_of(node);
        let mut i: usize = 0;
        while i < self.ids.len()
            invariant
                i <= self.ids@.len(),
                n@ == node@,
                forall|k: int| 0 <= k < i ==> !((#[trigger] self.ids@[k]).0@ == node@ && self.ids@[k].1 == sequence),
            decreases self.ids.len() - i,
        {
            if self.ids[i].1 == sequence && chars_equal(chars_of(self.ids[i].0.as_str()).as_slice(), n.as_slice()) {
                return true;
            }
            i = i + 1;
        }
        false
    }

    pub fn mark_seen(&mut self, node: &str, sequence: u64)
        ensures
            forall|n: Seq<char>, q: u64| #[trigger] final(self).contains(n, q) <==> (old(self).contains(n, q) || (n == node@ && q == sequence)),
    {
        self.ids.push((node.to_owned(), sequence));
        assert forall|n: Seq<char>, q: u64| #[trigger] self.contains(n, q) <==> (old(self).contains(n, q) || (n == node@ && q == sequence)) by {
            if old(self).contains(n, q) {
                let k = choose|k: int| 0 <= k < old(self).ids@.len() && (#[trigger] old(self).ids@[k]).0@ == n && old(self).ids@[k].1 == q;
                assert(self.ids@[k] == old(self).ids@[k]);
            }
            if n == node@ && q == sequence {
                assert(self.ids@[old(self).ids@.len() as int].0@ == n);
            }
            if self.contains(n, q) {
                let k = choose|k: int| 0 <= k < self.ids@.len() && (#[trigger] self.ids@[k]).0@ == n && self.ids@[k].1 == q;
                if k < old(self).ids@.len() {
                    assert(old(self).ids@[k] == self.ids@[k]);
                }
            }
        }
    }

    /// Picks the entries of an incoming batch that are new here (in order,
    /// each `(node, sequence)` once) and records them all as seen. The caller
    /// applies the picked entries to local storage, never to the local log.
    pub fn take_new(&mut self, entries: &Vec<WalEntry>) -> (picked: Vec<usize>)
        ensures
            forall|k: int| 0 <= k < picked@.len() ==> #[trigger] picked@[k] < entries@.len(),
            forall|k: int| 0 <= k < picked@.len() ==> !old(self).contains(entries@[#[trigger] picked@[k] as int].node_id@, entries@[picked@[k] as int].sequence_id),
            forall|i: int| 0 <= i < entries@.len() ==> final(self).contains(#[trigger] entries@[i].node_id@, entries@[i].sequence_id),
            forall|n: Seq<char>, q: u64| old(self).contains(n, q) ==> #[trigger] final(self).contains(n, q),
            forall|i: int| 0 <= i < entries@.len() && !old(self).contains(entries@[i].node_id@, entries@[i].sequence_id) ==> exists|k: int| 0 <= k < picked@.len() && #[trigger] entries@[picked@[k] as int].node_id@ == entries@[i].node_id@ && entries@[picked@[k] as int].sequence_id == entries@[i].sequence_id,
            forall|a: int, b: int| 0 <= a < b < picked@.len() ==> !(entries@[#[trigger] picked@[a] as int].node_id@ == entries@[#[trigger] picked@[b] as int].node_id@
                && entries@[picked@[a] as int].sequence_id == entries@[picked@[b] as int].sequence_id),
            forall|n: Seq<char>, q: u64| #[trigger] final(self).contains(n, q) ==> old(self).contains(n, q) || exists|i: int| 0 <= i < entries@.len() && #[trigger] entries@[i].node_id@ == n && entries@[i].sequence_id == q,
    {
        let mut picked: Vec<usize> = Vec::new();
        let mut i: usize = 0;
        while i < entries.len()
            invariant
                i <= entries@.len(),
                forall|k: int| 0 <= k < picked@.len() ==> #[trigger] picked@[k] < i,
                forall|k: int| 0 <= k < picked@.len() ==> !old(self).contains(entries@[#[trigger] picked@[k] as int].node_id@, entries@[picked@[k] as int].sequence_id),
                forall|j: int| 0 <= j < i ==> self.contains(#[trigger] entries@[j].node_id@, entries@[j].sequence_id),
                forall|n: Seq<char>, q: u64| old(self).contains(n, q) ==> #[trigger] self.contains(n, q),
                forall|n: Seq<char>, q: u64| #[trigger] self.contains(n, q) ==> old(self).contains(n, q) || exists|k: int| 0 <= k < picked@.len() && #[trigger] entries@[picked@[k] as int].node_id@ == n && entries@[picked@[k] as int].sequence_id == q,
                forall|k: int| 0 <= k < picked@.len() ==> self.contains(entries@[#[trigger] picked@[k] as int].node_id@, entries@[picked@[k] as int].sequence_id),
                forall|a: int, b: int| 0 <= a < b < picked@.len() ==> !(entries@[#[trigger] picked@[a] as int].node_id@ == entries@[#[trigger] picked@[b] as int].node_id@
                    && entries@[picked@[a] as int].sequence_id == entries@[picked@[b] as int].sequence_id),
            decreases entries.len() - i,
        {
            let e = &entries[i];
            if !self.has_seen(e.node_id.as_str(), e.sequence_id) {
                let ghost pre = *self;
                let ghost pre_picked = picked@;
                picked.push(i);
                self.mark_seen(e.node_id.as_str(), e.sequence_id);
                proof {
                    assert forall|k: int| 0 <= k < picked@.len() implies self.contains(entries@[#[trigger] picked@[k] as int].node_id@, entries@[picked@[k] as int].sequence_id) by {
                        if k < pre_picked.len() {
                            assert(picked@[k] == pre_picked[k]);
                            assert(pre.contains(entries@[pre_picked[k] as int].node_id@, entries@[pre_picked[k] as int].sequence_id));
                        }
                    }
                    assert forall|a: int, b: int| 0 <= a < b < picked@.len() implies !(entries@[#[trigger] picked@[a] as int].node_id@ == entries@[#[trigger] picked@[b] as int].node_id@
                        && entries@[picked@[a] as int].sequence_id == entries@[picked@[b] as int].sequence_id) by {
                        assert(picked@[a] == pre_picked[a]);
                        if b < pre_picked.len() {
                            assert(picked@[b] == pre_picked[b]);
                        } else {
                            assert(pre.contains(entries@[pre_picked[a] as int].node_id@, entries@[pre_picked[a] as int].sequence_id));
                        }
                    }
                    assert forall|n: Seq<char>, q: u64| #[trigger] self.contains(n, q) implies old(self).contains(n, q) || exists|k: int| 0 <= k < picked@.len() && #[trigger] entries@[picked@[k] as int].node_id@ == n && entries@[picked@[k] as int].sequence_id == q by {
                        if n == e.node_id@ && q == e.sequence_id {
                            let k = picked@.len() - 1;
                            assert(entries@[picked@[k] as int].node_id@ == n);
                        } else {
                            assert(pre.contains(n, q));
                            if !old(self).contains(n, q) {
                                let k = choose|k: int| 0 <= k < pre_picked.len() && #[trigger] entries@[pre_picked[k] as int].node_id@ == n && entries@[pre_picked[k] as int].sequence_id == q;
                                assert(picked@[k] == pre_picked[k]);
                            }
                        }
                    }
                }
            }
            i = i + 1;
        }
        assert forall|n: Seq<char>, q: u64| #[trigger] self.contains(n, q) implies old(self).contains(n, q) || exists|j: int| 0 <= j < entries@.len() && #[trigger] entries@[j].node_id@ == n && entries@[j].sequence_id == q by {
            if !old(self).contains(n, q) {
                let k = choose|k: int| 0 <= k < picked@.len() && #[trigger] entries@[picked@[k] as int].node_id@ == n && entries@[picked@[k] as int].sequence_id == q;
                let j = picked@[k] as int;
                assert(entries@[j].node_id@ == n);
            }
        }
        picked
    }
}

/// Replaying a batch that has already been taken picks nothing: `after` is
/// the state that a first `take_new` of `entries` left, and `picked` is what a
/// second `take_new` of the same entries from that state may return. A second
/// replay of the same log therefore leaves the target as the first one left it.
pub proof fn lemma_replay_is_idempotent(after: SeenEvents, entries: Seq<WalEntry>, picked: Seq<usize>)
    requires
        forall|j: int| 0 <= j < entries.len() ==> after.contains(#[trigger] entries[j].node_id@, entries[j].sequence_id),
        forall|k: int| 0 <= k < picked.len() ==> #[trigger] picked[k] < entries.len(),
        forall|k: int| 0 <= k < picked.len() ==> !after.contains(entries[#[trigger] picked[k] as int].node_id@, entries[picked[k] as int].sequence_id),
    ensures
        picked.len() == 0,
{
    if picked.len() > 0 {
        assert(picked[0] < entries.len());
        assert(after.contains(entries[picked[0] as int].node_id@, entries[picked[0] as int].sequence_id));
    }
}

/// Whether the buffered entries are shipped now: there are some, and either the
/// batch interval has passed or the buffer is full.
pub fn should_process(buffered: usize, elapsed_ms: u64, batch_interval_ms: u64, max_batch: usize) -> (r: bool)
    ensures
        r == (buffered > 0 && (elapsed_ms >= batch_interval_ms || buffered >= max_batch)),
{
    buffered > 0 && (elapsed_ms >= batch_interval_ms || buffered >= max_batch)
}

/// `s` with each `\n` and `\t` escape turned back into a line feed or tab,
/// read left to right.
pub open spec fn unescape_text(s: Seq<char>) -> Seq<char>
    decreases s.len(),
{
    if s.len() >= 2 && s[0] == '\\' && s[1] == 'n' {
        seq!['\n'] + unescape_text(s.subrange(2, s.len() as int))
    } else if s.len() >= 2 && s[0] == '\\' && s[1] == 't' {
        seq!['\t'] + unescape_text(s.subrange(2, s.len() as int))
    } else if s.len() == 0 {
        s
    } else {
        seq![s[0]] + unescape_text(s.drop_first())
    }
}

/// Turns the escaped content of an `UPDATE_METADATA` entry back into text.
pub fn unescape(s: &[char]) -> (r: Vec<char>)
    ensures
        r@ == unescape_text(s@),
{
    let mut out: Vec<char> = Vec::new();
    let mut i: usize = 0;
    assert(s@.subrange(0, s@.len() as int) =~= s@);
    while i < s.len()
        invariant
            i <= s@.len(),
            out@ + unescape_text(s@.subrange(i as int, s@.len() as int)) == unescape_text(s@),
        decreases s.len() - i,
    {
        let ghost rest = s@.subrange(i as int, s@.len() as int);
        if i + 1 < s.len() && s[i] == '\\' && (s[i + 1] == 'n' || s[i + 1] == 't') {
            assert(rest.subrange(2, rest.len() as int) =~= s@.subrange(i + 2, s@.len() as int));
            if s[i + 1] == 'n' {
                out.push('\n');
            } else {
                out.push('\t');
            }
            assert(out@ + unescape_text(s@.subrange(i + 2, s@.len() as int)) =~= unescape_text(s@));
            i = i + 2;
        } else {
            assert(rest.drop_first() =~= s@.subrange(i + 1, s@.len() as int));
            out.push(s[i]);
            assert(out@ + unescape_text(s@.subrange(i + 1, s@.len() as int)) =~= unescape_text(s@));
            i = i + 1;
        }
    }
    assert(s@.subrange(i as int, s@.len() as int) =~= Seq::<char>::empty());
    assert(out@ + Seq::<char>::empty() =~= out@);
    out
}

/// What applying one entry does to a node's storage.
#[derive(Debug)]
pub enum ReplicaAction {
    /// Copy the object and its sidecar from the source node.
    CopyObject { bucket: String, key: String },
    RemoveObject { bucket: String, key: String },
    CreateBucket { bucket: String },
    RemoveBucket { bucket: String },
    /// Write the bucket-level file `.<kind>` with `content`.
    WriteBucketFile { bucket: String, kind: String, content: Vec<char> },
    RemoveBucketFile { bucket: String, kind: String },
    /// An operation this node does not know: logged and skipped.
    Skip,
}

/// The action for an entry of operation `op`.
pub open spec fn action_matches(a: ReplicaAction, e: EntryView) -> bool {
    if e.operation == "PUT"@ {
        a matches ReplicaAction::CopyObject { bucket, key } && bucket@ == e.bucket && key@ == e.key
    } else if e.operation == "DELETE"@ {
        a matches ReplicaAction::RemoveObject { bucket, key } && bucket@ == e.bucket && key@ == e.key
    } else if e.operation == "CREATE_BUCKET"@ {
        a matches ReplicaAction::CreateBucket { bucket } && bucket@ == e.bucket
    } else if e.operation == "DELETE_BUCKET"@ {
        a matches ReplicaAction::RemoveBucket { bucket } && bucket@ == e.bucket
    } else if e.operation == "UPDATE_METADATA"@ {
        a matches ReplicaAction::WriteBucketFile { bucket, kind, content } && bucket@ == e.bucket && kind@ == e.key
            && content@ == unescape_text(match e.etag {
                Some(c) => c,
                None => Seq::empty(),
            })
    } else if e.operation == "DELETE_METADATA"@ {
        a matches ReplicaAction::RemoveBucketFile { bucket, kind } && bucket@ == e.bucket && kind@ == e.key
    } else {
        a matches ReplicaAction::Skip
    }
}

/// Decides what applying `e` to a node's storage does. Entries are applied
/// to storage directly, never through the log, so an applied entry is not
/// shipped on.
pub fn replica_action(e: &WalEntry) -> (r: ReplicaAction)
    ensures
        action_matches(r, e@),
{
    let op = chars_of(e.operation.as_str());
    if chars_equal(op.as_slice(), chars_of("PUT").as_slice()) {
        ReplicaAction::CopyObject { bucket: e.bucket.clone(), key: e.key.clone() }
    } else if chars_equal(op.as_slice(), chars_of("DELETE").as_slice()) {
        ReplicaAction::RemoveObject { bucket: e.bucket.clone(), key: e.key.clone() }
    } else if chars_equal(op.as_slice(), chars_of("CREATE_BUCKET").as_slice()) {
        ReplicaAction::CreateBucket { bucket: e.bucket.clone() }
    } else if chars_equal(op.as_slice(), chars_of("DELETE_BUCKET").as_slice()) {
        ReplicaAction::RemoveBucket { bucket: e.bucket.clone() }
    } else if chars_equal(op.as_slice(), chars_of("UPDATE_METADATA").as_slice()) {
        let content = match &e.etag {
            Some(c) => unescape(chars_of(c.as_str()).as_slice()),
            None => {
                let empty: Vec<char> = Vec::new();
                assert(unescape_text(Seq::<char>::empty()) == Seq::<char>::empty());
                empty
            },
        };
        ReplicaAction::WriteBucketFile { bucket: e.bucket.clone(), kind: e.key.clone(), content }
    } else if chars_equal(op.as_slice(), chars_of("DELETE_METADATA").as_slice()) {
        ReplicaAction::RemoveBucketFile { bucket: e.bucket.clone(), kind: e.key.clone() }
    } else {
        ReplicaAction::Skip
    }
}

proof fn lemma_split_no_sep(s: Seq<char>, sep: char)
    requires
        forall|i: int| 0 <= i < s.len() ==> s[i] != sep,
    ensures
        split_on(s, sep) == seq![s],
    decreases s.len(),
{
    if s.len() > 0 {
        assert forall|i: int| 0 <= i < s.drop_last().len() implies s.drop_last()[i] != sep by {
            assert(s.drop_last()[i] == s[i]);
        }
        lemma_split_no_sep(s.drop_last(), sep);
        assert(s.drop_last().push(s.last()) =~= s);
        assert(s[s.len() - 1] != sep);
        assert(seq![s.drop_last()].last() == s.drop_last());
        assert(seq![s.drop_last()].update(0, s.drop_last().push(s.last())) =~= seq![s]);
    } else {
        assert(s =~= Seq::<char>::empty());
    }
}

proof fn lemma_split_extend(x: Seq<char>, y: Seq<char>, sep: char)
    requires
        forall|i: int| 0 <= i < y.len() ==> y[i] != sep,
    ensures
        split_on(x + y, sep) == split_on(x, sep).update(split_on(x, sep).len() - 1, split_on(x, sep).last() + y),
    decreases y.len(),
{
    crate::text::lemma_split_nonempty(x, sep);
    if y.len() == 0 {
        assert(x + y =~= x);
        assert(split_on(x, sep).last() + y =~= split_on(x, sep).last());
        assert(split_on(x, sep).update(split_on(x, sep).len() - 1, split_on(x, sep).last()) =~= split_on(x, sep));
    } else {
        let y0 = y.drop_last();
        lemma_split_extend(x, y0, sep);
        assert((x + y).drop_last() =~= x + y0);
        assert((x + y).last() == y.last());
        crate::text::lemma_split_nonempty(x + y0, sep);
        let px = split_on(x, sep);
        assert(split_on(x + y0, sep) == px.update(px.len() - 1, px.last() + y0));
        assert((px.last() + y0).push(y.last()) =~= px.last() + y);
        assert(split_on(x + y, sep) =~= px.update(px.len() - 1, px.last() + y));
    }
}

proof fn lemma_split_join(f: Seq<Seq<char>>)
    requires
        f.len() >= 1,
        forall|k: int, i: int| 0 <= k < f.len() && 0 <= i < f[k].len() ==> #[trigger] f[k][i] != '\t',
    ensures
        split_on(join_tabs(f), '\t') == f,
    decreases f.len(),
{
    if f.len() == 1 {
        lemma_split_no_sep(f[0], '\t');
        assert(seq![f[0]] =~= f);
    } else {
        let init = f.drop_last();
        assert forall|k: int, i: int| 0 <= k < init.len() && 0 <= i < init[k].len() implies #[trigger] init[k][i] != '\t' by {
            assert(init[k] == f[k]);
        }
        lemma_split_join(init);
        let a = join_tabs(init);
        assert(join_tabs(f) == a + seq!['\t'] + f.last());
        assert forall|i: int| 0 <= i < f.last().len() implies f.last()[i] != '\t' by {
            assert(f[f.len() - 1][i] != '\t');
        }
        lemma_split_extend(a + seq!['\t'], f.last(), '\t');
        assert((a + seq!['\t']).drop_last() =~= a);
        assert(split_on(a + seq!['\t'], '\t') == init.push(Seq::empty()));
        assert(init.push(Seq::empty()).update(init.len() as int, Seq::<char>::empty() + f.last()) =~= f);
    }
}

proof fn lemma_digit_char(d: nat)
    requires
        d < 10,
    ensures
        '0' <= digit_char(d) <= '9',
        (digit_char(d) as u32 - '0' as u32) as nat == d,
{
    if d == 0 { assert(digit_char(d) == '0'); }
    else if d == 1 { assert(digit_char(d) == '1'); }
    else if d == 2 { assert(digit_char(d) == '2'); }
    else if d == 3 { assert(digit_char(d) == '3'); }
    else if d == 4 { assert(digit_char(d) == '4'); }
    else if d == 5 { assert(digit_char(d) == '5'); }
    else if d == 6 { assert(digit_char(d) == '6'); }
    else if d == 7 { assert(digit_char(d) == '7'); }
    else if d == 8 { assert(digit_char(d) == '8'); }
    else { assert(digit_char(d) == '9'); }
}

proof fn lemma_decimal_round_trip(n: nat)
    ensures
        decimal_text(n).len() > 0,
        all_digits(decimal_text(n)),
        decimal_value(decimal_text(n)) == n,
        forall|i: int| 0 <= i < decimal_text(n).len() ==> decimal_text(n)[i] != '\t',
    decreases n,
{
    lemma_digit_char(n % 10);
    if n < 10 {
        assert(seq![digit_char(n)].drop_last() =~= Seq::<char>::empty());
        assert(n % 10 == n);
        assert(decimal_text(n) == seq![digit_char(n)]);
        assert(decimal_value(Seq::<char>::empty()) == 0);
        assert(seq![digit_char(n)].last() == digit_char(n));
    } else {
        lemma_decimal_round_trip(n / 10);
        let t = decimal_text(n / 10);
        assert(decimal_text(n) == t.push(digit_char(n % 10)));
        assert(t.push(digit_char(n % 10)).drop_last() =~= t);
        assert forall|i: int| 0 <= i < decimal_text(n).len() implies crate::text::is_digit(#[trigger] decimal_text(n)[i]) by {
            if i < t.len() {
                assert(decimal_text(n)[i] == t[i]);
            }
        }
        assert(decimal_value(decimal_text(n)) == decimal_value(t) * 10 + (n % 10));
        assert(n == (n / 10) * 10 + n % 10);
    }
}

proof fn lemma_number_field(n: u64)
    ensures
        parse_unsigned(decimal_text(n as nat), u64::MAX as nat) == Some(n as nat),
        forall|i: int| 0 <= i < decimal_text(n as nat).len() ==> decimal_text(n as nat)[i] != '\t',
{
    lemma_decimal_round_trip(n as nat);
    let t = decimal_text(n as nat);
    assert(crate::text::is_digit(t[0]));
    assert(unsigned_digits(t) == t);
}

/// No character of `s` is a tab.
pub open spec fn tab_free(s: Seq<char>) -> bool {
    forall|i: int| 0 <= i < s.len() ==> s[i] != '\t'
}

/// The replicator reads back what the log writer wrote: a `PUT` or `DELETE`
/// line, less its line end, parses into the entry that was logged, provided
/// that node, bucket, key and ETag hold no tab.
pub proof fn lemma_log_line_round_trip(node: Seq<char>, sequence: u64, timestamp_ms: u64, op: WALOp)
    requires
        tab_free(node),
        match op {
            WALOp::Put { bucket, key, etag, .. } => tab_free(bucket@) && tab_free(key@) && match etag {
                Some(e) => tab_free(e@),
                None => true,
            },
            WALOp::Delete { bucket, key } => tab_free(bucket@) && tab_free(key@),
            _ => false,
        },
    ensures
        parse_line(record_line(node, sequence, timestamp_ms, op).drop_last()) == Some(match op {
            WALOp::Put { bucket, key, size, etag } => EntryView {
                node_id: node,
                sequence_id: sequence,
                timestamp: timestamp_ms,
                operation: "PUT"@,
                bucket: bucket@,
                key: key@,
                size: Some(size),
                etag: match etag {
                    Some(e) => if e@.len() > 0 { Some(e@) } else { None },
                    None => None,
                },
            },
            _ => EntryView {
                node_id: node,
                sequence_id: sequence,
                timestamp: timestamp_ms,
                operation: "DELETE"@,
                bucket: op->Delete_bucket@,
                key: op->Delete_key@,
                size: None,
                etag: None,
            },
        }),
{
    let f = seq![op_name(op), node, decimal_text(sequence as nat), decimal_text(timestamp_ms as nat)] + op_fields(op);
    assert(record_line(node, sequence, timestamp_ms, op).drop_last() =~= join_tabs(f));
    lemma_number_field(sequence);
    lemma_number_field(timestamp_ms);
    reveal_strlit("PUT");
    reveal_strlit("DELETE");
    reveal_strlit("DELETE_METADATA");
    reveal_strlit("UPDATE_METADATA");
    match op {
        WALOp::Put { bucket, key, size, etag } => {
            lemma_number_field(size);
            match etag {
                Some(e) => {
                    assert(f =~= seq!["PUT"@, node, decimal_text(sequence as nat), decimal_text(timestamp_ms as nat), bucket@, key@, decimal_text(size as nat), e@]);
                },
                None => {
                    assert(f =~= seq!["PUT"@, node, decimal_text(sequence as nat), decimal_text(timestamp_ms as nat), bucket@, key@, decimal_text(size as nat)]);
                },
            }
            assert forall|k: int, i: int| 0 <= k < f.len() && 0 <= i < f[k].len() implies #[trigger] f[k][i] != '\t' by {
                if k == 0 {
                    assert(f[0] == "PUT"@);
                }
            }
            lemma_split_join(f);
        },
        WALOp::Delete { bucket, key } => {
            assert(f =~= seq!["DELETE"@, node, decimal_text(sequence as nat), decimal_text(timestamp_ms as nat), bucket@, key@]);
            assert forall|k: int, i: int| 0 <= k < f.len() && 0 <= i < f[k].len() implies #[trigger] f[k][i] != '\t' by {
                if k == 0 {
                    assert(f[0] == "DELETE"@);
                }
            }
            lemma_split_join(f);
            assert("DELETE"@.len() != "PUT"@.len());
        },
        _ => {},
    }
}

/// A `PUT` line never ends in an empty field: the character before its line
/// end is not a tab, whether or not an ETag (one with no tab in it) was given.
pub proof fn lemma_put_line_has_no_trailing_tab(node: Seq<char>, sequence: u64, timestamp_ms: u64, op: WALOp)
    requires
        op matches WALOp::Put { etag, .. } && match etag {
            Some(e) => e@.len() > 0 && tab_free(e@),
            None => true,
        },
    ensures
        ({
            let line = record_line(node, sequence, timestamp_ms, op);
            line.len() >= 2 && line[line.len() - 2] != '\t'
        }),
{
    let f = seq![op_name(op), node, decimal_text(sequence as nat), decimal_text(timestamp_ms as nat)] + op_fields(op);
    let j = join_tabs(f);
    assert(f.len() >= 2);
    assert(j == join_tabs(f.drop_last()) + seq!['\t'] + f.last());
    let last = f.last();
    match op {
        WALOp::Put { size, etag, .. } => {
            match etag {
                Some(e) => {
                    assert(last == e@);
                    assert(last[last.len() - 1] != '\t');
                },
                None => {
                    lemma_decimal_round_trip(size as nat);
                    assert(last == decimal_text(size as nat));
                    assert(last[last.len() - 1] != '\t');
                },
            }
        },
        _ => {},
    }
    let line = record_line(node, sequence, timestamp_ms, op);
    assert(line == j + seq!['\n']);
    assert(line[line.len() - 2] == last[last.len() - 1]);
}

} // verus!
