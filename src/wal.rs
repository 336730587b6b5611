//! The write-ahead log: the text form of its records, the per-node sequence
//! counter, and recovery of the next sequence number after a restart.

use vstd::prelude::*;
use crate::text::{split_on, split_chars, parse_u64, parse_unsigned, chars_of, string_of, chars_equal, lemma_split_nonempty};

verus! {

/// A mutation to be logged.
#[derive(Debug)]
pub enum WALOp {
    Put { bucket: String, key: String, size: u64, etag: Option<String> },
    Delete { bucket: String, key: String },
    CreateBucket { bucket: String },
    DeleteBucket { bucket: String },
    UpdateMetadata { bucket: String, kind: String, content: String },
    DeleteMetadata { bucket: String, kind: String },
}

pub open spec fn digit_char(d: nat) -> char {
    seq!['0', '1', '2', '3', '4', '5', '6', '7', '8', '9'][d as int]
}

/// The decimal digits of `n`, without leading zeros.
pub open spec fn decimal_text(n: nat) -> Seq<char>
    decreases n,
{
    if n < 10 {
        seq![digit_char(n)]
    } else {
        decimal_text(n / 10).push(digit_char(n % 10))
    }
}

/// `s` with each line feed written `\n` and each tab written `\t`.
pub open spec fn escape_text(s: Seq<char>) -> Seq<char>
    decreases s.len(),
{
    if s.len() == 0 {
        s
    } else {
        let init = escape_text(s.drop_last());
        if s.last() == '\n' {
            init + seq!['\\', 'n']
        } else if s.last() == '\t' {
            init + seq!['\\', 't']
        } else {
            init.push(s.last())
        }
    }
}

/// The operation's name in the log.
pub open spec fn op_name(op: WALOp) -> Seq<char> {
    match op {
        WALOp::Put { .. } => "PUT"@,
        WALOp::Delete { .. } => "DELETE"@,
        WALOp::CreateBucket { .. } => "CREATE_BUCKET"@,
        WALOp::DeleteBucket { .. } => "DELETE_BUCKET"@,
        WALOp::UpdateMetadata { .. } => "UPDATE_METADATA"@,
        WALOp::DeleteMetadata { .. } => "DELETE_METADATA"@,
    }
}

/// The fields that follow the timestamp. A `PUT` without an ETag ends at its
/// size, so that no line ends in an empty field.
pub open spec fn op_fields(op: WALOp) -> Seq<Seq<char>> {
    match op {
        WALOp::Put { bucket, key, size, etag } => match etag {
            Some(e) => seq![bucket@, key@, decimal_text(size as nat), e@],
            None => seq![bucket@, key@, decimal_text(size as nat)],
        },
        WALOp::Delete { bucket, key } => seq![bucket@, key@],
        WALOp::CreateBucket { bucket } => seq![bucket@],
        WALOp::DeleteBucket { bucket } => seq![bucket@],
        WALOp::UpdateMetadata { bucket, kind, content } => seq![
            bucket@,
            kind@,
            escape_text(content@),
        ],
        WALOp::DeleteMetadata { bucket, kind } => seq![bucket@, kind@],
    }
}

/// The fields joined by tabs.
pub open spec fn join_tabs(f: Seq<Seq<char>>) -> Seq<char>
    decreases f.len(),
{
    if f.len() == 0 {
        Seq::empty()
    } else if f.len() == 1 {
        f[0]
    } else {
        join_tabs(f.drop_last()) + seq!['\t'] + f.last()
    }
}

/// One log line: `<op>\t<node>\t<sequence>\t<timestamp_ms>\t<fields...>\n`.
pub open spec fn record_line(node: Seq<char>, sequence: u64, timestamp_ms: u64, op: WALOp) -> Seq<
    char,
> {
    join_tabs(
        seq![op_name(op), node, decimal_text(sequence as nat), decimal_text(timestamp_ms as nat)]
            + op_fields(op),
    ) + seq!['\n']
}

/// Appends the decimal digits of `n` to `out`.
pub fn push_decimal(out: &mut Vec<char>, n: u64)
    ensures
        final(out)@ == old(out)@ + decimal_text(n as nat),
    decreases n,
{
    let digits = ['0', '1', '2', '3', '4', '5', '6', '7', '8', '9'];
    if n >= 10 {
        push_decimal(out, n / 10);
    }
    let d = (n % 10) as usize;
    let c = digits[d];
    assert(c == digit_char(d as nat));
    out.push(c);
    proof {
        if n >= 10 {
            assert(decimal_text(n as nat) == decimal_text((n / 10) as nat).push(digit_char((n % 10) as nat)));
        }
    }
    assert(final(out)@ =~= old(out)@ + decimal_text(n as nat));
}

fn push_chars(out: &mut Vec<char>, s: &[char])
    ensures
        final(out)@ == old(out)@ + s@,
{
    let mut i: usize = 0;
    while i < s.len()
        invariant
            i <= s@.len(),
            out@ == old(out)@ + s@.subrange(0, i as int),
        decreases s.len() - i,
    {
        out.push(s[i]);
        assert(s@.subrange(0, i + 1) =~= s@.subrange(0, i as int).push(s@[i as int]));
        i = i + 1;
    }
    assert(s@.subrange(0, s@.len() as int) =~= s@);
}

fn push_escaped(out: &mut Vec<char>, s: &[char])
    ensures
        final(out)@ == old(out)@ + escape_text(s@),
{
    let mut i: usize = 0;
    while i < s.len()
        invariant
            i <= s@.len(),
            out@ == old(out)@ + escape_text(s@.subrange(0, i as int)),
        decreases s.len() - i,
    {
        let c = s[i];
        assert(s@.subrange(0, i + 1).drop_last() =~= s@.subrange(0, i as int));
        if c == '\n' {
            out.push('\\');
            out.push('n');
        } else if c == '\t' {
            out.push('\\');
            out.push('t');
        } else {
            out.push(c);
        }
        assert(out@ =~= old(out)@ + escape_text(s@.subrange(0, i + 1)));
        i = i + 1;
    }
    assert(s@.subrange(0, s@.len() as int) =~= s@);
}

/// Appends a tab and then `field`.
fn push_field(out: &mut Vec<char>, field: &str)
    ensures
        final(out)@ == old(out)@ + seq!['\t'] + field@,
{
    out.push('\t');
    let c = chars_of(field);
    push_chars(out, c.as_slice());
    assert(final(out)@ =~= old(out)@ + seq!['\t'] + field@);
}

proof fn lemma_join_push(f: Seq<Seq<char>>, x: Seq<char>)
    requires
        f.len() >= 1,
    ensures
        join_tabs(f.push(x)) == join_tabs(f) + seq!['\t'] + x,
{
    assert(f.push(x).drop_last() =~= f);
}

/// The log line for `op`, stamped with `node`, `sequence` and `timestamp_ms`.
pub fn format_record(node: &str, sequence: u64, timestamp_ms: u64, op: &WALOp) -> (r: String)
    ensures
        r@ == record_line(node@, sequence, timestamp_ms, *op),
{
    let mut out: Vec<char> = Vec::new();
    let name = match op {
        WALOp::Put { .. } => "PUT",
        WALOp::Delete { .. } => "DELETE",
        WALOp::CreateBucket { .. } => "CREATE_BUCKET",
        WALOp::DeleteBucket { .. } => "DELETE_BUCKET",
        WALOp::UpdateMetadata { .. } => "UPDATE_METADATA",
        WALOp::DeleteMetadata { .. } => "DELETE_METADATA",
    };
    let name_chars = chars_of(name);
    push_chars(&mut out, name_chars.as_slice());
    push_field(&mut out, node);
    out.push('\t');
    push_decimal(&mut out, sequence);
    out.push('\t');
    push_decimal(&mut out, timestamp_ms);
    let ghost head = seq![name@, node@, decimal_text(sequence as nat), decimal_text(timestamp_ms as nat)];
    proof {
        assert(seq![name@].drop_last() =~= Seq::<Seq<char>>::empty());
        lemma_join_push(seq![name@], node@);
        assert(seq![name@].push(node@) =~= seq![name@, node@]);
        lemma_join_push(seq![name@, node@], decimal_text(sequence as nat));
        assert(seq![name@, node@].push(decimal_text(sequence as nat)) =~= seq![name@, node@, decimal_text(sequence as nat)]);
        lemma_join_push(seq![name@, node@, decimal_text(sequence as nat)], decimal_text(timestamp_ms as nat));
        assert(seq![name@, node@, decimal_text(sequence as nat)].push(decimal_text(timestamp_ms as nat)) =~= head);
        assert(out@ =~= join_tabs(head));
    }
    match op {
        WALOp::Put { bucket, key, size, etag } => {
            push_field(&mut out, bucket.as_str());
            push_field(&mut out, key.as_str());
            out.push('\t');
            push_decimal(&mut out, *size);
            proof {
                lemma_join_push(head, bucket@);
                lemma_join_push(head.push(bucket@), key@);
                lemma_join_push(head.push(bucket@).push(key@), decimal_text(*size as nat));
            }
            match etag {
                Some(e) => {
                    out.push('\t');
                    let ec = chars_of(e.as_str());
                    push_chars(&mut out, ec.as_slice());
                    proof {
                        lemma_join_push(head.push(bucket@).push(key@).push(decimal_text(*size as nat)), e@);
                        assert(head.push(bucket@).push(key@).push(decimal_text(*size as nat)).push(e@) =~= head + op_fields(*op));
                    }
                },
                None => {
                    assert(head.push(bucket@).push(key@).push(decimal_text(*size as nat)) =~= head + op_fields(*op));
                },
            }
        },
        WALOp::Delete { bucket, key } => {
            push_field(&mut out, bucket.as_str());
            push_field(&mut out, key.as_str());
            proof {
                lemma_join_push(head, bucket@);
                lemma_join_push(head.push(bucket@), key@);
                assert(head.push(bucket@).push(key@) =~= head + op_fields(*op));
            }
        },
        WALOp::CreateBucket { bucket } => {
            push_field(&mut out, bucket.as_str());
            proof {
                lemma_join_push(head, bucket@);
                assert(head.push(bucket@) =~= head + op_fields(*op));
            }
        },
        WALOp::DeleteBucket { bucket } => {
            push_field(&mut out, bucket.as_str());
            proof {
                lemma_join_push(head, bucket@);
                assert(head.push(bucket@) =~= head + op_fields(*op));
            }
        },
        WALOp::UpdateMetadata { bucket, kind, content } => {
            push_field(&mut out, bucket.as_str());
            push_field(&mut out, kind.as_str());
            out.push('\t');
            let cc = chars_of(content.as_str());
            push_escaped(&mut out, cc.as_slice());
            proof {
                lemma_join_push(head, bucket@);
                lemma_join_push(head.push(bucket@), kind@);
                lemma_join_push(head.push(bucket@).push(kind@), escape_text(content@));
                assert(head.push(bucket@).push(kind@).push(escape_text(content@)) =~= head + op_fields(*op));
            }
        },
        WALOp::DeleteMetadata { bucket, kind } => {
            push_field(&mut out, bucket.as_str());
            push_field(&mut out, kind.as_str());
            proof {
                lemma_join_push(head, bucket@);
                lemma_join_push(head.push(bucket@), kind@);
                assert(head.push(bucket@).push(kind@) =~= head + op_fields(*op));
            }
        },
    }
    out.push('\n');
    string_of(out.as_slice())
}

/// Whitespace around a number in the sequence file: space, tab and line breaks.
pub open spec fn is_blank(c: char) -> bool {
    c == ' ' || ('\t' <= c <= '\r')
}

pub open spec fn trim_blank_start(s: Seq<char>) -> Seq<char>
    decreases s.len(),
{
    if s.len() > 0 && is_blank(s[0]) {
        trim_blank_start(s.drop_first())
    } else {
        s
    }
}

pub open spec fn trim_blank_end(s: Seq<char>) -> Seq<char>
    decreases s.len(),
{
    if s.len() > 0 && is_blank(s.last()) {
        trim_blank_end(s.drop_last())
    } else {
        s
    }
}

pub open spec fn trim_blank(s: Seq<char>) -> Seq<char> {
    trim_blank_end(trim_blank_start(s))
}

/// The sequence number of a log line written by `node`.
pub open spec fn line_sequence(line: Seq<char>, node: Seq<char>) -> Option<nat> {
    let f = split_on(line, '\t');
    if f.len() >= 3 && f[1] == node {
        parse_unsigned(f[2], u64::MAX as nat)
    } else {
        None
    }
}

/// The largest sequence number of `node` among `lines`, or 0.
pub open spec fn max_sequence(lines: Seq<Seq<char>>, node: Seq<char>) -> nat
    decreases lines.len(),
{
    if lines.len() == 0 {
        0
    } else {
        let m = max_sequence(lines.drop_last(), node);
        match line_sequence(lines.last(), node) {
            Some(s) => if s > m {
                s
            } else {
                m
            },
            None => m,
        }
    }
}

/// The lines of the end of the log, less the first, which may be cut short.
pub open spec fn tail_lines(tail: Seq<char>) -> Seq<Seq<char>> {
    split_on(tail, '\n').drop_first()
}

/// The next sequence number after a restart: the number in the sequence file
/// where it holds one; otherwise one past the largest sequence of `node` in
/// the end of the log, where there is one below `u64::MAX`.
pub open spec fn recovered_next(state: Option<Seq<char>>, tail: Seq<char>, node: Seq<char>) -> Option<
    nat,
> {
    let from_state = match state {
        Some(s) => parse_unsigned(trim_blank(s), u64::MAX as nat),
        None => None,
    };
    match from_state {
        Some(v) => Some(v),
        None => {
            let m = max_sequence(tail_lines(tail), node);
            if 0 < m < u64::MAX {
                Some(m + 1)
            } else {
                None
            }
        },
    }
}

/// `s` with surrounding blanks removed.
pub fn trim_chars(s: &[char]) -> (r: Vec<char>)
    ensures
        r@ == trim_blank(s@),
{
    let mut lo: usize = 0;
    assert(s@.subrange(0, s@.len() as int) =~= s@);
    while lo < s.len() && (s[lo] == ' ' || ('\t' <= s[lo] && s[lo] <= '\r'))
        invariant
            lo <= s@.len(),
            trim_blank_start(s@) == trim_blank_start(s@.subrange(lo as int, s@.len() as int)),
        decreases s.len() - lo,
    {
        assert(s@.subrange(lo as int, s@.len() as int).drop_first() =~= s@.subrange(lo + 1, s@.len() as int));
        lo = lo + 1;
    }
    assert(trim_blank_start(s@.subrange(lo as int, s@.len() as int)) == s@.subrange(lo as int, s@.len() as int));
    let mut hi: usize = s.len();
    while hi > lo && (s[hi - 1] == ' ' || ('\t' <= s[hi - 1] && s[hi - 1] <= '\r'))
        invariant
            lo <= hi <= s@.len(),
            trim_blank(s@) == trim_blank_end(s@.subrange(lo as int, hi as int)),
        decreases hi - lo,
    {
        assert(s@.subrange(lo as int, hi as int).drop_last() =~= s@.subrange(lo as int, hi - 1));
        hi = hi - 1;
    }
    let r = vstd::slice::slice_to_vec(vstd::slice::slice_subrange(s, lo, hi));
    assert(trim_blank_end(s@.subrange(lo as int, hi as int)) == s@.subrange(lo as int, hi as int));
    r
}

fn sequence_of_line(line: &[char], node: &[char]) -> (r: Option<u64>)
    ensures
        match line_sequence(line@, node@) {
            Some(n) => r == Some(n as u64),
            None => r is None,
        },
{
    let f = split_chars(line, '\t');
    if f.len() >= 3 && chars_equal(f[1].as_slice(), node) {
        parse_u64(f[2].as_slice())
    } else {
        None
    }
}

/// The next sequence number to use after a restart, from the text of the
/// sequence file (if it could be read) and the text at the end of the log.
pub fn recover_next_sequence(state: Option<&str>, log_tail: &str, node_id: &str) -> (r: Option<u64>)
    ensures
        match recovered_next(
            match state {
                Some(s) => Some(s@),
                None => None,
            },
            log_tail@,
            node_id@,
        ) {
            Some(n) => r == Some(n as u64),
            None => r is None,
        },
{
    if let Some(text) = state {
        let chars = chars_of(text);
        let t = trim_chars(chars.as_slice());
        if let Some(v) = parse_u64(t.as_slice()) {
            return Some(v);
        }
    }
    let node = chars_of(node_id);
    let tail = chars_of(log_tail);
    let lines = split_chars(tail.as_slice(), '\n');
    let ghost all = split_on(tail@, '\n');
    let ghost rest = tail_lines(log_tail@);
    let mut max: u64 = 0;
    let mut i: usize = 1;
    proof {
        lemma_split_nonempty(tail@, '\n');
        assert(rest.subrange(0, 0) =~= Seq::<Seq<char>>::empty());
    }
    while i < lines.len()
        invariant
            1 <= i <= lines@.len(),
            lines@.len() == all.len(),
            forall|j: int| 0 <= j < lines@.len() ==> (#[trigger] lines@[j])@ == all[j],
            rest == all.drop_first(),
            node@ == node_id@,
            max == max_sequence(rest.subrange(0, i - 1), node@),
        decreases lines.len() - i,
    {
        let ghost prev = rest.subrange(0, i - 1);
        let ghost next = rest.subrange(0, i as int);
        assert(next.drop_last() =~= prev);
        assert(next.last() == lines@[i as int]@);
        if let Some(s) = sequence_of_line(lines[i].as_slice(), node.as_slice()) {
            if s > max {
                max = s;
            }
        }
        i = i + 1;
    }
    assert(rest.subrange(0, lines@.len() - 1) =~= rest);
    if max > 0 && max < u64::MAX {
        Some(max + 1)
    } else {
        None
    }
}

proof fn lemma_max_sequence_bounds(lines: Seq<Seq<char>>, node: Seq<char>, i: int)
    requires
        0 <= i < lines.len(),
        line_sequence(lines[i], node) is Some,
    ensures
        line_sequence(lines[i], node)->0 <= max_sequence(lines, node),
    decreases lines.len(),
{
    if i < lines.len() - 1 {
        assert(lines.drop_last()[i] == lines[i]);
        lemma_max_sequence_bounds(lines.drop_last(), node, i);
    }
}

/// Recovered from the log alone, the next sequence number lies above every
/// sequence number that the node wrote in the lines read.
pub proof fn lemma_recovery_continues_sequence(tail: Seq<char>, node: Seq<char>, i: int)
    requires
        recovered_next(None, tail, node) is Some,
        0 <= i < tail_lines(tail).len(),
        line_sequence(tail_lines(tail)[i], node) is Some,
    ensures
        line_sequence(tail_lines(tail)[i], node)->0 < recovered_next(None, tail, node)->0,
{
    lemma_max_sequence_bounds(tail_lines(tail), node, i);
}

/// The counter that stamps each record of one node with its sequence number.
pub struct SequenceCounter {
    pub next: u64,
}

impl SequenceCounter {
    pub fn new(start: u64) -> (r: SequenceCounter)
        ensures
            r.next == start,
    {
        SequenceCounter { next: start }
    }

    /// Formats a batch of operations as log lines stamped `next`, `next + 1`,
    /// ..., and advances the counter past them.
    pub fn stamp_batch(&mut self, node: &str, timestamp_ms: u64, ops: &Vec<WALOp>) -> (lines: Vec<String>)
        requires
            old(self).next + ops@.len() <= u64::MAX,
        ensures
            final(self).next == old(self).next + ops@.len(),
            lines@.len() == ops@.len(),
            forall|i: int|
                0 <= i < ops@.len() ==> (#[trigger] lines@[i])@ == record_line(
                    node@,
                    (old(self).next + i) as u64,
                    timestamp_ms,
                    ops@[i],
                ),
    {
        let mut lines: Vec<String> = Vec::new();
        let mut i: usize = 0;
        while i < ops.len()
            invariant
                i <= ops@.len(),
                old(self).next + ops@.len() <= u64::MAX,
                self.next == old(self).next + i,
                lines@.len() == i,
                forall|j: int|
                    0 <= j < i ==> (#[trigger] lines@[j])@ == record_line(
                        node@,
                        (old(self).next + j) as u64,
                        timestamp_ms,
                        ops@[j],
                    ),
            decreases ops.len() - i,
        {
            let line = format_record(node, self.next, timestamp_ms, &ops[i]);
            lines.push(line);
            self.next = self.next + 1;
            i = i + 1;
        }
        lines
    }

    /// The text of the sequence file: the next number to use.
    pub fn state_text(&self) -> (r: String)
        ensures
            r@ == decimal_text(self.next as nat),
    {
        let mut out: Vec<char> = Vec::new();
        push_decimal(&mut out, self.next);
        assert(out@ =~= decimal_text(self.next as nat));
        string_of(out.as_slice())
    }
}

/// The sequence numbers that a counter starting at `start` gives `n` records.
pub open spec fn stamped(start: nat, n: nat) -> Seq<int> {
    Seq::new(n, |i: int| start + i)
}

/// Within a batch, and from one batch to the next, the sequence numbers of a
/// node strictly increase.
pub proof fn lemma_sequences_increase(start: nat, n: nat, m: nat)
    ensures
        forall|i: int, j: int|
            0 <= i < j < n ==> #[trigger] stamped(start, n)[i] < #[trigger] stamped(start, n)[j],
        forall|i: int, j: int|
            0 <= i < n && 0 <= j < m ==> #[trigger] stamped(start, n)[i]
                < #[trigger] stamped(start + n, m)[j],
{
}

} // verus!
