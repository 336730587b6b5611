//! Decoding of bodies sent with AWS chunked framing
//! (`<hex-size>[;chunk-signature=...]\r\n<bytes>\r\n ... 0\r\n`).

use vstd::prelude::*;
use vstd::slice::{slice_subrange, slice_to_vec};

verus! {

/// `needle` occurs in `haystack` starting at index `i`.
pub open spec fn occurs_at(haystack: Seq<u8>, needle: Seq<u8>, i: int) -> bool {
    0 <= i && i + needle.len() <= haystack.len() && haystack.subrange(i, i + needle.len())
        == needle
}

/// The first index at or after `from` where `needle` occurs.
pub open spec fn first_match_from(haystack: Seq<u8>, needle: Seq<u8>, from: int) -> Option<int>
    decreases haystack.len() + 1 - from,
{
    if from < 0 || from + needle.len() > haystack.len() {
        None
    } else if occurs_at(haystack, needle, from) {
        Some(from)
    } else {
        first_match_from(haystack, needle, from + 1)
    }
}

proof fn lemma_first_match_from(haystack: Seq<u8>, needle: Seq<u8>, from: int)
    requires
        0 <= from,
    ensures
        match first_match_from(haystack, needle, from) {
            Some(i) => from <= i && occurs_at(haystack, needle, i) && forall|j: int|
                from <= j < i ==> !occurs_at(haystack, needle, j),
            None => forall|j: int| from <= j ==> !occurs_at(haystack, needle, j),
        },
    decreases haystack.len() + 1 - from,
{
    if from + needle.len() > haystack.len() {
    } else if occurs_at(haystack, needle, from) {
    } else {
        lemma_first_match_from(haystack, needle, from + 1);
    }
}

/// Whether `needle` occurs in `haystack` at index `i`.
fn matches_at(haystack: &[u8], needle: &[u8], i: usize) -> (r: bool)
    ensures
        r == occurs_at(haystack@, needle@, i as int),
{
    let n = needle.len();
    if i > haystack.len() || haystack.len() - i < n {
        return false;
    }
    let mut j: usize = 0;
    while j < n
        invariant
            0 <= j <= n,
            i + n <= haystack.len(),
            n == needle@.len(),
            forall|k: int| 0 <= k < j ==> haystack@[i + k] == needle@[k],
        decreases n - j,
    {
        if haystack[i + j] != needle[j] {
            assert(haystack@.subrange(i as int, i + n)[j as int] != needle@[j as int]);
            return false;
        }
        j = j + 1;
    }
    assert(haystack@.subrange(i as int, i + n) =~= needle@);
    true
}

/// Index of the first occurrence of `needle` in `haystack`, scanning from `from`.
fn find_from(haystack: &[u8], needle: &[u8], from: usize) -> (r: Option<usize>)
    requires
        needle@.len() > 0,
    ensures
        match r {
            Some(i) => first_match_from(haystack@, needle@, from as int) == Some(i as int),
            None => first_match_from(haystack@, needle@, from as int) is None,
        },
{
    let n = needle.len();
    let h = haystack.len();
    if from > h || h - from < n {
        return None;
    }
    let mut i = from;
    while i <= h - n
        invariant
            from <= i <= h - n + 1,
            n == needle@.len(),
            h == haystack@.len(),
            0 < n <= h,
            first_match_from(haystack@, needle@, from as int) == first_match_from(
                haystack@,
                needle@,
                i as int,
            ),
        decreases h - i,
    {
        if matches_at(haystack, needle, i) {
            return Some(i);
        }
        i = i + 1;
    }
    None
}

/// Index of the first occurrence of a non-empty `needle` in `haystack`.
pub fn find_sequence(haystack: &[u8], needle: &[u8]) -> (r: Option<usize>)
    requires
        needle@.len() > 0,
    ensures
        match r {
            Some(i) => first_match_from(haystack@, needle@, 0) == Some(i as int),
            None => first_match_from(haystack@, needle@, 0) is None,
        },
{
    find_from(haystack, needle, 0)
}


/// The two bytes that end a chunk header and a chunk's data.
pub open spec fn crlf() -> Seq<u8> {
    seq![13u8, 10u8]
}

pub open spec fn is_hex_digit(b: u8) -> bool {
    (48 <= b <= 57) || (65 <= b <= 70) || (97 <= b <= 102)
}

pub open spec fn hex_digit_value(b: u8) -> nat {
    if 48 <= b <= 57 {
        (b - 48) as nat
    } else if 65 <= b <= 70 {
        (b - 55) as nat
    } else if 97 <= b <= 102 {
        (b - 87) as nat
    } else {
        0
    }
}

/// The number that a string of hexadecimal digits denotes, most significant first.
pub open spec fn hex_value(d: Seq<u8>) -> nat
    decreases d.len(),
{
    if d.len() == 0 {
        0
    } else {
        hex_value(d.drop_last()) * 16 + hex_digit_value(d.last())
    }
}

/// The whitespace that surrounds a chunk size: space, tab, and line breaks.
pub open spec fn is_space(b: u8) -> bool {
    b == 32 || (9 <= b <= 13)
}

pub open spec fn trim_start(s: Seq<u8>) -> Seq<u8>
    decreases s.len(),
{
    if s.len() > 0 && is_space(s[0]) {
        trim_start(s.drop_first())
    } else {
        s
    }
}

pub open spec fn trim_end(s: Seq<u8>) -> Seq<u8>
    decreases s.len(),
{
    if s.len() > 0 && is_space(s.last()) {
        trim_end(s.drop_last())
    } else {
        s
    }
}

/// Index of the first `;` in `h` at or after `i`, or `h.len()` when there is none.
pub open spec fn semicolon_index(h: Seq<u8>, i: int) -> int
    decreases h.len() - i,
{
    if i < 0 || i >= h.len() {
        h.len() as int
    } else if h[i] == 59 {
        i
    } else {
        semicolon_index(h, i + 1)
    }
}

/// The digits of a chunk header's size: the text before any `;`, trimmed, less
/// an optional leading `+`.
pub open spec fn size_digits(header: Seq<u8>) -> Seq<u8> {
    let t = trim_end(trim_start(header.subrange(0, semicolon_index(header, 0))));
    if t.len() > 0 && t[0] == 43 {
        t.drop_first()
    } else {
        t
    }
}

/// The size that a chunk header announces: the text before any `;`, trimmed,
/// read as a hexadecimal number with an optional `+`, that fits in a `usize`.
pub open spec fn chunk_size(header: Seq<u8>) -> Option<nat> {
    let d = size_digits(header);
    if d.len() > 0 && (forall|i: int| 0 <= i < d.len() ==> is_hex_digit(#[trigger] d[i]))
        && hex_value(d) <= usize::MAX {
        Some(hex_value(d))
    } else {
        None
    }
}

/// The data of the chunks from `pos` on, appended to `acc`. Decoding stops at a
/// header with no line end or no valid size, at a zero-size chunk, and at a chunk
/// whose data runs past the end of the input.
pub open spec fn decode_from(input: Seq<u8>, pos: int, acc: Seq<u8>) -> Seq<u8>
    decreases input.len() - pos,
    via decode_from_decreases
{
    if pos < 0 || pos >= input.len() {
        acc
    } else {
        match first_match_from(input, crlf(), pos) {
            None => acc,
            Some(e) => match chunk_size(input.subrange(pos, e)) {
                None => acc,
                Some(size) => {
                    let p = e + 2;
                    if size == 0 || p + size > input.len() {
                        acc
                    } else {
                        let q = p + size;
                        let next = if q + 2 <= input.len() && input.subrange(q, q + 2) == crlf() {
                            q + 2
                        } else {
                            q
                        };
                        decode_from(input, next, acc + input.subrange(p, q))
                    }
                },
            },
        }
    }
}

#[via_fn]
proof fn decode_from_decreases(input: Seq<u8>, pos: int, acc: Seq<u8>) {
    if 0 <= pos < input.len() {
        lemma_first_match_from(input, crlf(), pos);
    }
}

/// A body with its chunk framing removed; a body from which no chunk data
/// could be decoded is returned as it is.
pub open spec fn decode_chunked(input: Seq<u8>) -> Seq<u8> {
    let r = decode_from(input, 0, Seq::empty());
    if r.len() == 0 {
        input
    } else {
        r
    }
}

proof fn lemma_hex_prefix_grows(d: Seq<u8>, i: int, j: int)
    requires
        0 <= i <= j <= d.len(),
    ensures
        hex_value(d.subrange(0, i)) <= hex_value(d.subrange(0, j)),
    decreases j - i,
{
    if i < j {
        lemma_hex_prefix_grows(d, i, j - 1);
        assert(d.subrange(0, j).drop_last() =~= d.subrange(0, j - 1));
    }
}

fn hex_digit(b: u8) -> (r: Option<usize>)
    ensures
        is_hex_digit(b) ==> r == Some(hex_digit_value(b) as usize),
        !is_hex_digit(b) ==> r is None,
{
    if 48 <= b && b <= 57 {
        Some((b - 48) as usize)
    } else if 65 <= b && b <= 70 {
        Some((b - 55) as usize)
    } else if 97 <= b && b <= 102 {
        Some((b - 87) as usize)
    } else {
        None
    }
}

fn exec_is_space(b: u8) -> (r: bool)
    ensures
        r == is_space(b),
{
    b == 32 || (9 <= b && b <= 13)
}

/// The size announced by the chunk header `header`.
fn parse_chunk_size(header: &[u8]) -> (r: Option<usize>)
    ensures
        match chunk_size(header@) {
            Some(n) => r == Some(n as usize),
            None => r is None,
        },
{
    let ghost h = header@;
    let mut semi: usize = 0;
    while semi < header.len() && header[semi] != 59
        invariant
            semi <= header@.len(),
            h == header@,
            semicolon_index(h, 0) == semicolon_index(h, semi as int),
        decreases header.len() - semi,
    {
        semi = semi + 1;
    }
    assert(semicolon_index(h, semi as int) == semi);
    let ghost before = h.subrange(0, semi as int);
    assert(before == h.subrange(0, semicolon_index(h, 0)));
    let mut lo: usize = 0;
    while lo < semi && exec_is_space(header[lo])
        invariant
            lo <= semi <= header@.len(),
            h == header@,
            before == h.subrange(0, semi as int),
            trim_start(before) == trim_start(h.subrange(lo as int, semi as int)),
        decreases semi - lo,
    {
        assert(h.subrange(lo as int, semi as int).drop_first() =~= h.subrange(lo + 1, semi as int));
        lo = lo + 1;
    }
    assert(trim_start(h.subrange(lo as int, semi as int)) == h.subrange(lo as int, semi as int));
    let mut hi: usize = semi;
    while hi > lo && exec_is_space(header[hi - 1])
        invariant
            lo <= hi <= semi <= header@.len(),
            h == header@,
            trim_end(trim_start(before)) == trim_end(h.subrange(lo as int, hi as int)),
        decreases hi - lo,
    {
        assert(h.subrange(lo as int, hi as int).drop_last() =~= h.subrange(lo as int, hi - 1));
        hi = hi - 1;
    }
    let ghost t = h.subrange(lo as int, hi as int);
    assert(trim_end(t) == t);
    let mut start = lo;
    if lo < hi && header[lo] == 43 {
        start = lo + 1;
        assert(t.drop_first() =~= h.subrange(start as int, hi as int));
    }
    let ghost d = h.subrange(start as int, hi as int);
    assert(t == trim_end(trim_start(h.subrange(0, semicolon_index(h, 0)))));
    assert(d == (if t.len() > 0 && t[0] == 43 {
        t.drop_first()
    } else {
        t
    }));
    if start >= hi {
        return None;
    }
    let mut acc: usize = 0;
    let mut k: usize = start;
    while k < hi
        invariant
            start <= k <= hi <= header@.len(),
            h == header@,
            d == size_digits(h),
            d == h.subrange(start as int, hi as int),
            forall|i: int| 0 <= i < k - start ==> is_hex_digit(#[trigger] d[i]),
            acc == hex_value(d.subrange(0, k - start)),
        decreases hi - k,
    {
        let v = match hex_digit(header[k]) {
            Some(v) => v,
            None => {
                assert(!is_hex_digit(d[k - start]));
                return None;
            },
        };
        assert(d.subrange(0, k - start + 1).drop_last() =~= d.subrange(0, k - start));
        if acc > (usize::MAX - v) / 16 {
            proof {
                lemma_hex_prefix_grows(d, k - start + 1, d.len() as int);
                assert(d.subrange(0, d.len() as int) =~= d);
            }
            return None;
        }
        acc = acc * 16 + v;
        k = k + 1;
    }
    assert(d.subrange(0, hi - start) =~= d);
    Some(acc)
}

/// Appends `src[from..to]` to `dst`.
fn append_range(dst: &mut Vec<u8>, src: &[u8], from: usize, to: usize)
    requires
        from <= to <= src@.len(),
    ensures
        final(dst)@ == old(dst)@ + src@.subrange(from as int, to as int),
{
    let mut i = from;
    while i < to
        invariant
            from <= i <= to <= src@.len(),
            dst@ == old(dst)@ + src@.subrange(from as int, i as int),
        decreases to - i,
    {
        dst.push(src[i]);
        assert(src@.subrange(from as int, i + 1) =~= src@.subrange(from as int, i as int).push(src@[i as int]));
        i = i + 1;
    }
}

/// Strips AWS chunk framing from a request body; a body that holds no chunk
/// data is returned unchanged.
pub fn parse_chunked_data(input: &[u8]) -> (r: Vec<u8>)
    ensures
        r@ == decode_chunked(input@),
{
    let crlf_bytes: Vec<u8> = vec![13u8, 10u8];
    assert(crlf_bytes@ =~= crlf());
    let mut result: Vec<u8> = Vec::new();
    let mut pos: usize = 0;
    while pos < input.len()
        invariant
            pos <= input@.len(),
            crlf_bytes@ == crlf(),
            decode_from(input@, pos as int, result@) == decode_from(input@, 0, Seq::empty()),
        ensures
            result@ == decode_from(input@, 0, Seq::empty()),
        decreases input.len() - pos,
    {
        proof {
            lemma_first_match_from(input@, crlf(), pos as int);
        }
        let end = match find_from(input, crlf_bytes.as_slice(), pos) {
            Some(e) => e,
            None => break,
        };
        let header = slice_subrange(input, pos, end);
        let size = match parse_chunk_size(header) {
            Some(n) => n,
            None => break,
        };
        let p = end + 2;
        if size == 0 || size > input.len() - p {
            break;
        }
        let q = p + size;
        append_range(&mut result, input, p, q);
        if input.len() - q >= 2 && input[q] == 13 && input[q + 1] == 10 {
            assert(input@.subrange(q as int, q + 2) =~= crlf());
            pos = q + 2;
        } else {
            assert(q + 2 <= input@.len() ==> input@.subrange(q as int, q + 2)[0] == input@[q as int]);
            assert(q + 2 <= input@.len() ==> input@.subrange(q as int, q + 2)[1] == input@[q + 1]);
            pos = q;
        }
    }
    if result.len() == 0 {
        slice_to_vec(input)
    } else {
        result
    }
}

} // verus!
