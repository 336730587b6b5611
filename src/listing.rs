//! ListObjects: which directory a prefix is listed from, which entries are
//! objects, the page of keys after a continuation token, and the common
//! prefixes that a delimiter collapses keys into.

use vstd::prelude::*;
use crate::text::{chars_of, has_prefix, starts_with, string_of};

verus! {

/// Strict lexicographic order of character strings (byte order of their UTF-8
/// text).
pub open spec fn lex_lt(a: Seq<char>, b: Seq<char>) -> bool
    decreases a.len(),
{
    if a.len() == 0 {
        b.len() > 0
    } else if b.len() == 0 {
        false
    } else if a[0] != b[0] {
        a[0] < b[0]
    } else {
        lex_lt(a.drop_first(), b.drop_first())
    }
}

pub proof fn lemma_lex_irreflexive(a: Seq<char>)
    ensures
        !lex_lt(a, a),
    decreases a.len(),
{
    if a.len() > 0 {
        lemma_lex_irreflexive(a.drop_first());
    }
}

pub proof fn lemma_lex_total(a: Seq<char>, b: Seq<char>)
    ensures
        a == b || lex_lt(a, b) || lex_lt(b, a),
        !(lex_lt(a, b) && lex_lt(b, a)),
    decreases a.len(),
{
    if a.len() > 0 && b.len() > 0 {
        lemma_lex_total(a.drop_first(), b.drop_first());
        if a[0] == b[0] && a.drop_first() == b.drop_first() {
            assert(a =~= seq![a[0]] + a.drop_first());
            assert(b =~= seq![b[0]] + b.drop_first());
        }
    } else if a.len() == 0 && b.len() == 0 {
        assert(a =~= b);
    }
}

pub proof fn lemma_lex_transitive(a: Seq<char>, b: Seq<char>, c: Seq<char>)
    requires
        lex_lt(a, b),
        lex_lt(b, c),
    ensures
        lex_lt(a, c),
    decreases a.len(),
{
    if a.len() > 0 && b.len() > 0 && c.len() > 0 {
        if a[0] == b[0] && b[0] == c[0] {
            lemma_lex_transitive(a.drop_first(), b.drop_first(), c.drop_first());
        }
    }
}

/// Compares two strings lexicographically.
pub fn lex_less(a: &[char], b: &[char]) -> (r: bool)
    ensures
        r == lex_lt(a@, b@),
{
    let mut i: usize = 0;
    assert(a@.subrange(0, a@.len() as int) =~= a@);
    assert(b@.subrange(0, b@.len() as int) =~= b@);
    while i < a.len() && i < b.len() && a[i] == b[i]
        invariant
            i <= a@.len(),
            i <= b@.len(),
            lex_lt(a@, b@) == lex_lt(a@.subrange(i as int, a@.len() as int), b@.subrange(i as int, b@.len() as int)),
        decreases a.len() - i,
    {
        assert(a@.subrange(i as int, a@.len() as int).drop_first() =~= a@.subrange(i + 1, a@.len() as int));
        assert(b@.subrange(i as int, b@.len() as int).drop_first() =~= b@.subrange(i + 1, b@.len() as int));
        i = i + 1;
    }
    if i == a.len() {
        i < b.len()
    } else if i == b.len() {
        false
    } else {
        a[i] < b[i]
    }
}

pub open spec fn in_keys(keys: Seq<Seq<char>>, k: Seq<char>) -> bool {
    exists|i: int| 0 <= i < keys.len() && keys[i] == k
}

/// `page` is the run of keys that follow `token`, in ascending order, at most
/// `max` of them, with no key skipped.
pub open spec fn is_page(keys: Seq<Seq<char>>, token: Seq<char>, max: nat, page: Seq<Seq<char>>) -> bool {
    &&& page.len() <= max
    &&& forall|i: int, j: int| 0 <= i < j < page.len() ==> lex_lt(#[trigger] page[i], #[trigger] page[j])
    &&& forall|i: int| 0 <= i < page.len() ==> in_keys(keys, #[trigger] page[i]) && lex_lt(token, page[i])
    &&& forall|k: Seq<char>| #[trigger] in_keys(keys, k) && lex_lt(token, k) ==> in_keys(page, k) || (page.len() == max && (page.len() == 0 || lex_lt(page.last(), k)))
}

/// Some key follows the last one of the page.
pub open spec fn more_after(keys: Seq<Seq<char>>, token: Seq<char>, page: Seq<Seq<char>>) -> bool {
    exists|k: Seq<char>| #[trigger] in_keys(keys, k) && lex_lt(token, k) && !in_keys(page, k)
}

fn least_above(keys: &Vec<Vec<char>>, cur: &[char]) -> (r: Option<usize>)
    ensures
        match r {
            Some(i) => i < keys@.len() && lex_lt(cur@, keys@[i as int]@) && forall|j: int| 0 <= j < keys@.len() && lex_lt(cur@, #[trigger] keys@[j]@) ==> !lex_lt(keys@[j]@, keys@[i as int]@),
            None => forall|j: int| 0 <= j < keys@.len() ==> !lex_lt(cur@, #[trigger] keys@[j]@),
        },
{
    let mut best: Option<usize> = None;
    let mut i: usize = 0;
    while i < keys.len()
        invariant
            i <= keys@.len(),
            match best {
                Some(b) => b < i && lex_lt(cur@, keys@[b as int]@) && forall|j: int| 0 <= j < i && lex_lt(cur@, #[trigger] keys@[j]@) ==> !lex_lt(keys@[j]@, keys@[b as int]@),
                None => forall|j: int| 0 <= j < i ==> !lex_lt(cur@, #[trigger] keys@[j]@),
            },
        decreases keys.len() - i,
    {
        if lex_less(cur, keys[i].as_slice()) {
            match best {
                Some(b) => {
                    if lex_less(keys[i].as_slice(), keys[b].as_slice()) {
                        proof {
                            assert forall|j: int| 0 <= j < i + 1 && lex_lt(cur@, #[trigger] keys@[j]@) implies !lex_lt(keys@[j]@, keys@[i as int]@) by {
                                if j < i && lex_lt(keys@[j]@, keys@[i as int]@) {
                                    lemma_lex_transitive(keys@[j]@, keys@[i as int]@, keys@[b as int]@);
                                }
                                if j == i {
                                    lemma_lex_irreflexive(keys@[j]@);
                                }
                            }
                        }
                        best = Some(i);
                    } else {
                        proof {
                            lemma_lex_total(keys@[i as int]@, keys@[b as int]@);
                        }
                    }
                },
                None => {
                    proof {
                        lemma_lex_irreflexive(keys@[i as int]@);
                    }
                    best = Some(i);
                },
            }
        }
        i = i + 1;
    }
    best
}

proof fn lemma_in_push(s: Seq<Seq<char>>, x: Seq<char>, k: Seq<char>)
    ensures
        in_keys(s.push(x), k) <==> (in_keys(s, k) || k == x),
{
    if in_keys(s.push(x), k) {
        let i = choose|i: int| 0 <= i < s.push(x).len() && s.push(x)[i] == k;
        if i < s.len() {
            assert(s[i] == k);
        }
    }
    if in_keys(s, k) {
        let i = choose|i: int| 0 <= i < s.len() && s[i] == k;
        assert(s.push(x)[i] == k);
    }
    if k == x {
        assert(s.push(x)[s.len() as int] == k);
    }
}

/// The page of at most `max_keys` keys that follow `token`, in ascending
/// order, and whether more keys follow it.
pub fn page_after(keys: &Vec<Vec<char>>, token: &[char], max_keys: usize) -> (r: (Vec<Vec<char>>, bool))
    ensures
        is_page(keys@.map_values(|k: Vec<char>| k@), token@, max_keys as nat, r.0@.map_values(|k: Vec<char>| k@)),
        r.1 == more_after(keys@.map_values(|k: Vec<char>| k@), token@, r.0@.map_values(|k: Vec<char>| k@)),
{
    let ghost ks = keys@.map_values(|k: Vec<char>| k@);
    let mut page: Vec<Vec<char>> = Vec::new();
    let mut cur: Vec<char> = vstd::slice::slice_to_vec(token);
    let mut more = true;
    while page.len() < max_keys && more
        invariant
            page@.len() <= max_keys,
            ks == keys@.map_values(|k: Vec<char>| k@),
            forall|i: int, j: int| 0 <= i < j < page@.len() ==> lex_lt(#[trigger] page@[i]@, #[trigger] page@[j]@),
            forall|i: int| 0 <= i < page@.len() ==> in_keys(ks, (#[trigger] page@[i])@) && lex_lt(token@, page@[i]@),
            page@.len() == 0 ==> cur@ == token@,
            page@.len() > 0 ==> cur@ == page@.last()@,
            forall|k: Seq<char>| #[trigger] in_keys(ks, k) && lex_lt(token@, k) && !lex_lt(cur@, k) ==> in_keys(page@.map_values(|p: Vec<char>| p@), k),
            !more ==> forall|k: Seq<char>| #[trigger] in_keys(ks, k) ==> !lex_lt(cur@, k),
        decreases max_keys - page@.len(), (if more { 1int } else { 0int }),
    {
        match least_above(keys, cur.as_slice()) {
            Some(m) => {
                let ghost pv = page@.map_values(|p: Vec<char>| p@);
                let ghost mk = keys@[m as int]@;
                let next = vstd::slice::slice_to_vec(keys[m].as_slice());
                proof {
                    assert(ks[m as int] == mk);
                    if page@.len() > 0 {
                        lemma_lex_transitive(token@, cur@, mk);
                    } else {
                        assert(cur@ == token@);
                    }
                }
                page.push(next);
                cur = vstd::slice::slice_to_vec(keys[m].as_slice());
                proof {
                    assert(page@.map_values(|p: Vec<char>| p@) =~= pv.push(mk));
                    assert forall|i: int, j: int| 0 <= i < j < page@.len() implies lex_lt(#[trigger] page@[i]@, #[trigger] page@[j]@) by {
                        if j == page@.len() - 1 && i < j {
                            if i < page@.len() - 2 {
                                assert(lex_lt(page@[i]@, page@[page@.len() - 2]@));
                                lemma_lex_transitive(page@[i]@, page@[page@.len() - 2]@, mk);
                            }
                        }
                    }
                    assert forall|i: int| 0 <= i < page@.len() implies in_keys(ks, (#[trigger] page@[i])@) && lex_lt(token@, page@[i]@) by {
                        if i == page@.len() - 1 {
                            assert(ks[m as int] == page@[i]@);
                        }
                    }
                    assert forall|k: Seq<char>| #[trigger] in_keys(ks, k) && lex_lt(token@, k) && !lex_lt(mk, k) implies in_keys(page@.map_values(|p: Vec<char>| p@), k) by {
                        lemma_in_push(pv, mk, k);
                        let prev = if pv.len() == 0 { token@ } else { pv.last() };
                        if lex_lt(prev, k) {
                            let j = choose|j: int| 0 <= j < ks.len() && ks[j] == k;
                            assert(keys@[j]@ == k);
                            lemma_lex_total(k, mk);
                        }
                    }
                }
            },
            None => {
                more = false;
                proof {
                    assert forall|k: Seq<char>| #[trigger] in_keys(ks, k) implies !lex_lt(cur@, k) by {
                        let j = choose|j: int| 0 <= j < ks.len() && ks[j] == k;
                        assert(keys@[j]@ == k);
                    }
                }
            },
        }
    }
    let ghost pv = page@.map_values(|p: Vec<char>| p@);
    proof {
        assert forall|i: int, j: int| 0 <= i < j < pv.len() implies lex_lt(#[trigger] pv[i], #[trigger] pv[j]) by {
            assert(pv[i] == page@[i]@ && pv[j] == page@[j]@);
        }
        assert forall|i: int| 0 <= i < pv.len() implies in_keys(ks, #[trigger] pv[i]) && lex_lt(token@, pv[i]) by {
            assert(pv[i] == page@[i]@);
        }
        assert forall|k: Seq<char>| #[trigger] in_keys(ks, k) && lex_lt(token@, k) implies in_keys(pv, k) || (pv.len() == max_keys && (pv.len() == 0 || lex_lt(pv.last(), k))) by {
            if !lex_lt(cur@, k) {
            } else if more {
                assert(page@.len() == max_keys);
                if page@.len() > 0 {
                    assert(pv.last() == page@.last()@);
                }
            }
        }
    }
    let has_more = if more {
        match least_above(keys, cur.as_slice()) {
            Some(m) => {
                proof {
                    assert(ks[m as int] == keys@[m as int]@);
                    let k = keys@[m as int]@;
                    if page@.len() > 0 {
                        lemma_lex_transitive(token@, cur@, k);
                    }
                    assert(in_keys(ks, k));
                    if in_keys(pv, k) {
                        let i = choose|i: int| 0 <= i < pv.len() && pv[i] == k;
                        if i < pv.len() - 1 {
                            lemma_lex_transitive(pv[i], pv.last(), k);
                        }
                        lemma_lex_irreflexive(k);
                    }
                }
                true
            },
            None => {
                proof {
                    assert forall|k: Seq<char>| #[trigger] in_keys(ks, k) && lex_lt(token@, k) implies in_keys(pv, k) by {
                        let j = choose|j: int| 0 <= j < ks.len() && ks[j] == k;
                        assert(keys@[j]@ == k);
                    }
                }
                false
            },
        }
    } else {
        false
    };
    (page, has_more)
}

/// The first index at or after `from` where `needle` occurs in `h`.
pub open spec fn find_from(h: Seq<char>, needle: Seq<char>, from: int) -> Option<int>
    decreases h.len() + 1 - from,
{
    if from < 0 || from + needle.len() > h.len() {
        None
    } else if h.subrange(from, from + needle.len()) == needle {
        Some(from)
    } else {
        find_from(h, needle, from + 1)
    }
}

pub proof fn lemma_find_from(h: Seq<char>, needle: Seq<char>, from: int)
    requires
        0 <= from,
    ensures
        find_from(h, needle, from) matches Some(i) ==> from <= i && i + needle.len() <= h.len(),
    decreases h.len() + 1 - from,
{
    if from + needle.len() <= h.len() && h.subrange(from, from + needle.len()) != needle {
        lemma_find_from(h, needle, from + 1);
    }
}

pub fn find_chars(h: &[char], needle: &[char], from: usize) -> (r: Option<usize>)
    requires
        needle@.len() > 0,
    ensures
        match r {
            Some(i) => find_from(h@, needle@, from as int) == Some(i as int),
            None => find_from(h@, needle@, from as int) is None,
        },
{
    let n = needle.len();
    if from > h.len() || h.len() - from < n {
        return None;
    }
    let mut i = from;
    while i <= h.len() - n
        invariant
            from <= i <= h@.len() - n + 1,
            n == needle@.len(),
            0 < n <= h@.len(),
            find_from(h@, needle@, from as int) == find_from(h@, needle@, i as int),
        decreases h.len() - i + 1,
    {
        if crate::text::starts_with(vstd::slice::slice_subrange(h, i, h.len()), needle) {
            assert(h@.subrange(i as int, h@.len() as int).subrange(0, n as int) =~= h@.subrange(i as int, i + n));
            return Some(i);
        }
        assert(h@.subrange(i as int, h@.len() as int).subrange(0, n as int) =~= h@.subrange(i as int, i + n));
        i = i + 1;
    }
    None
}

/// The common prefix that `delim` collapses `key` into: the key up to and
/// including the first `delim` after `prefix`.
pub open spec fn common_prefix_of(key: Seq<char>, prefix: Seq<char>, delim: Seq<char>) -> Option<Seq<char>> {
    if delim.len() > 0 && has_prefix(key, prefix) {
        match find_from(key, delim, prefix.len() as int) {
            Some(i) => Some(key.subrange(0, i + delim.len())),
            None => None,
        }
    } else {
        None
    }
}

/// The keys that start with `prefix`, in order.
pub open spec fn matching(keys: Seq<Seq<char>>, prefix: Seq<char>) -> Seq<Seq<char>>
    decreases keys.len(),
{
    if keys.len() == 0 {
        Seq::empty()
    } else if has_prefix(keys.last(), prefix) {
        matching(keys.drop_last(), prefix).push(keys.last())
    } else {
        matching(keys.drop_last(), prefix)
    }
}

/// The common prefixes of the keys, in key order, repeats included.
pub open spec fn prefixes_of(keys: Seq<Seq<char>>, prefix: Seq<char>, delim: Seq<char>) -> Seq<Seq<char>>
    decreases keys.len(),
{
    if keys.len() == 0 {
        Seq::empty()
    } else {
        match common_prefix_of(keys.last(), prefix, delim) {
            Some(c) => prefixes_of(keys.drop_last(), prefix, delim).push(c),
            None => prefixes_of(keys.drop_last(), prefix, delim),
        }
    }
}

pub open spec fn opt_chars(d: Option<&[char]>) -> Option<Seq<char>> {
    match d {
        Some(x) => Some(x@),
        None => None,
    }
}

/// The keys listed as contents: those that start with `prefix` and are not
/// collapsed into a common prefix by the delimiter, in order.
pub open spec fn contents_keys(keys: Seq<Seq<char>>, prefix: Seq<char>, delim: Option<Seq<char>>) -> Seq<Seq<char>>
    decreases keys.len(),
{
    if keys.len() == 0 {
        Seq::empty()
    } else {
        let rest = contents_keys(keys.drop_last(), prefix, delim);
        let k = keys.last();
        if has_prefix(k, prefix) && match delim {
            Some(d) => common_prefix_of(k, prefix, d) is None,
            None => true,
        } {
            rest.push(k)
        } else {
            rest
        }
    }
}

/// One page of a ListObjects answer.
pub struct ListPage {
    pub keys: Vec<Vec<char>>,
    pub is_truncated: bool,
    /// The last key of the page, where more keys follow.
    pub next_token: Option<Vec<char>>,
    /// The distinct common prefixes, ascending.
    pub common_prefixes: Vec<Vec<char>>,
}

pub open spec fn key_views(v: Seq<Vec<char>>) -> Seq<Seq<char>> {
    v.map_values(|k: Vec<char>| k@)
}

/// Lists `keys`: those that start with `prefix` and are not collapsed by the
/// delimiter are paged after `token` (no token: from the start) with at most
/// `max_keys` per page; where `delimiter` is given, the matching keys that
/// hold it after the prefix are reported once per common prefix instead.
pub fn list_objects(keys: &Vec<Vec<char>>, prefix: &[char], delimiter: Option<&[char]>, token: &[char], max_keys: usize) -> (r: ListPage)
    ensures
        is_page(contents_keys(key_views(keys@), prefix@, opt_chars(delimiter)), token@, max_keys as nat, key_views(r.keys@)),
        r.is_truncated == more_after(contents_keys(key_views(keys@), prefix@, opt_chars(delimiter)), token@, key_views(r.keys@)),
        r.is_truncated && r.keys@.len() > 0 ==> (r.next_token matches Some(t) && t@ == r.keys@.last()@),
        !r.is_truncated || r.keys@.len() == 0 ==> r.next_token is None,
        match delimiter {
            Some(d) => is_page(prefixes_of(matching(key_views(keys@), prefix@), prefix@, d@), Seq::empty(), prefixes_of(matching(key_views(keys@), prefix@), prefix@, d@).len(), key_views(r.common_prefixes@)),
            None => r.common_prefixes@.len() == 0,
        },
{
    let ghost ks = key_views(keys@);
    let mut found: Vec<Vec<char>> = Vec::new();
    let mut i: usize = 0;
    while i < keys.len()
        invariant
            i <= keys@.len(),
            ks == key_views(keys@),
            key_views(found@) == matching(ks.subrange(0, i as int), prefix@),
        decreases keys.len() - i,
    {
        assert(ks.subrange(0, i + 1).drop_last() =~= ks.subrange(0, i as int));
        assert(ks[i as int] == keys@[i as int]@);
        if starts_with(keys[i].as_slice(), prefix) {
            found.push(vstd::slice::slice_to_vec(keys[i].as_slice()));
            assert(key_views(found@) =~= matching(ks.subrange(0, i + 1), prefix@));
        }
        i = i + 1;
    }
    assert(ks.subrange(0, keys@.len() as int) =~= ks);
    let ghost ds = opt_chars(delimiter);
    let mut contents: Vec<Vec<char>> = Vec::new();
    let mut m: usize = 0;
    while m < keys.len()
        invariant
            m <= keys@.len(),
            ks == key_views(keys@),
            ds == opt_chars(delimiter),
            key_views(contents@) == contents_keys(ks.subrange(0, m as int), prefix@, ds),
        decreases keys.len() - m,
    {
        assert(ks.subrange(0, m + 1).drop_last() =~= ks.subrange(0, m as int));
        assert(ks[m as int] == keys@[m as int]@);
        let key = keys[m].as_slice();
        if starts_with(key, prefix) {
            let collapsed = match delimiter {
                Some(d) => d.len() > 0 && find_chars(key, d, prefix.len()).is_some(),
                None => false,
            };
            if !collapsed {
                contents.push(vstd::slice::slice_to_vec(key));
            }
        }
        assert(key_views(contents@) =~= contents_keys(ks.subrange(0, m + 1), prefix@, ds));
        m = m + 1;
    }
    let (page, more) = page_after(&contents, token, max_keys);
    let next_token = if more && page.len() > 0 {
        Some(vstd::slice::slice_to_vec(page[page.len() - 1].as_slice()))
    } else {
        None
    };
    let common = match delimiter {
        Some(d) => {
            let ghost ms = key_views(found@);
            let mut cps: Vec<Vec<char>> = Vec::new();
            let mut j: usize = 0;
            while j < found.len()
                invariant
                    j <= found@.len(),
                    ms == key_views(found@),
                    key_views(cps@) == prefixes_of(ms.subrange(0, j as int), prefix@, d@),
                decreases found.len() - j,
            {
                assert(ms.subrange(0, j + 1).drop_last() =~= ms.subrange(0, j as int));
                assert(ms[j as int] == found@[j as int]@);
                let key = found[j].as_slice();
                if d.len() > 0 && starts_with(key, prefix) {
                    match find_chars(key, d, prefix.len()) {
                        Some(at) => {
                            proof {
                                lemma_find_from(key@, d@, prefix@.len() as int);
                            }
                            let kl = key.len();
                            assert(at + d@.len() <= kl);
                            cps.push(vstd::slice::slice_to_vec(vstd::slice::slice_subrange(key, 0, at + d.len())));
                            assert(key_views(cps@) =~= prefixes_of(ms.subrange(0, j + 1), prefix@, d@));
                        },
                        None => {},
                    }
                }
                j = j + 1;
            }
            assert(ms.subrange(0, found@.len() as int) =~= ms);
            let empty: Vec<char> = Vec::new();
            assert(empty@ =~= Seq::<char>::empty());
            let n = cps.len();
            let (sorted, _) = page_after(&cps, empty.as_slice(), n);
            sorted
        },
        None => Vec::new(),
    };
    ListPage { keys: page, is_truncated: more, next_token, common_prefixes: common }
}

/// The directory, relative to the bucket, that listing `prefix` reads: the
/// prefix less its trailing `/`, the part before its last `/`, or the bucket
/// itself.
pub open spec fn listing_dir_spec(prefix: Seq<char>) -> Seq<char> {
    if prefix.len() > 0 && prefix.last() == '/' {
        prefix.drop_last()
    } else if exists|i: int| 0 <= i < prefix.len() && prefix[i] == '/' {
        prefix.subrange(0, choose|i: int| 0 <= i < prefix.len() && prefix[i] == '/' && forall|j: int| i < j < prefix.len() ==> prefix[j] != '/')
    } else {
        Seq::empty()
    }
}

pub fn listing_dir(prefix: &str) -> (r: String)
    ensures
        r@ == listing_dir_spec(prefix@),
{
    let p = chars_of(prefix);
    if p.len() > 0 && p[p.len() - 1] == '/' {
        return string_of(vstd::slice::slice_subrange(p.as_slice(), 0, p.len() - 1));
    }
    let mut i: usize = p.len();
    while i > 0 && p[i - 1] != '/'
        invariant
            i <= p@.len(),
            p@ == prefix@,
            forall|j: int| i <= j < p@.len() ==> p@[j] != '/',
        decreases i,
    {
        i = i - 1;
    }
    if i == 0 {
        assert(!exists|k: int| 0 <= k < prefix@.len() && prefix@[k] == '/');
        return String::new();
    }
    proof {
        let k = choose|k: int| 0 <= k < prefix@.len() && prefix@[k] == '/' && forall|j: int| k < j < prefix@.len() ==> prefix@[j] != '/';
        assert(prefix@[i - 1] == '/');
        assert(0 <= k < prefix@.len() && prefix@[k] == '/' && forall|j: int| k < j < prefix@.len() ==> prefix@[j] != '/');
        if k < i - 1 {
        }
        if k > i - 1 {
        }
        assert(k == i - 1);
    }
    string_of(vstd::slice::slice_subrange(p.as_slice(), 0, i - 1))
}

/// The key under which a directory entry is listed: its path relative to the
/// bucket, with `/` appended for a directory; hidden entries and sidecars are
/// not listed.
pub fn listed_key(name: &str, relative_path: &str, is_dir: bool) -> (r: Option<Vec<char>>)
    ensures
        r is Some <==> crate::quota::counts_as_object(name@),
        r matches Some(k) ==> k@ == if is_dir { relative_path@.push('/') } else { relative_path@ },
{
    if !crate::quota::is_object_file(name) {
        return None;
    }
    let mut k = chars_of(relative_path);
    if is_dir {
        k.push('/');
    }
    Some(k)
}

} // verus!
