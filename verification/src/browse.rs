//! The list of archive entries as the user browses it: sorted by name, size
//! or type, in either direction, and filtered by a search text.

use vstd::prelude::*;
use crate::entry::ArchiveEntry;
use crate::paths::{extension, spec_extension};
use crate::text::{chars_of, contains_chars, has_substring, lowercase, owned, to_lowercase};

verus! {

/// The column the entry list is sorted by.
#[derive(Clone, Copy, Debug, PartialEq, Eq, Structural)]
pub enum SortBy {
    Name,
    Size,
    Type,
}

impl Default for SortBy {
    fn default() -> (r: SortBy)
        ensures
            r == SortBy::Name,
    {
        SortBy::Name
    }
}

/// What an entry is sorted and searched by, computed once per entry: its
/// name and extension in lowercase, its size, and whether it is a directory.
#[derive(Debug)]
pub struct SortKey {
    pub name_lower: Vec<char>,
    pub ext_lower: Vec<char>,
    pub size: u64,
    pub is_dir: bool,
}

/// Lexicographic order of character sequences by code point (the order of
/// their UTF-8 bytes): -1, 0 or 1.
pub open spec fn lex_order(a: Seq<char>, b: Seq<char>) -> int
    decreases a.len(),
{
    if a.len() == 0 {
        if b.len() == 0 {
            0
        } else {
            -1
        }
    } else if b.len() == 0 {
        1
    } else if (a[0] as int) < (b[0] as int) {
        -1
    } else if (a[0] as int) > (b[0] as int) {
        1
    } else {
        lex_order(a.skip(1), b.skip(1))
    }
}

/// How two keys compare in the column `by`: names and extensions
/// lexicographically, sizes numerically, and by type directories first,
/// then by extension.
pub open spec fn key_order(by: SortBy, a: SortKey, b: SortKey) -> int {
    match by {
        SortBy::Name => lex_order(a.name_lower@, b.name_lower@),
        SortBy::Size => if a.size < b.size {
            -1
        } else if a.size > b.size {
            1
        } else {
            0
        },
        SortBy::Type => if a.is_dir != b.is_dir {
            if a.is_dir {
                -1
            } else {
                1
            }
        } else {
            lex_order(a.ext_lower@, b.ext_lower@)
        },
    }
}

/// The comparison in the chosen direction.
pub open spec fn directed_order(by: SortBy, ascending: bool, a: SortKey, b: SortKey) -> int {
    if ascending {
        key_order(by, a, b)
    } else {
        -key_order(by, a, b)
    }
}

/// Entry `x` comes before entry `y`: its key comes first in the chosen
/// column and direction, or the keys tie and `x` comes first in the archive
/// (the sort is stable).
pub open spec fn precedes(keys: Seq<SortKey>, by: SortBy, ascending: bool, x: int, y: int) -> bool {
    let o = directed_order(by, ascending, keys[x], keys[y]);
    o < 0 || (o == 0 && x < y)
}

/// `s` lists entries each before the next.
pub open spec fn in_order(keys: Seq<SortKey>, by: SortBy, ascending: bool, s: Seq<usize>) -> bool {
    forall|a: int, b: int|
        0 <= a < b < s.len() ==> precedes(keys, by, ascending, #[trigger] s[a] as int, #[trigger] s[b] as int)
}

/// `s` lists entries from `lo` up to (not including) `hi`.
pub open spec fn within(s: Seq<usize>, lo: int, hi: int) -> bool {
    forall|k: int| 0 <= k < s.len() ==> lo <= #[trigger] s[k] < hi
}

/// `s` lists every entry from `lo` up to (not including) `hi`.
pub open spec fn covers(s: Seq<usize>, lo: int, hi: int) -> bool {
    forall|v: int| lo <= v < hi ==> #[trigger] s.contains(v as usize)
}

proof fn lemma_lex_antisymmetric(a: Seq<char>, b: Seq<char>)
    ensures
        lex_order(a, b) == -lex_order(b, a),
        -1 <= lex_order(a, b) <= 1,
    decreases a.len(),
{
    if a.len() > 0 && b.len() > 0 && (a[0] as int) == (b[0] as int) {
        lemma_lex_antisymmetric(a.skip(1), b.skip(1));
    }
}

proof fn lemma_lex_equal(a: Seq<char>, b: Seq<char>)
    ensures
        lex_order(a, b) == 0 <==> a == b,
    decreases a.len(),
{
    if a.len() > 0 && b.len() > 0 {
        lemma_lex_equal(a.skip(1), b.skip(1));
        if (a[0] as int) == (b[0] as int) {
            assert(a[0] == b[0]);
            if a.skip(1) == b.skip(1) {
                assert(a =~= seq![a[0]] + a.skip(1));
                assert(b =~= seq![b[0]] + b.skip(1));
            }
        }
        if a == b {
            assert(a.skip(1) == b.skip(1));
        }
    } else if a.len() == 0 && b.len() == 0 {
        assert(a =~= b);
    }
}

proof fn lemma_lex_transitive(a: Seq<char>, b: Seq<char>, c: Seq<char>)
    requires
        lex_order(a, b) < 0,
        lex_order(b, c) < 0,
    ensures
        lex_order(a, c) < 0,
    decreases a.len(),
{
    if a.len() > 0 && b.len() > 0 && c.len() > 0 {
        if (a[0] as int) == (b[0] as int) && (b[0] as int) == (c[0] as int) {
            lemma_lex_transitive(a.skip(1), b.skip(1), c.skip(1));
        }
    }
}

proof fn lemma_key_antisymmetric(by: SortBy, a: SortKey, b: SortKey)
    ensures
        key_order(by, a, b) == -key_order(by, b, a),
        -1 <= key_order(by, a, b) <= 1,
{
    lemma_lex_antisymmetric(a.name_lower@, b.name_lower@);
    lemma_lex_antisymmetric(a.ext_lower@, b.ext_lower@);
}

/// Keys that tie compare alike with every other key.
proof fn lemma_key_tie(by: SortBy, a: SortKey, b: SortKey, c: SortKey)
    requires
        key_order(by, a, b) == 0,
    ensures
        key_order(by, a, c) == key_order(by, b, c),
        key_order(by, c, a) == key_order(by, c, b),
{
    lemma_lex_equal(a.name_lower@, b.name_lower@);
    lemma_lex_equal(a.ext_lower@, b.ext_lower@);
    lemma_lex_antisymmetric(a.name_lower@, b.name_lower@);
    lemma_lex_antisymmetric(a.ext_lower@, b.ext_lower@);
}

proof fn lemma_key_transitive(by: SortBy, a: SortKey, b: SortKey, c: SortKey)
    requires
        key_order(by, a, b) < 0,
        key_order(by, b, c) < 0,
    ensures
        key_order(by, a, c) < 0,
{
    match by {
        SortBy::Name => lemma_lex_transitive(a.name_lower@, b.name_lower@, c.name_lower@),
        SortBy::Size => {},
        SortBy::Type => {
            if a.is_dir == b.is_dir && b.is_dir == c.is_dir {
                lemma_lex_transitive(a.ext_lower@, b.ext_lower@, c.ext_lower@);
            }
        },
    }
}

/// `precedes` is a strict total order on the entries.
pub proof fn lemma_precedes_transitive(
    keys: Seq<SortKey>,
    by: SortBy,
    ascending: bool,
    x: int,
    y: int,
    z: int,
)
    requires
        precedes(keys, by, ascending, x, y),
        precedes(keys, by, ascending, y, z),
    ensures
        precedes(keys, by, ascending, x, z),
{
    let (a, b, c) = (keys[x], keys[y], keys[z]);
    lemma_key_antisymmetric(by, a, b);
    lemma_key_antisymmetric(by, b, c);
    lemma_key_antisymmetric(by, a, c);
    if key_order(by, a, b) == 0 {
        lemma_key_tie(by, a, b, c);
    } else if key_order(by, b, c) == 0 {
        lemma_key_tie(by, b, c, a);
    } else if ascending {
        lemma_key_transitive(by, a, b, c);
    } else {
        lemma_key_transitive(by, c, b, a);
    }
}

pub proof fn lemma_precedes_total(keys: Seq<SortKey>, by: SortBy, ascending: bool, x: int, y: int)
    requires
        x != y,
    ensures
        precedes(keys, by, ascending, x, y) != precedes(keys, by, ascending, y, x),
{
    lemma_key_antisymmetric(by, keys[x], keys[y]);
}

/// Lexicographic comparison of two character vectors.
fn lex_order_exec(a: &Vec<char>, b: &Vec<char>) -> (r: i8)
    ensures
        r as int == lex_order(a@, b@),
{
    let mut i: usize = 0;
    assert(a@.skip(0) =~= a@);
    assert(b@.skip(0) =~= b@);
    while i < a.len() && i < b.len()
        invariant
            i <= a.len(),
            i <= b.len(),
            lex_order(a@, b@) == lex_order(a@.skip(i as int), b@.skip(i as int)),
        decreases a.len() - i,
    {
        let (x, y) = (a[i], b[i]);
        assert(a@.skip(i as int)[0] == a@[i as int]);
        assert(b@.skip(i as int)[0] == b@[i as int]);
        if x < y {
            return -1;
        }
        if x > y {
            return 1;
        }
        assert(a@.skip(i as int).skip(1) =~= a@.skip(i + 1));
        assert(b@.skip(i as int).skip(1) =~= b@.skip(i + 1));
        i = i + 1;
    }
    if i == a.len() {
        if i == b.len() {
            0
        } else {
            -1
        }
    } else {
        1
    }
}

fn key_order_exec(by: SortBy, a: &SortKey, b: &SortKey) -> (r: i8)
    ensures
        r as int == key_order(by, *a, *b),
{
    match by {
        SortBy::Name => lex_order_exec(&a.name_lower, &b.name_lower),
        SortBy::Size => if a.size < b.size {
            -1
        } else if a.size > b.size {
            1
        } else {
            0
        },
        SortBy::Type => if a.is_dir != b.is_dir {
            if a.is_dir {
                -1
            } else {
                1
            }
        } else {
            lex_order_exec(&a.ext_lower, &b.ext_lower)
        },
    }
}

fn precedes_exec(keys: &Vec<SortKey>, by: SortBy, ascending: bool, x: usize, y: usize) -> (r: bool)
    requires
        x < keys.len(),
        y < keys.len(),
    ensures
        r == precedes(keys@, by, ascending, x as int, y as int),
{
    let o = key_order_exec(by, &keys[x], &keys[y]);
    proof {
        lemma_key_antisymmetric(by, keys@[x as int], keys@[y as int]);
    }
    let d: i8 = if ascending {
        o
    } else {
        -o
    };
    d < 0 || (d == 0 && x < y)
}

/// Merge two ordered runs, `left` of entries `lo..mid` and `right` of
/// entries `mid..hi`, into one ordered run of entries `lo..hi`.
fn merge(
    keys: &Vec<SortKey>,
    by: SortBy,
    ascending: bool,
    left: &Vec<usize>,
    right: &Vec<usize>,
    lo: usize,
    mid: usize,
    hi: usize,
) -> (r: Vec<usize>)
    requires
        lo <= mid <= hi <= keys.len(),
        left.len() == mid - lo,
        right.len() == hi - mid,
        within(left@, lo as int, mid as int),
        within(right@, mid as int, hi as int),
        in_order(keys@, by, ascending, left@),
        in_order(keys@, by, ascending, right@),
        covers(left@, lo as int, mid as int),
        covers(right@, mid as int, hi as int),
    ensures
        r.len() == hi - lo,
        within(r@, lo as int, hi as int),
        in_order(keys@, by, ascending, r@),
        covers(r@, lo as int, hi as int),
{
    let mut out: Vec<usize> = Vec::new();
    let mut i: usize = 0;
    let mut j: usize = 0;
    assert(left@.skip(0) =~= left@);
    assert(right@.skip(0) =~= right@);
    assert forall|v: int| lo <= v < hi implies (#[trigger] out@.contains(v as usize)
        || left@.skip(0).contains(v as usize) || right@.skip(0).contains(v as usize)) by {
        if v < mid {
            assert(left@.contains(v as usize));
        } else {
            assert(right@.contains(v as usize));
        }
    }
    while i < left.len() || j < right.len()
        invariant
            lo <= mid <= hi <= keys.len(),
            left.len() == mid - lo,
            right.len() == hi - mid,
            within(left@, lo as int, mid as int),
            within(right@, mid as int, hi as int),
            in_order(keys@, by, ascending, left@),
            in_order(keys@, by, ascending, right@),
            i <= left.len(),
            j <= right.len(),
            out.len() == i + j,
            within(out@, lo as int, hi as int),
            covers(left@, lo as int, mid as int),
            covers(right@, mid as int, hi as int),
            forall|v: int|
                lo <= v < hi ==> (#[trigger] out@.contains(v as usize) || left@.skip(i as int).contains(
                    v as usize,
                ) || right@.skip(j as int).contains(v as usize)),
            in_order(keys@, by, ascending, out@),
            forall|k: int, a: int|
                0 <= k < out.len() && i <= a < left.len() ==> precedes(
                    keys@,
                    by,
                    ascending,
                    #[trigger] out@[k] as int,
                    #[trigger] left@[a] as int,
                ),
            forall|k: int, b: int|
                0 <= k < out.len() && j <= b < right.len() ==> precedes(
                    keys@,
                    by,
                    ascending,
                    #[trigger] out@[k] as int,
                    #[trigger] right@[b] as int,
                ),
        decreases left.len() + right.len() - i - j,
    {
        let take_left = if i < left.len() && j < right.len() {
            precedes_exec(keys, by, ascending, left[i], right[j])
        } else {
            i < left.len()
        };
        let ghost old_out = out@;
        if take_left {
            let x = left[i];
            proof {
                assert forall|b: int| j <= b < right.len() implies precedes(
                    keys@,
                    by,
                    ascending,
                    x as int,
                    #[trigger] right@[b] as int,
                ) by {
                    if b > j {
                        lemma_precedes_transitive(
                            keys@,
                            by,
                            ascending,
                            x as int,
                            right@[j as int] as int,
                            right@[b] as int,
                        );
                    }
                }
            }
            out.push(x);
            i = i + 1;
        } else {
            let y = right[j];
            proof {
                if i < left.len() {
                    assert(left@[i as int] < mid <= y);
                    lemma_precedes_total(keys@, by, ascending, left@[i as int] as int, y as int);
                }
                assert forall|a: int| i <= a < left.len() implies precedes(
                    keys@,
                    by,
                    ascending,
                    y as int,
                    #[trigger] left@[a] as int,
                ) by {
                    if a > i {
                        lemma_precedes_transitive(
                            keys@,
                            by,
                            ascending,
                            y as int,
                            left@[i as int] as int,
                            left@[a] as int,
                        );
                    }
                }
            }
            out.push(y);
            j = j + 1;
        }
        proof {
            assert(out@.drop_last() == old_out);
            assert forall|v: int| lo <= v < hi implies (#[trigger] out@.contains(v as usize)
                || left@.skip(i as int).contains(v as usize) || right@.skip(j as int).contains(
                v as usize,
            )) by {
                let last = out@.last();
                if old_out.contains(v as usize) {
                    let k = choose|k: int| 0 <= k < old_out.len() && old_out[k] == v as usize;
                    assert(out@[k] == v as usize);
                } else if take_left {
                    let ls = left@.skip(i - 1);
                    if ls.contains(v as usize) {
                        let k = choose|k: int| 0 <= k < ls.len() && ls[k] == v as usize;
                        if k == 0 {
                            assert(out@[out@.len() - 1] == v as usize);
                        } else {
                            assert(left@.skip(i as int)[k - 1] == v as usize);
                        }
                    } else {
                        assert(right@.skip(j as int) == right@.skip(j as int));
                    }
                } else {
                    let rs = right@.skip(j - 1);
                    if rs.contains(v as usize) {
                        let k = choose|k: int| 0 <= k < rs.len() && rs[k] == v as usize;
                        if k == 0 {
                            assert(out@[out@.len() - 1] == v as usize);
                        } else {
                            assert(right@.skip(j as int)[k - 1] == v as usize);
                        }
                    }
                }
            }
            assert forall|a: int, b: int| 0 <= a < b < out@.len() implies precedes(
                keys@,
                by,
                ascending,
                #[trigger] out@[a] as int,
                #[trigger] out@[b] as int,
            ) by {
                if b < out@.len() - 1 {
                    assert(out@[a] == old_out[a] && out@[b] == old_out[b]);
                } else {
                    assert(out@[a] == old_out[a]);
                }
            }
        }
    }
    out
}

/// The entries `lo..hi` in order.
fn sort_range(keys: &Vec<SortKey>, by: SortBy, ascending: bool, lo: usize, hi: usize) -> (r: Vec<
    usize,
>)
    requires
        lo <= hi <= keys.len(),
    ensures
        r.len() == hi - lo,
        within(r@, lo as int, hi as int),
        in_order(keys@, by, ascending, r@),
        covers(r@, lo as int, hi as int),
    decreases hi - lo,
{
    if hi - lo == 0 {
        Vec::new()
    } else if hi - lo == 1 {
        let mut v: Vec<usize> = Vec::new();
        v.push(lo);
        assert(v@[0] == lo);
        v
    } else {
        let mid = lo + (hi - lo) / 2;
        let left = sort_range(keys, by, ascending, lo, mid);
        let right = sort_range(keys, by, ascending, mid, hi);
        merge(keys, by, ascending, &left, &right, lo, mid, hi)
    }
}

/// Every entry, each listed once, in the order of the column `by` in the
/// chosen direction, ties kept in archive order.
pub fn sorted_indices(keys: &Vec<SortKey>, by: SortBy, ascending: bool) -> (r: Vec<usize>)
    ensures
        r.len() == keys.len(),
        within(r@, 0, keys.len() as int),
        covers(r@, 0, keys.len() as int),
        in_order(keys@, by, ascending, r@),
{
    sort_range(keys, by, ascending, 0, keys.len())
}

proof fn lemma_precedes_irreflexive(keys: Seq<SortKey>, by: SortBy, ascending: bool, x: int)
    ensures
        !precedes(keys, by, ascending, x, x),
{
    lemma_key_antisymmetric(by, keys[x], keys[x]);
}

/// `v` lists every entry exactly once, in order.
pub open spec fn is_full_order(keys: Seq<SortKey>, by: SortBy, ascending: bool, v: Seq<usize>) -> bool {
    &&& v.len() == keys.len()
    &&& within(v, 0, keys.len() as int)
    &&& covers(v, 0, keys.len() as int)
    &&& in_order(keys, by, ascending, v)
}

/// The order of the entries is determined: two lists that each hold every
/// entry once, in order, are the same list. So sorting gives exactly the
/// stable sort of the entries by the chosen column and direction.
pub proof fn lemma_full_order_unique(
    keys: Seq<SortKey>,
    by: SortBy,
    ascending: bool,
    s: Seq<usize>,
    t: Seq<usize>,
)
    requires
        is_full_order(keys, by, ascending, s),
        is_full_order(keys, by, ascending, t),
    ensures
        s == t,
{
    let n = keys.len() as int;
    assert forall|k: int| 0 <= k < n implies s[k] == t[k] by {
        lemma_full_order_agree(keys, by, ascending, s, t, k);
    }
    assert(s =~= t);
}

proof fn lemma_full_order_agree(
    keys: Seq<SortKey>,
    by: SortBy,
    ascending: bool,
    s: Seq<usize>,
    t: Seq<usize>,
    k: int,
)
    requires
        is_full_order(keys, by, ascending, s),
        is_full_order(keys, by, ascending, t),
        0 <= k < keys.len(),
    ensures
        s[k] == t[k],
    decreases k,
{
    let n = keys.len() as int;
    assert forall|j: int| 0 <= j < k implies s[j] == t[j] by {
        lemma_full_order_agree(keys, by, ascending, s, t, j);
    }
    let x = s[k];
    let y = t[k];
    assert(0 <= x < n);
    assert(0 <= y < n);
    assert(t.contains(x as int as usize));
    assert(s.contains(y as int as usize));
    let p = choose|p: int| 0 <= p < t.len() && t[p] == x;
    let q = choose|q: int| 0 <= q < s.len() && s[q] == y;
    if x != y {
        if p < k {
            assert(s[p] == x);
            assert(precedes(keys, by, ascending, s[p] as int, s[k] as int));
            lemma_precedes_irreflexive(keys, by, ascending, x as int);
        }
        if q < k {
            assert(t[q] == y);
            assert(precedes(keys, by, ascending, t[q] as int, t[k] as int));
            lemma_precedes_irreflexive(keys, by, ascending, y as int);
        }
        assert(p != k && q != k);
        assert(precedes(keys, by, ascending, t[k] as int, t[p] as int));
        assert(precedes(keys, by, ascending, s[k] as int, s[q] as int));
        lemma_precedes_transitive(keys, by, ascending, y as int, x as int, y as int);
        lemma_precedes_irreflexive(keys, by, ascending, y as int);
    }
}

/// The key of an entry: its name and the extension of its path lowercased
/// (the empty extension when it has none), its size and directory flag.
pub open spec fn key_matches(k: SortKey, e: ArchiveEntry) -> bool {
    &&& k.name_lower@ == lowercase(e.name@)
    &&& k.ext_lower@ == lowercase(
        match spec_extension(e.path@) {
            Some(x) => x,
            None => Seq::<char>::empty(),
        },
    )
    &&& k.size == e.size
    &&& k.is_dir == e.is_dir
}

/// The sort key of an entry.
pub fn sort_key(e: &ArchiveEntry) -> (r: SortKey)
    ensures
        key_matches(r, *e),
{
    let name_lower = to_lowercase(e.name.as_str());
    let ext_lower = match extension(e.path.as_str()) {
        Some(x) => to_lowercase(x.as_str()),
        None => {
            let l = to_lowercase("");
            proof {
                reveal_strlit("");
                assert(""@ =~= Seq::<char>::empty());
            }
            l
        },
    };
    SortKey {
        name_lower: chars_of(name_lower.as_str()),
        ext_lower: chars_of(ext_lower.as_str()),
        size: e.size,
        is_dir: e.is_dir,
    }
}

/// The entries of `vis`, in order, whose lowercase name contains `needle`.
pub open spec fn keep_matching(keys: Seq<SortKey>, vis: Seq<usize>, needle: Seq<char>) -> Seq<usize>
    decreases vis.len(),
{
    if vis.len() == 0 {
        Seq::<usize>::empty()
    } else {
        let prev = keep_matching(keys, vis.drop_last(), needle);
        if has_substring(keys[vis.last() as int].name_lower@, needle) {
            prev.push(vis.last())
        } else {
            prev
        }
    }
}

/// The total of the sizes of the entries.
pub open spec fn entries_size(es: Seq<ArchiveEntry>) -> nat
    decreases es.len(),
{
    if es.len() == 0 {
        0
    } else {
        entries_size(es.drop_last()) + es.last().size as nat
    }
}

/// The listed entries of an archive with their sort keys, the entries shown
/// (in the order shown), and the sort column and direction.
pub struct EntryBrowser {
    entries: Vec<ArchiveEntry>,
    keys: Vec<SortKey>,
    visible: Vec<usize>,
    sort_by: SortBy,
    sort_ascending: bool,
}

impl EntryBrowser {
    /// Every key belongs to its entry and only entries are shown.
    #[verifier::type_invariant]
    spec fn inv(self) -> bool {
        &&& self.keys.len() == self.entries.len()
        &&& forall|i: int| 0 <= i < self.keys.len() ==> key_matches(#[trigger] self.keys@[i], self.entries@[i])
        &&& within(self.visible@, 0, self.entries.len() as int)
    }

    pub closed spec fn spec_entries(&self) -> Seq<ArchiveEntry> {
        self.entries@
    }

    pub closed spec fn spec_keys(&self) -> Seq<SortKey> {
        self.keys@
    }

    pub closed spec fn spec_visible(&self) -> Seq<usize> {
        self.visible@
    }

    pub closed spec fn spec_sort_by(&self) -> SortBy {
        self.sort_by
    }

    pub closed spec fn spec_ascending(&self) -> bool {
        self.sort_ascending
    }

    /// No entries, sorted by name, ascending.
    pub fn new() -> (r: EntryBrowser)
        ensures
            r.spec_entries().len() == 0,
            r.spec_keys().len() == 0,
            r.spec_visible().len() == 0,
            r.spec_sort_by() == SortBy::Name,
            r.spec_ascending(),
    {
        EntryBrowser {
            entries: Vec::new(),
            keys: Vec::new(),
            visible: Vec::new(),
            sort_by: SortBy::Name,
            sort_ascending: true,
        }
    }

    /// The listed entries.
    pub fn entries(&self) -> (r: &Vec<ArchiveEntry>)
        ensures
            r@ == self.spec_entries(),
    {
        &self.entries
    }

    /// The positions (in `entries`) of the entries shown, in the order shown.
    pub fn visible(&self) -> (r: &Vec<usize>)
        ensures
            r@ == self.spec_visible(),
            within(r@, 0, self.spec_entries().len() as int),
    {
        proof {
            use_type_invariant(self);
        }
        &self.visible
    }

    pub fn sort_by(&self) -> (r: SortBy)
        ensures
            r == self.spec_sort_by(),
    {
        self.sort_by
    }

    pub fn sort_ascending(&self) -> (r: bool)
        ensures
            r == self.spec_ascending(),
    {
        self.sort_ascending
    }

    /// Forget the entries (when another archive is opened).
    pub fn clear(&mut self)
        ensures
            final(self).spec_entries().len() == 0,
            final(self).spec_keys().len() == 0,
            final(self).spec_visible().len() == 0,
            final(self).spec_sort_by() == old(self).spec_sort_by(),
            final(self).spec_ascending() == old(self).spec_ascending(),
    {
        *self = EntryBrowser {
            entries: Vec::new(),
            keys: Vec::new(),
            visible: Vec::new(),
            sort_by: self.sort_by,
            sort_ascending: self.sort_ascending,
        };
    }

    /// Take the entries of a newly listed archive: compute their keys and
    /// show them all, sorted by the current column and direction.
    pub fn set_entries(&mut self, entries: Vec<ArchiveEntry>)
        ensures
            final(self).spec_entries() == entries@,
            final(self).spec_keys().len() == entries@.len(),
            forall|i: int|
                0 <= i < entries@.len() ==> key_matches(
                    #[trigger] final(self).spec_keys()[i],
                    entries@[i],
                ),
            final(self).spec_sort_by() == old(self).spec_sort_by(),
            final(self).spec_ascending() == old(self).spec_ascending(),
            is_full_order(
                final(self).spec_keys(),
                final(self).spec_sort_by(),
                final(self).spec_ascending(),
                final(self).spec_visible(),
            ),
    {
        let keys = rebuild_sort_keys(&entries);
        let visible = sorted_indices(&keys, self.sort_by, self.sort_ascending);
        *self = EntryBrowser {
            entries,
            keys,
            visible,
            sort_by: self.sort_by,
            sort_ascending: self.sort_ascending,
        };
    }

    /// Show every entry, sorted by the current column and direction.
    pub fn sort_entries(&mut self)
        ensures
            final(self).spec_entries() == old(self).spec_entries(),
            final(self).spec_keys() == old(self).spec_keys(),
            final(self).spec_sort_by() == old(self).spec_sort_by(),
            final(self).spec_ascending() == old(self).spec_ascending(),
            is_full_order(
                final(self).spec_keys(),
                final(self).spec_sort_by(),
                final(self).spec_ascending(),
                final(self).spec_visible(),
            ),
    {
        proof {
            use_type_invariant(&*self);
        }
        let visible = sorted_indices(&self.keys, self.sort_by, self.sort_ascending);
        self.visible = visible;
    }

    /// Apply the search text `query`: with an empty text every entry is shown
    /// again in sorted order; otherwise only the entries shown so far whose
    /// lowercase name contains the lowercase text stay, in the same order.
    pub fn filter_entries(&mut self, query: &str)
        ensures
            final(self).spec_entries() == old(self).spec_entries(),
            final(self).spec_keys() == old(self).spec_keys(),
            final(self).spec_sort_by() == old(self).spec_sort_by(),
            final(self).spec_ascending() == old(self).spec_ascending(),
            query@.len() == 0 ==> is_full_order(
                final(self).spec_keys(),
                final(self).spec_sort_by(),
                final(self).spec_ascending(),
                final(self).spec_visible(),
            ),
            query@.len() > 0 ==> final(self).spec_visible() == keep_matching(
                old(self).spec_keys(),
                old(self).spec_visible(),
                lowercase(query@),
            ),
    {
        proof {
            use_type_invariant(&*self);
        }
        if query.is_empty() {
            self.sort_entries();
            return;
        }
        let needle = to_lowercase(query);
        self.keep_matching_entries(needle.as_str());
    }

    /// Keep, of the entries shown, those whose lowercase name contains
    /// `needle`, in the same order.
    pub fn keep_matching_entries(&mut self, needle: &str)
        ensures
            final(self).spec_entries() == old(self).spec_entries(),
            final(self).spec_keys() == old(self).spec_keys(),
            final(self).spec_sort_by() == old(self).spec_sort_by(),
            final(self).spec_ascending() == old(self).spec_ascending(),
            final(self).spec_visible() == keep_matching(
                old(self).spec_keys(),
                old(self).spec_visible(),
                needle@,
            ),
    {
        proof {
            use_type_invariant(&*self);
        }
        let needle = chars_of(needle);
        let ghost keys = self.keys@;
        let ghost vis = self.visible@;
        let mut kept: Vec<usize> = Vec::new();
        let mut i: usize = 0;
        while i < self.visible.len()
            invariant
                keys == self.keys@,
                vis == self.visible@,
                keys.len() == self.entries.len(),
                within(vis, 0, keys.len() as int),
                i <= vis.len(),
                kept@ == keep_matching(keys, vis.take(i as int), needle@),
                within(kept@, 0, keys.len() as int),
            decreases vis.len() - i,
        {
            let v = self.visible[i];
            assert(vis.take(i + 1).drop_last() =~= vis.take(i as int));
            assert(vis.take(i + 1).last() == v);
            if contains_chars(&self.keys[v].name_lower, &needle) {
                kept.push(v);
            }
            i = i + 1;
        }
        assert(vis.take(vis.len() as int) =~= vis);
        self.visible = kept;
    }

    /// A click on the sort column `by`: the same column again reverses the
    /// direction, another column sorts by it ascending; every entry is then
    /// shown again in the new order.
    pub fn click_sort(&mut self, by: SortBy)
        ensures
            final(self).spec_entries() == old(self).spec_entries(),
            final(self).spec_keys() == old(self).spec_keys(),
            (final(self).spec_sort_by(), final(self).spec_ascending()) == spec_after_click(
                old(self).spec_sort_by(),
                old(self).spec_ascending(),
                by,
            ),
            is_full_order(
                final(self).spec_keys(),
                final(self).spec_sort_by(),
                final(self).spec_ascending(),
                final(self).spec_visible(),
            ),
    {
        proof {
            use_type_invariant(&*self);
        }
        if self.sort_by == by {
            self.sort_ascending = !self.sort_ascending;
        } else {
            self.sort_by = by;
            self.sort_ascending = true;
        }
        self.sort_entries();
    }

    /// The total size of all entries; `None` when it does not fit in 64 bits.
    pub fn total_size(&self) -> (r: Option<u64>)
        ensures
            entries_size(self.spec_entries()) <= u64::MAX ==> r == Some(
                entries_size(self.spec_entries()) as u64,
            ),
            entries_size(self.spec_entries()) > u64::MAX ==> r is None,
    {
        let ghost es = self.entries@;
        let mut total: u64 = 0;
        let mut i: usize = 0;
        while i < self.entries.len()
            invariant
                es == self.entries@,
                i <= es.len(),
                total == entries_size(es.take(i as int)),
            decreases es.len() - i,
        {
            assert(es.take(i + 1).drop_last() =~= es.take(i as int));
            match total.checked_add(self.entries[i].size) {
                Some(t) => {
                    total = t;
                },
                None => {
                    proof {
                        lemma_entries_size_grows(es, i as int + 1);
                    }
                    return None;
                },
            }
            i = i + 1;
        }
        assert(es.take(es.len() as int) =~= es);
        Some(total)
    }
}

proof fn lemma_entries_size_grows(es: Seq<ArchiveEntry>, k: int)
    requires
        0 <= k <= es.len(),
    ensures
        entries_size(es.take(k)) <= entries_size(es),
    decreases es.len() - k,
{
    if k < es.len() {
        lemma_entries_size_grows(es, k + 1);
        assert(es.take(k + 1).drop_last() =~= es.take(k));
    } else {
        assert(es.take(k) =~= es);
    }
}

/// The sort key of every entry.
pub fn rebuild_sort_keys(entries: &Vec<ArchiveEntry>) -> (r: Vec<SortKey>)
    ensures
        r.len() == entries.len(),
        forall|i: int| 0 <= i < r.len() ==> key_matches(#[trigger] r@[i], entries@[i]),
{
    let mut keys: Vec<SortKey> = Vec::new();
    let mut i: usize = 0;
    while i < entries.len()
        invariant
            i <= entries.len(),
            keys.len() == i,
            forall|k: int| 0 <= k < i ==> key_matches(#[trigger] keys@[k], entries@[k]),
        decreases entries.len() - i,
    {
        let k = sort_key(&entries[i]);
        keys.push(k);
        i = i + 1;
    }
    keys
}

/// The sort settings after a click on the column `by`, from the column
/// `current` sorted ascending or not.
pub open spec fn spec_after_click(current: SortBy, ascending: bool, by: SortBy) -> (SortBy, bool) {
    if by == current {
        (by, !ascending)
    } else {
        (by, true)
    }
}

/// Two clicks on the column the list is sorted by give back the direction
/// it had; two clicks on another column sort by it descending.
pub proof fn lemma_click_twice(current: SortBy, ascending: bool, by: SortBy)
    ensures
        ({
            let (b1, a1) = spec_after_click(current, ascending, by);
            let (b2, a2) = spec_after_click(b1, a1, by);
            &&& b2 == by
            &&& (by == current ==> a2 == ascending)
            &&& (by != current ==> !a2)
        }),
{
}

/// Filtering keeps only entries that were shown and whose lowercase name
/// contains the search text, in the order they were shown.
pub proof fn lemma_keep_matching_sound(keys: Seq<SortKey>, vis: Seq<usize>, needle: Seq<char>)
    ensures
        forall|k: int|
            0 <= k < keep_matching(keys, vis, needle).len() ==> vis.contains(
                #[trigger] keep_matching(keys, vis, needle)[k],
            ) && has_substring(keys[keep_matching(keys, vis, needle)[k] as int].name_lower@, needle),
        keep_matching(keys, vis, needle).len() <= vis.len(),
    decreases vis.len(),
{
    if vis.len() > 0 {
        let front = vis.drop_last();
        lemma_keep_matching_sound(keys, front, needle);
        let r = keep_matching(keys, vis, needle);
        let prev = keep_matching(keys, front, needle);
        assert forall|k: int| 0 <= k < r.len() implies vis.contains(#[trigger] r[k]) && has_substring(
            keys[r[k] as int].name_lower@,
            needle,
        ) by {
            if k < prev.len() {
                assert(r[k] == prev[k]);
                assert(front.contains(prev[k]));
                let j = choose|j: int| 0 <= j < front.len() && front[j] == prev[k];
                assert(vis[j] == prev[k]);
            } else {
                assert(r[k] == vis.last());
                assert(vis[vis.len() - 1] == vis.last());
            }
        }
    }
}

/// Searching again for the same text changes nothing.
pub proof fn lemma_keep_matching_idempotent(keys: Seq<SortKey>, vis: Seq<usize>, needle: Seq<char>)
    ensures
        keep_matching(keys, keep_matching(keys, vis, needle), needle) == keep_matching(keys, vis, needle),
    decreases vis.len(),
{
    if vis.len() > 0 {
        let front = vis.drop_last();
        lemma_keep_matching_idempotent(keys, front, needle);
        let prev = keep_matching(keys, front, needle);
        if has_substring(keys[vis.last() as int].name_lower@, needle) {
            let r = prev.push(vis.last());
            assert(r.drop_last() =~= prev);
        }
    }
}

/// `a` comes strictly before `b` in code-point order: at the first place
/// where they differ `a` has the smaller character, or `a` is a proper
/// prefix of `b`.
pub open spec fn text_before(a: Seq<char>, b: Seq<char>) -> bool {
    exists|i: int|
        0 <= i <= a.len() && i <= b.len() && #[trigger] a.take(i) == b.take(i) && ((i == a.len()
            && i < b.len()) || (i < a.len() && i < b.len() && (a[i] as int) < (b[i] as int)))
}

proof fn lemma_text_before_step(a: Seq<char>, b: Seq<char>)
    requires
        a.len() > 0,
        b.len() > 0,
        a[0] == b[0],
    ensures
        text_before(a, b) <==> text_before(a.skip(1), b.skip(1)),
{
    let (a1, b1) = (a.skip(1), b.skip(1));
    if text_before(a, b) {
        let i = choose|i: int|
            0 <= i <= a.len() && i <= b.len() && #[trigger] a.take(i) == b.take(i) && ((i
                == a.len() && i < b.len()) || (i < a.len() && i < b.len() && (a[i] as int) < (
            b[i] as int)));
        assert(i > 0) by {
            if i == 0 {
                assert(a[0] == b[0]);
            }
        }
        assert(a1.take(i - 1) =~= a.take(i).skip(1));
        assert(b1.take(i - 1) =~= b.take(i).skip(1));
        if i < a.len() && i < b.len() {
            assert(a1[i - 1] == a[i] && b1[i - 1] == b[i]);
        }
        assert(a1.take(i - 1) == b1.take(i - 1));
    }
    if text_before(a1, b1) {
        let j = choose|j: int|
            0 <= j <= a1.len() && j <= b1.len() && #[trigger] a1.take(j) == b1.take(j) && ((j
                == a1.len() && j < b1.len()) || (j < a1.len() && j < b1.len() && (a1[j] as int) < (
            b1[j] as int)));
        assert(a.take(j + 1) =~= seq![a[0]] + a1.take(j));
        assert(b.take(j + 1) =~= seq![b[0]] + b1.take(j));
        if j < a1.len() && j < b1.len() {
            assert(a1[j] == a[j + 1] && b1[j] == b[j + 1]);
        }
        assert(a.take(j + 1) == b.take(j + 1));
    }
}

/// The order entries are sorted by name and by extension is the code-point
/// order of the texts: `lex_order` is negative exactly when the first text
/// comes before the second, zero exactly when they are equal.
pub proof fn lemma_lex_order_is_text_order(a: Seq<char>, b: Seq<char>)
    ensures
        lex_order(a, b) < 0 <==> text_before(a, b),
        lex_order(a, b) == 0 <==> a == b,
        lex_order(a, b) > 0 <==> text_before(b, a),
    decreases a.len(),
{
    lemma_lex_equal(a, b);
    lemma_lex_antisymmetric(a, b);
    if a.len() == 0 || b.len() == 0 {
        if a.len() == 0 && b.len() > 0 {
            assert(a.take(0) =~= b.take(0));
        } else if b.len() == 0 && a.len() > 0 {
            assert(a.take(0) =~= b.take(0));
        }
        if text_before(a, b) {
            let i = choose|i: int|
                0 <= i <= a.len() && i <= b.len() && #[trigger] a.take(i) == b.take(i) && ((i
                    == a.len() && i < b.len()) || (i < a.len() && i < b.len() && (a[i] as int) < (
                b[i] as int)));
        }
        if text_before(b, a) {
            let i = choose|i: int|
                0 <= i <= b.len() && i <= a.len() && #[trigger] b.take(i) == a.take(i) && ((i
                    == b.len() && i < a.len()) || (i < b.len() && i < a.len() && (b[i] as int) < (
                a[i] as int)));
        }
    } else if a[0] == b[0] {
        lemma_lex_order_is_text_order(a.skip(1), b.skip(1));
        lemma_text_before_step(a, b);
        lemma_text_before_step(b, a);
    } else {
        assert(a.take(0) =~= b.take(0));
        assert((a[0] as int) != (b[0] as int));
        if text_before(a, b) && (a[0] as int) > (b[0] as int) {
            let i = choose|i: int|
                0 <= i <= a.len() && i <= b.len() && #[trigger] a.take(i) == b.take(i) && ((i
                    == a.len() && i < b.len()) || (i < a.len() && i < b.len() && (a[i] as int) < (
                b[i] as int)));
            if i > 0 {
                assert(a.take(i)[0] == b.take(i)[0]);
            }
        }
        if text_before(b, a) && (a[0] as int) < (b[0] as int) {
            let i = choose|i: int|
                0 <= i <= b.len() && i <= a.len() && #[trigger] b.take(i) == a.take(i) && ((i
                    == b.len() && i < a.len()) || (i < b.len() && i < a.len() && (b[i] as int) < (
                a[i] as int)));
            if i > 0 {
                assert(a.take(i)[0] == b.take(i)[0]);
            }
        }
    }
}

/// Two keys tie in the column `by`: same name; same size; or same kind
/// (directory or file) and same extension.
pub open spec fn same_in_column(by: SortBy, x: SortKey, y: SortKey) -> bool {
    match by {
        SortBy::Name => x.name_lower@ == y.name_lower@,
        SortBy::Size => x.size == y.size,
        SortBy::Type => x.is_dir == y.is_dir && x.ext_lower@ == y.ext_lower@,
    }
}

/// What a sorted list looks like, column by column, for entries shown at
/// positions `a < b`, ascending (descending swaps the two entries): by name,
/// the later name does not come before the earlier one; by size, sizes do
/// not decrease; by type, no directory follows a file, and among
/// directories or among files the later extension does not come before the
/// earlier one. Entries that tie keep their archive order.
pub proof fn lemma_sorted_columns(keys: Seq<SortKey>, by: SortBy, ascending: bool, v: Seq<usize>)
    requires
        in_order(keys, by, ascending, v),
    ensures
        forall|a: int, b: int|
            0 <= a < b < v.len() ==> {
                let (x, y) = if ascending {
                    (keys[v[a] as int], keys[v[b] as int])
                } else {
                    (keys[v[b] as int], keys[v[a] as int])
                };
                &&& by == SortBy::Name ==> !text_before(y.name_lower@, x.name_lower@)
                &&& by == SortBy::Size ==> x.size <= y.size
                &&& by == SortBy::Type ==> (y.is_dir ==> x.is_dir)
                &&& by == SortBy::Type && x.is_dir == y.is_dir ==> !text_before(
                    y.ext_lower@,
                    x.ext_lower@,
                )
                &&& same_in_column(by, x, y) ==> #[trigger] v[a] < #[trigger] v[b]
            },
{
    assert forall|a: int, b: int| 0 <= a < b < v.len() implies {
        let (x, y) = if ascending {
            (keys[v[a] as int], keys[v[b] as int])
        } else {
            (keys[v[b] as int], keys[v[a] as int])
        };
        &&& by == SortBy::Name ==> !text_before(y.name_lower@, x.name_lower@)
        &&& by == SortBy::Size ==> x.size <= y.size
        &&& by == SortBy::Type ==> (y.is_dir ==> x.is_dir)
        &&& by == SortBy::Type && x.is_dir == y.is_dir ==> !text_before(
            y.ext_lower@,
            x.ext_lower@,
        )
        &&& same_in_column(by, x, y) ==> #[trigger] v[a] < #[trigger] v[b]
    } by {
        assert(precedes(keys, by, ascending, v[a] as int, v[b] as int));
        let (ka, kb) = (keys[v[a] as int], keys[v[b] as int]);
        lemma_lex_order_is_text_order(ka.name_lower@, kb.name_lower@);
        lemma_lex_order_is_text_order(ka.ext_lower@, kb.ext_lower@);
        lemma_key_antisymmetric(by, ka, kb);
    }
}

/// Searching keeps exactly the shown entries whose lowercase name contains
/// the search text, in the order they were shown: no matching entry is
/// dropped and no other entry kept.
pub proof fn lemma_keep_matching_exact(keys: Seq<SortKey>, vis: Seq<usize>, needle: Seq<char>)
    ensures
        keep_matching(keys, vis, needle) == vis.filter(
            |i: usize| has_substring(keys[i as int].name_lower@, needle),
        ),
    decreases vis.len(),
{
    reveal(Seq::filter);
    if vis.len() > 0 {
        lemma_keep_matching_exact(keys, vis.drop_last(), needle);
    }
}

} // verus!
