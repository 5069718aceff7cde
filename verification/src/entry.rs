//! Directory entries and the order in which they are listed.
use vstd::prelude::*;
use crate::text::{chars_of, decimal, decimal_text, push_char};
use crate::paths::{file_name_of, path_file_name};
use crate::time::{is_valid_minute, minute_text, modified_text, LocalMinute};

verus! {

/// One listed file or directory with its metadata, as plain values.
#[derive(Clone, Debug)]
pub struct Entry {
    /// The display name of the entry.
    pub name: String,
    /// The path of the entry, as the directory walk produced it.
    pub path: String,
    /// Whether the entry is a directory.
    pub is_dir: bool,
    /// The file mode string, such as `-rw-r--r--`.
    pub mode: String,
    /// The number of hard links.
    pub nlink: u64,
    /// The name of the owner.
    pub owner: String,
    /// The name of the group.
    pub group: String,
    /// The size in bytes.
    pub size: u64,
    /// The last modification time, as text.
    pub modified: String,
    /// The Git status letter (`A`, `M`, `D`, `R`, `T`) or a space.
    pub git_status: String,
    /// The file extension, empty where there is none.
    pub extension: String,
}

/// The keys by which entries can be ordered.
#[derive(Clone, Copy, Debug, PartialEq, Eq, Structural)]
pub enum SortBy {
    /// By name.
    Name,
    /// By modification time text.
    Time,
    /// By size in bytes.
    Size,
    /// By file extension.
    Extension,
}

/// Lexicographic comparison of two character sequences: -1, 0 or 1.
/// On strings this is the order in which Rust compares strings, since UTF-8 preserves
/// the order of code points.
pub open spec fn lex_order(a: Seq<char>, b: Seq<char>) -> int
    decreases a.len(),
{
    if a.len() == 0 {
        if b.len() == 0 { 0 } else { -1 }
    } else if b.len() == 0 {
        1
    } else if (a[0] as u32) < (b[0] as u32) {
        -1
    } else if (a[0] as u32) > (b[0] as u32) {
        1
    } else {
        lex_order(a.drop_first(), b.drop_first())
    }
}

/// Three-way comparison of two integers: -1, 0 or 1.
pub open spec fn num_order(a: int, b: int) -> int {
    if a < b { -1 } else if a > b { 1 } else { 0 }
}

/// How two entries compare on the chosen key.
pub open spec fn key_order(by: SortBy, a: Entry, b: Entry) -> int {
    match by {
        SortBy::Name => lex_order(a.name@, b.name@),
        SortBy::Time => lex_order(a.modified@, b.modified@),
        SortBy::Size => num_order(a.size as int, b.size as int),
        SortBy::Extension => lex_order(a.extension@, b.extension@),
    }
}

/// How two entries compare in the listing: the key order, turned around
/// when `reverse` is set.
pub open spec fn entry_order(by: SortBy, reverse: bool, a: Entry, b: Entry) -> int {
    if reverse { -key_order(by, a, b) } else { key_order(by, a, b) }
}

/// `p` maps each of `n` positions to a distinct position below `n`.
pub open spec fn is_permutation(p: Seq<int>, n: nat) -> bool {
    &&& p.len() == n
    &&& forall|i: int| 0 <= i < n ==> 0 <= #[trigger] p[i] < n
    &&& forall|i: int, j: int| 0 <= i < j < n ==> #[trigger] p[i] != #[trigger] p[j]
}

/// Every entry of `s` comes no later in the order than those after it.
pub open spec fn is_sorted(s: Seq<Entry>, by: SortBy, reverse: bool) -> bool {
    forall|i: int, j: int|
        0 <= i < j < s.len() ==> entry_order(by, reverse, #[trigger] s[i], #[trigger] s[j]) <= 0
}

/// `out` is `inp` rearranged by `p`, sorted, with entries that compare equal
/// kept in their original relative order.
pub open spec fn is_stable_sort_by(
    inp: Seq<Entry>,
    out: Seq<Entry>,
    p: Seq<int>,
    by: SortBy,
    reverse: bool,
) -> bool {
    &&& out.len() == inp.len()
    &&& is_permutation(p, inp.len())
    &&& forall|k: int| 0 <= k < out.len() ==> #[trigger] out[k] == inp[p[k]]
    &&& is_sorted(out, by, reverse)
    &&& forall|k: int, l: int|
        0 <= k < l < out.len() && entry_order(by, reverse, #[trigger] out[k], #[trigger] out[l]) == 0
            ==> p[k] < p[l]
}

/// `out` is the stable sort of `inp` in the listing order.
pub open spec fn is_stable_sort(inp: Seq<Entry>, out: Seq<Entry>, by: SortBy, reverse: bool) -> bool {
    exists|p: Seq<int>| is_stable_sort_by(inp, out, p, by, reverse)
}

pub proof fn lemma_lex_order_range(a: Seq<char>, b: Seq<char>)
    ensures
        -1 <= lex_order(a, b) <= 1,
    decreases a.len(),
{
    if a.len() > 0 && b.len() > 0 && (a[0] as u32) == (b[0] as u32) {
        lemma_lex_order_range(a.drop_first(), b.drop_first());
    }
}

/// Law: two texts compare by their first differing character, by code point,
/// after a common start of `k` characters; a text that ends where the other
/// goes on comes first; equal texts compare equal.
pub proof fn law_lex_order_first_difference(a: Seq<char>, b: Seq<char>, k: int)
    requires
        0 <= k <= a.len(),
        k <= b.len(),
        a.take(k) == b.take(k),
    ensures
        k < a.len() && k < b.len() && (a[k] as u32) < (b[k] as u32) ==> lex_order(a, b) == -1,
        k < a.len() && k < b.len() && (a[k] as u32) > (b[k] as u32) ==> lex_order(a, b) == 1,
        k == a.len() && k < b.len() ==> lex_order(a, b) == -1,
        k < a.len() && k == b.len() ==> lex_order(a, b) == 1,
        k == a.len() && k == b.len() ==> lex_order(a, b) == 0,
    decreases k,
{
    if k == 0 {
        if a.len() > 0 && b.len() > 0 {
            assert(a[k] == a[0] && b[k] == b[0]);
        }
    } else {
        assert(a.take(k)[0] == a[0] && b.take(k)[0] == b[0]);
        assert(a[0] == b[0]);
        assert(a.drop_first().take(k - 1) =~= a.take(k).drop_first());
        assert(b.drop_first().take(k - 1) =~= b.take(k).drop_first());
        law_lex_order_first_difference(a.drop_first(), b.drop_first(), k - 1);
        if k < a.len() {
            assert(a.drop_first()[k - 1] == a[k]);
        }
        if k < b.len() {
            assert(b.drop_first()[k - 1] == b[k]);
        }
    }
}

pub proof fn lemma_lex_order_antisymmetric(a: Seq<char>, b: Seq<char>)
    ensures
        lex_order(a, b) == -lex_order(b, a),
    decreases a.len(),
{
    if a.len() > 0 && b.len() > 0 && (a[0] as u32) == (b[0] as u32) {
        lemma_lex_order_antisymmetric(a.drop_first(), b.drop_first());
    }
}

pub proof fn lemma_lex_order_transitive(a: Seq<char>, b: Seq<char>, c: Seq<char>)
    requires
        lex_order(a, b) <= 0,
        lex_order(b, c) <= 0,
    ensures
        lex_order(a, c) <= 0,
    decreases a.len(),
{
    if a.len() > 0 && b.len() > 0 && c.len() > 0 {
        if (a[0] as u32) == (b[0] as u32) && (b[0] as u32) == (c[0] as u32) {
            lemma_lex_order_transitive(a.drop_first(), b.drop_first(), c.drop_first());
        }
    }
}

pub proof fn lemma_entry_order_antisymmetric(by: SortBy, reverse: bool, a: Entry, b: Entry)
    ensures
        entry_order(by, reverse, a, b) == -entry_order(by, reverse, b, a),
{
    lemma_lex_order_antisymmetric(a.name@, b.name@);
    lemma_lex_order_antisymmetric(a.modified@, b.modified@);
    lemma_lex_order_antisymmetric(a.extension@, b.extension@);
}

proof fn lemma_key_order_transitive(by: SortBy, a: Entry, b: Entry, c: Entry)
    requires
        key_order(by, a, b) <= 0,
        key_order(by, b, c) <= 0,
    ensures
        key_order(by, a, c) <= 0,
{
    match by {
        SortBy::Name => lemma_lex_order_transitive(a.name@, b.name@, c.name@),
        SortBy::Time => lemma_lex_order_transitive(a.modified@, b.modified@, c.modified@),
        SortBy::Size => {},
        SortBy::Extension => lemma_lex_order_transitive(a.extension@, b.extension@, c.extension@),
    }
}

pub proof fn lemma_entry_order_transitive(by: SortBy, reverse: bool, a: Entry, b: Entry, c: Entry)
    requires
        entry_order(by, reverse, a, b) <= 0,
        entry_order(by, reverse, b, c) <= 0,
    ensures
        entry_order(by, reverse, a, c) <= 0,
{
    if reverse {
        lemma_entry_order_antisymmetric(by, false, a, b);
        lemma_entry_order_antisymmetric(by, false, b, c);
        lemma_entry_order_antisymmetric(by, false, a, c);
        lemma_key_order_transitive(by, c, b, a);
    } else {
        lemma_key_order_transitive(by, a, b, c);
    }
}

/// Compares two strings character by character: -1, 0 or 1.
pub fn compare_strings(a: &str, b: &str) -> (r: i8)
    ensures
        r as int == lex_order(a@, b@),
{
    let ca = chars_of(a);
    let cb = chars_of(b);
    let mut i: usize = 0;
    assert(a@.skip(0) =~= a@);
    assert(b@.skip(0) =~= b@);
    while i < ca.len() && i < cb.len()
        invariant
            ca@ == a@,
            cb@ == b@,
            i <= ca.len(),
            i <= cb.len(),
            lex_order(a@, b@) == lex_order(a@.skip(i as int), b@.skip(i as int)),
        decreases ca.len() - i,
    {
        let x = ca[i];
        let y = cb[i];
        assert(a@.skip(i as int).drop_first() =~= a@.skip(i + 1));
        assert(b@.skip(i as int).drop_first() =~= b@.skip(i + 1));
        if (x as u32) < (y as u32) {
            return -1;
        }
        if (x as u32) > (y as u32) {
            return 1;
        }
        i = i + 1;
    }
    if i < ca.len() {
        1
    } else if i < cb.len() {
        -1
    } else {
        0
    }
}

/// Compares two entries in the listing order: -1, 0 or 1.
pub fn compare_entries(a: &Entry, b: &Entry, sort_by: SortBy, reverse: bool) -> (r: i8)
    ensures
        r as int == entry_order(sort_by, reverse, *a, *b),
        sort_by == SortBy::Name ==> r as int == (if reverse { -lex_order(a.name@, b.name@) } else { lex_order(a.name@, b.name@) }),
        sort_by == SortBy::Time ==> r as int == (if reverse {
            -lex_order(a.modified@, b.modified@)
        } else {
            lex_order(a.modified@, b.modified@)
        }),
        sort_by == SortBy::Extension ==> r as int == (if reverse {
            -lex_order(a.extension@, b.extension@)
        } else {
            lex_order(a.extension@, b.extension@)
        }),
        sort_by == SortBy::Size ==> (r < 0 <==> (if reverse { a.size > b.size } else { a.size < b.size })),
        sort_by == SortBy::Size ==> (r == 0 <==> a.size == b.size),
{
    proof {
        lemma_lex_order_range(a.name@, b.name@);
        lemma_lex_order_range(a.modified@, b.modified@);
        lemma_lex_order_range(a.extension@, b.extension@);
    }
    let c: i8 = match sort_by {
        SortBy::Name => compare_strings(a.name.as_str(), b.name.as_str()),
        SortBy::Time => compare_strings(a.modified.as_str(), b.modified.as_str()),
        SortBy::Size => if a.size < b.size {
            -1
        } else if a.size > b.size {
            1
        } else {
            0
        },
        SortBy::Extension => compare_strings(a.extension.as_str(), b.extension.as_str()),
    };
    if reverse {
        -c
    } else {
        c
    }
}


/// The first position in `out` whose entry comes strictly after `e`;
/// `out` must already be sorted.
fn insertion_point(out: &Vec<Entry>, e: &Entry, sort_by: SortBy, reverse: bool) -> (pos: usize)
    requires
        is_sorted(out@, sort_by, reverse),
    ensures
        pos <= out.len(),
        forall|k: int| 0 <= k < pos ==> entry_order(sort_by, reverse, #[trigger] out@[k], *e) <= 0,
        forall|k: int| pos <= k < out.len() ==> entry_order(sort_by, reverse, #[trigger] out@[k], *e) > 0,
{
    let mut lo: usize = 0;
    let mut hi: usize = out.len();
    while lo < hi
        invariant
            lo <= hi <= out.len(),
            is_sorted(out@, sort_by, reverse),
            forall|k: int| 0 <= k < lo ==> entry_order(sort_by, reverse, #[trigger] out@[k], *e) <= 0,
            forall|k: int| hi <= k < out.len() ==> entry_order(sort_by, reverse, #[trigger] out@[k], *e) > 0,
        decreases hi - lo,
    {
        let mid = lo + (hi - lo) / 2;
        if compare_entries(&out[mid], e, sort_by, reverse) <= 0 {
            assert forall|k: int| 0 <= k <= mid implies entry_order(sort_by, reverse, #[trigger] out@[k], *e) <= 0 by {
                if k < mid {
                    lemma_entry_order_transitive(sort_by, reverse, out@[k], out@[mid as int], *e);
                }
            }
            lo = mid + 1;
        } else {
            assert forall|k: int| mid <= k < out.len() implies entry_order(sort_by, reverse, #[trigger] out@[k], *e) > 0 by {
                if k > mid && entry_order(sort_by, reverse, out@[k], *e) <= 0 {
                    lemma_entry_order_transitive(sort_by, reverse, out@[mid as int], out@[k], *e);
                }
            }
            hi = mid;
        }
    }
    lo
}

/// Sorts the entries by the chosen key, ascending, or descending when
/// `reverse` is set. The sort is stable: entries with equal keys keep their
/// relative order.
pub fn sort_entries(entries: &mut Vec<Entry>, sort_by: SortBy, reverse: bool)
    ensures
        is_stable_sort(old(entries)@, final(entries)@, sort_by, reverse),
        sort_by == SortBy::Size ==> forall|i: int, j: int| 0 <= i < j < final(entries)@.len() ==> (if reverse {
            #[trigger] final(entries)@[i].size >= #[trigger] final(entries)@[j].size
        } else {
            final(entries)@[i].size <= final(entries)@[j].size
        }),
{
    let ghost inp = entries@;
    let mut input: Vec<Entry> = Vec::new();
    std::mem::swap(entries, &mut input);
    let ghost mut p: Seq<int> = Seq::empty();
    for e in it: input
        invariant
            it.seq() == inp,
            entries.len() == it.index(),
            is_permutation(p, it.index() as nat),
            forall|k: int| 0 <= k < entries.len() ==> #[trigger] entries@[k] == inp[p[k]],
            is_sorted(entries@, sort_by, reverse),
            forall|k: int, l: int|
                0 <= k < l < entries.len() && entry_order(sort_by, reverse, #[trigger] entries@[k], #[trigger] entries@[l]) == 0
                    ==> p[k] < p[l],
    {
        let ghost i = it.index();
        let ghost old_out = entries@;
        let ghost old_p = p;
        let pos = insertion_point(entries, &e, sort_by, reverse);
        entries.insert(pos, e);
        proof {
            p = old_p.insert(pos as int, i as int);
            assert forall|k: int, l: int| 0 <= k < l < entries.len() implies
                entry_order(sort_by, reverse, #[trigger] entries@[k], #[trigger] entries@[l]) <= 0 by {
                if k == pos {
                    lemma_entry_order_antisymmetric(sort_by, reverse, entries@[k], entries@[l]);
                }
            }
            assert forall|k: int, l: int|
                0 <= k < l < entries.len() && entry_order(sort_by, reverse, #[trigger] entries@[k], #[trigger] entries@[l]) == 0
                    implies p[k] < p[l] by {
                if k == pos {
                    lemma_entry_order_antisymmetric(sort_by, reverse, entries@[k], entries@[l]);
                }
            }
        }
    }
    proof {
        assert(is_stable_sort_by(inp, entries@, p, sort_by, reverse));
        if sort_by == SortBy::Size {
            law_size_sort_by_bytes(inp, entries@, reverse);
        }
    }
}


/// A map of `n` positions to distinct positions below `n` reaches every one of them.
proof fn lemma_permutation_onto(p: Seq<int>, n: nat, v: int)
    requires
        is_permutation(p, n),
        0 <= v < n,
    ensures
        exists|i: int| 0 <= i < n && p[i] == v,
{
    assert(p.no_duplicates()) by {
        assert forall|i: int, j: int| 0 <= i < p.len() && 0 <= j < p.len() && i != j implies p[i] != p[j] by {
            if i < j {
                assert(p[i] != p[j]);
            } else {
                assert(p[j] != p[i]);
            }
        }
    }
    p.unique_seq_to_set();
    vstd::set_lib::lemma_int_range(0, n as int);
    let range = vstd::set_lib::set_int_range(0, n as int);
    assert(p.to_set().subset_of(range)) by {
        assert forall|x: int| p.to_set().contains(x) implies range.contains(x) by {
            let i = choose|i: int| 0 <= i < p.len() && p[i] == x;
            assert(0 <= p[i] < n);
        }
    }
    vstd::seq_lib::seq_to_set_is_finite(p);
    vstd::set_lib::lemma_subset_equality(p.to_set(), range);
    assert(range.contains(v));
    assert(p.to_set().contains(v));
}

/// Two stable sorts of one sequence agree position by position.
proof fn lemma_stable_sort_positions_agree(
    inp: Seq<Entry>,
    out1: Seq<Entry>,
    p1: Seq<int>,
    out2: Seq<Entry>,
    p2: Seq<int>,
    by: SortBy,
    reverse: bool,
    k: int,
)
    requires
        is_stable_sort_by(inp, out1, p1, by, reverse),
        is_stable_sort_by(inp, out2, p2, by, reverse),
        0 <= k <= inp.len(),
    ensures
        forall|j: int| 0 <= j < k ==> p1[j] == p2[j],
    decreases k,
{
    if k > 0 {
        let n = inp.len();
        let j = k - 1;
        lemma_stable_sort_positions_agree(inp, out1, p1, out2, p2, by, reverse, j);
        let a = p1[j];
        let b = p2[j];
        if a != b {
            lemma_permutation_onto(p1, n, b);
            let l = choose|i: int| 0 <= i < n && p1[i] == b;
            lemma_permutation_onto(p2, n, a);
            let m = choose|i: int| 0 <= i < n && p2[i] == a;
            if l < j {
                assert(p2[l] == b);
                assert(p2[l] != p2[j]);
            }
            if m < j {
                assert(p1[m] == a);
                assert(p1[m] != p1[j]);
            }
            assert(l > j && m > j);
            assert(out1[j] == inp[a] && out1[l] == inp[b]);
            assert(out2[j] == inp[b] && out2[m] == inp[a]);
            assert(entry_order(by, reverse, out1[j], out1[l]) <= 0);
            assert(entry_order(by, reverse, out2[j], out2[m]) <= 0);
            lemma_entry_order_antisymmetric(by, reverse, inp[a], inp[b]);
            assert(entry_order(by, reverse, out1[j], out1[l]) == 0);
            assert(p1[j] < p1[l]);
            assert(p2[j] < p2[m]);
        }
    }
}

/// Law: a stable sort has exactly one outcome. Sorting the same entries by the
/// same key and direction always lists them in the same order.
pub proof fn law_stable_sort_unique(
    inp: Seq<Entry>,
    out1: Seq<Entry>,
    out2: Seq<Entry>,
    by: SortBy,
    reverse: bool,
)
    requires
        is_stable_sort(inp, out1, by, reverse),
        is_stable_sort(inp, out2, by, reverse),
    ensures
        out1 == out2,
{
    let p1 = choose|p: Seq<int>| is_stable_sort_by(inp, out1, p, by, reverse);
    let p2 = choose|p: Seq<int>| is_stable_sort_by(inp, out2, p, by, reverse);
    lemma_stable_sort_positions_agree(inp, out1, p1, out2, p2, by, reverse, inp.len() as int);
    assert forall|k: int| 0 <= k < out1.len() implies out1[k] == out2[k] by {
        assert(p1[k] == p2[k]);
    }
    assert(out1 =~= out2);
}

/// Law: entries that are already in order stay as they are when sorted.
pub proof fn law_sort_keeps_sorted(inp: Seq<Entry>, out: Seq<Entry>, by: SortBy, reverse: bool)
    requires
        is_sorted(inp, by, reverse),
        is_stable_sort(inp, out, by, reverse),
    ensures
        out == inp,
{
    let id = Seq::new(inp.len(), |i: int| i);
    assert(is_stable_sort_by(inp, inp, id, by, reverse));
    law_stable_sort_unique(inp, out, inp, by, reverse);
}

/// Law: sorting a second time by the same key and direction changes nothing.
pub proof fn law_sort_idempotent(
    inp: Seq<Entry>,
    once: Seq<Entry>,
    twice: Seq<Entry>,
    by: SortBy,
    reverse: bool,
)
    requires
        is_stable_sort(inp, once, by, reverse),
        is_stable_sort(once, twice, by, reverse),
    ensures
        twice == once,
{
    law_sort_keeps_sorted(once, twice, by, reverse);
}


/// No two entries of `s` share their key.
pub open spec fn keys_distinct(s: Seq<Entry>, by: SortBy) -> bool {
    forall|i: int, j: int| 0 <= i < s.len() && 0 <= j < s.len() && i != j ==> key_order(by, #[trigger] s[i], #[trigger] s[j]) != 0
}

/// Law: where no two entries share their key, the reversed listing is the
/// forward listing read backwards.
pub proof fn law_reverse_of_distinct_keys(inp: Seq<Entry>, forward: Seq<Entry>, backward: Seq<Entry>, by: SortBy)
    requires
        keys_distinct(inp, by),
        is_stable_sort(inp, forward, by, false),
        is_stable_sort(inp, backward, by, true),
    ensures
        backward == forward.reverse(),
{
    let p = choose|p: Seq<int>| is_stable_sort_by(inp, forward, p, by, false);
    let n = inp.len();
    let q = Seq::new(n, |k: int| p[n - 1 - k]);
    let rev = forward.reverse();
    assert forall|k: int, l: int| 0 <= k < l < rev.len() implies
        entry_order(by, true, #[trigger] rev[k], #[trigger] rev[l]) <= 0 by {
        assert(rev[k] == forward[n - 1 - k] && rev[l] == forward[n - 1 - l]);
        assert(entry_order(by, false, forward[n - 1 - l], forward[n - 1 - k]) <= 0);
        lemma_entry_order_antisymmetric(by, false, forward[n - 1 - l], forward[n - 1 - k]);
    }
    assert forall|k: int, l: int| 0 <= k < l < rev.len()
        && entry_order(by, true, #[trigger] rev[k], #[trigger] rev[l]) == 0 implies q[k] < q[l] by {
        assert(rev[k] == inp[p[n - 1 - k]] && rev[l] == inp[p[n - 1 - l]]);
        assert(p[n - 1 - l] != p[n - 1 - k]);
        assert(key_order(by, inp[p[n - 1 - k]], inp[p[n - 1 - l]]) != 0);
    }
    assert forall|i: int, j: int| 0 <= i < j < n implies #[trigger] q[i] != #[trigger] q[j] by {
        assert(p[n - 1 - j] != p[n - 1 - i]);
    }
    assert forall|k: int| 0 <= k < rev.len() implies #[trigger] rev[k] == inp[q[k]] by {
        assert(rev[k] == forward[n - 1 - k]);
    }
    assert(is_stable_sort_by(inp, rev, q, by, true));
    law_stable_sort_unique(inp, backward, rev, by, true);
}

/// Law: sorting by size orders the entries by their number of bytes, smallest
/// first, or largest first when reversed.
pub proof fn law_size_sort_by_bytes(inp: Seq<Entry>, out: Seq<Entry>, reverse: bool)
    requires
        is_stable_sort(inp, out, SortBy::Size, reverse),
    ensures
        forall|i: int, j: int| 0 <= i < j < out.len() ==> (if reverse {
            #[trigger] out[i].size >= #[trigger] out[j].size
        } else {
            out[i].size <= out[j].size
        }),
{
    let p = choose|p: Seq<int>| is_stable_sort_by(inp, out, p, SortBy::Size, reverse);
    assert forall|i: int, j: int| 0 <= i < j < out.len() implies (if reverse {
        #[trigger] out[i].size >= #[trigger] out[j].size
    } else {
        out[i].size <= out[j].size
    }) by {
        assert(entry_order(SortBy::Size, reverse, out[i], out[j]) <= 0);
    }
}

/// The file type letter: `d` for a directory, `l` for a symbolic link, `-` otherwise.
pub open spec fn file_type_letter(is_dir: bool, is_symlink: bool) -> char {
    if is_dir { 'd' } else if is_symlink { 'l' } else { '-' }
}

/// Returns the file type character for an entry.
pub fn get_file_type_char(is_dir: bool, is_symlink: bool) -> (c: char)
    ensures
        c == file_type_letter(is_dir, is_symlink),
{
    if is_dir {
        'd'
    } else if is_symlink {
        'l'
    } else {
        '-'
    }
}

/// `letter` where the permission bit `bit` is set in `mode`, `-` otherwise.
pub open spec fn permission_letter(mode: u32, bit: u32, letter: char) -> char {
    if mode & bit != 0 { letter } else { '-' }
}

/// The nine permission letters of `mode`: read, write and execute for the
/// owner (0o400, 0o200, 0o100), the group (0o40, 0o20, 0o10) and others
/// (0o4, 0o2, 0o1).
pub open spec fn permission_letters(mode: u32) -> Seq<char> {
    seq![
        permission_letter(mode, 0o400, 'r'),
        permission_letter(mode, 0o200, 'w'),
        permission_letter(mode, 0o100, 'x'),
        permission_letter(mode, 0o40, 'r'),
        permission_letter(mode, 0o20, 'w'),
        permission_letter(mode, 0o10, 'x'),
        permission_letter(mode, 0o4, 'r'),
        permission_letter(mode, 0o2, 'w'),
        permission_letter(mode, 0o1, 'x'),
    ]
}

/// The mode string: the file type letter, then the permission letters.
pub open spec fn mode_text(mode: u32, is_dir: bool, is_symlink: bool) -> Seq<char> {
    seq![file_type_letter(is_dir, is_symlink)] + permission_letters(mode)
}

fn push_permission(s: &mut String, mode: u32, bit: u32, letter: char)
    ensures
        final(s)@ == old(s)@.push(permission_letter(mode, bit, letter)),
{
    if mode & bit != 0 {
        push_char(s, letter);
    } else {
        push_char(s, '-');
    }
}

proof fn lemma_permission_bit_values()
    by (bit_vector)
    ensures
        0o400u32 >> 0u32 == 0o400u32,
        0o400u32 >> 1u32 == 0o200u32,
        0o400u32 >> 2u32 == 0o100u32,
        0o400u32 >> 3u32 == 0o40u32,
        0o400u32 >> 4u32 == 0o20u32,
        0o400u32 >> 5u32 == 0o10u32,
        0o400u32 >> 6u32 == 0o4u32,
        0o400u32 >> 7u32 == 0o2u32,
        0o400u32 >> 8u32 == 0o1u32,
{
}

/// Law: a mode string is ten characters long: the file type letter, then nine
/// permission positions. The position `i` after the type letter reads its own
/// bit of the mode, `0o400 >> i` (owner read first, others execute last), and
/// shows `r`, `w` or `x` by its place in its group of three where the bit is
/// set, `-` where it is not.
pub proof fn law_permission_positions(mode: u32, is_dir: bool, is_symlink: bool)
    ensures
        permission_letters(mode).len() == 9,
        forall|i: int| 0 <= i < 9 ==> #[trigger] permission_letters(mode)[i] == (if mode & (0o400u32 >> (i as u32)) != 0 {
            seq!['r', 'w', 'x'][i % 3]
        } else {
            '-'
        }),
        mode_text(mode, is_dir, is_symlink).len() == 10,
        mode_text(mode, is_dir, is_symlink)[0] == (if is_dir { 'd' } else if is_symlink { 'l' } else { '-' }),
        forall|i: int| 0 <= i < 9 ==> #[trigger] mode_text(mode, is_dir, is_symlink)[i + 1] == (if mode & (0o400u32 >> (i as u32)) != 0 {
            seq!['r', 'w', 'x'][i % 3]
        } else {
            '-'
        }),
{
    lemma_permission_bit_values();
    let letters = permission_letters(mode);
    let text = mode_text(mode, is_dir, is_symlink);
    assert forall|i: int| 0 <= i < 9 implies #[trigger] letters[i] == (if mode & (0o400u32 >> (i as u32)) != 0 {
        seq!['r', 'w', 'x'][i % 3]
    } else {
        '-'
    }) by {
        assert(seq!['r', 'w', 'x'][0] == 'r' && seq!['r', 'w', 'x'][1] == 'w' && seq!['r', 'w', 'x'][2] == 'x');
        if i == 0 {
        } else if i == 1 {
        } else if i == 2 {
        } else if i == 3 {
        } else if i == 4 {
        } else if i == 5 {
        } else if i == 6 {
        } else if i == 7 {
        } else {
        }
    }
    assert forall|i: int| 0 <= i < 9 implies #[trigger] text[i + 1] == letters[i] by {
    }
}

/// The permissions part of a mode string.
pub fn get_permissions_string(mode: u32) -> (r: String)
    ensures
        r@ == permission_letters(mode),
        r@.len() == 9,
        forall|i: int| 0 <= i < 9 ==> #[trigger] r@[i] == (if mode & (0o400u32 >> (i as u32)) != 0 {
            seq!['r', 'w', 'x'][i % 3]
        } else {
            '-'
        }),
{
    proof {
        law_permission_positions(mode, false, false);
    }
    let mut s = String::new();
    push_permission(&mut s, mode, 0o400, 'r');
    push_permission(&mut s, mode, 0o200, 'w');
    push_permission(&mut s, mode, 0o100, 'x');
    push_permission(&mut s, mode, 0o40, 'r');
    push_permission(&mut s, mode, 0o20, 'w');
    push_permission(&mut s, mode, 0o10, 'x');
    push_permission(&mut s, mode, 0o4, 'r');
    push_permission(&mut s, mode, 0o2, 'w');
    push_permission(&mut s, mode, 0o1, 'x');
    assert(s@ =~= permission_letters(mode));
    s
}

/// The mode string of an entry, such as `drwxr-xr-x`.
pub fn get_mode_string(mode: u32, is_dir: bool, is_symlink: bool) -> (r: String)
    ensures
        r@ == mode_text(mode, is_dir, is_symlink),
        r@.len() == 10,
        r@[0] == (if is_dir { 'd' } else if is_symlink { 'l' } else { '-' }),
        forall|i: int| 0 <= i < 9 ==> #[trigger] r@[i + 1] == (if mode & (0o400u32 >> (i as u32)) != 0 {
            seq!['r', 'w', 'x'][i % 3]
        } else {
            '-'
        }),
{
    proof {
        law_permission_positions(mode, is_dir, is_symlink);
    }
    let mut s = String::new();
    push_char(&mut s, get_file_type_char(is_dir, is_symlink));
    let p = get_permissions_string(mode);
    s.append(p.as_str());
    assert(s@ =~= mode_text(mode, is_dir, is_symlink));
    s
}

/// A user or group shown by name where it has one, by number otherwise.
pub open spec fn name_or_number(name: Option<String>, id: u32) -> Seq<char> {
    match name {
        Some(n) => n@,
        None => decimal(id as nat),
    }
}

/// The name of a user or group where the system knows it, else its number.
pub fn name_or_id(name: Option<String>, id: u32) -> (r: String)
    ensures
        r@ == name_or_number(name, id),
{
    match name {
        Some(n) => n,
        None => decimal_text(id as u64),
    }
}

/// The position of the last `.` in `s`, -1 where there is none.
pub open spec fn last_dot(s: Seq<char>) -> int
    decreases s.len(),
{
    if s.len() == 0 {
        -1
    } else if s.last() == '.' {
        s.len() - 1
    } else {
        last_dot(s.drop_last())
    }
}

/// The extension of a file name as `Path::extension` documents it: nothing
/// where the name has no `.` or only a leading one (or is `..`), otherwise
/// what follows the last `.`.
pub open spec fn name_extension(name: Seq<char>) -> Option<Seq<char>> {
    if name == seq!['.', '.'] || last_dot(name) <= 0 {
        None
    } else {
        Some(name.skip(last_dot(name) + 1))
    }
}

/// `s` holds no `.`.
pub open spec fn dot_free(s: Seq<char>) -> bool {
    forall|i: int| 0 <= i < s.len() ==> s[i] != '.'
}

proof fn lemma_last_dot_skips_dot_free(p: Seq<char>, q: Seq<char>)
    requires
        dot_free(q),
    ensures
        last_dot(p + q) == last_dot(p),
    decreases q.len(),
{
    if q.len() == 0 {
        assert(p + q =~= p);
    } else {
        let pq = p + q;
        assert(pq.last() == q.last());
        assert(pq.drop_last() =~= p + q.drop_last());
        lemma_last_dot_skips_dot_free(p, q.drop_last());
    }
}

/// Law: the extension of a name is what follows its last `.`: a name made of
/// a non-empty stem, a `.` and a text without `.` has that text as its
/// extension (but for `..`); a name without `.`, or whose only `.` leads it,
/// has none.
pub proof fn law_name_extension_after_last_dot(stem: Seq<char>, ext: Seq<char>)
    requires
        dot_free(ext),
    ensures
        stem.len() >= 1 && !(stem == seq!['.'] && ext.len() == 0) ==> name_extension(stem + seq!['.'] + ext)
            == Some(ext),
        name_extension(ext) is None,
        name_extension(seq!['.'] + ext) is None,
{
    let empty = Seq::<char>::empty();
    assert(last_dot(empty) == -1);
    lemma_last_dot_skips_dot_free(empty, ext);
    assert(empty + ext =~= ext);
    let lead = seq!['.'];
    assert(lead.drop_last() =~= empty);
    assert(last_dot(lead) == 0);
    lemma_last_dot_skips_dot_free(lead, ext);
    if stem.len() >= 1 && !(stem == seq!['.'] && ext.len() == 0) {
        let sd = stem + seq!['.'];
        assert(sd.last() == '.');
        assert(last_dot(sd) == stem.len());
        lemma_last_dot_skips_dot_free(sd, ext);
        let name = stem + seq!['.'] + ext;
        assert(name.skip(stem.len() as int + 1) =~= ext);
        if name == seq!['.', '.'] {
            assert(stem.len() == 1 && ext.len() == 0);
            assert(name[0] == stem[0]);
            assert(stem =~= seq!['.']);
        }
    }
}

/// The extension of the file at `path`, empty where there is none.
pub open spec fn path_extension(path: Seq<char>) -> Seq<char> {
    match file_name_of(path) {
        Some(name) => match name_extension(name) {
            Some(ext) => ext,
            None => Seq::empty(),
        },
        None => Seq::empty(),
    }
}

/// The extension of a file name, if it has one.
pub fn extension_of_name(name: &str) -> (r: Option<String>)
    ensures
        match r {
            Some(e) => name_extension(name@) == Some(e@),
            None => name_extension(name@) is None,
        },
{
    let cs = chars_of(name);
    let n = cs.len();
    if n == 2 && cs[0] == '.' && cs[1] == '.' {
        assert(name@ =~= seq!['.', '.']);
        return None;
    }
    let mut k: usize = n;
    assert(name@.take(n as int) =~= name@);
    while k > 0 && cs[k - 1] != '.'
        invariant
            cs@ == name@,
            n == cs.len(),
            k <= n,
            last_dot(name@) == last_dot(name@.take(k as int)),
        decreases k,
    {
        assert(name@.take(k as int).drop_last() =~= name@.take(k - 1));
        k = k - 1;
    }
    if k <= 1 {
        proof {
            if k == 1 {
                assert(name@.take(1).last() == '.');
            }
        }
        return None;
    }
    assert(name@.take(k as int).last() == '.');
    assert(last_dot(name@) == k - 1);
    assert(name@ != seq!['.', '.']) by {
        if name@ == seq!['.', '.'] {
            assert(cs@.len() == 2 && cs@[0] == '.' && cs@[1] == '.');
        }
    }
    let mut e = String::new();
    let mut i: usize = k;
    while i < n
        invariant
            cs@ == name@,
            n == cs.len(),
            k <= i <= n,
            e@ == name@.subrange(k as int, i as int),
        decreases n - i,
    {
        push_char(&mut e, cs[i]);
        i = i + 1;
        assert(e@ =~= name@.subrange(k as int, i as int));
    }
    assert(name@.skip(k as int) =~= name@.subrange(k as int, n as int));
    Some(e)
}

/// The extension of the file at `path`, empty where it has none.
pub fn extension_of_path(path: &str) -> (r: String)
    ensures
        r@ == path_extension(path@),
{
    match path_file_name(path) {
        Some(f) => match extension_of_name(f.as_str()) {
            Some(e) => e,
            None => String::new(),
        },
        None => String::new(),
    }
}


/// What the file system reports of an entry, as plain values.
pub struct FileMetadata {
    /// Whether the entry is a directory.
    pub is_dir: bool,
    /// Whether the entry is a symbolic link (not followed).
    pub is_symlink: bool,
    /// The permission bits of the entry.
    pub mode: u32,
    /// The number of hard links.
    pub nlink: u64,
    /// The owner's user id.
    pub uid: u32,
    /// The group id.
    pub gid: u32,
    /// The owner's name, where the system knows it.
    pub owner_name: Option<String>,
    /// The group's name, where the system knows it.
    pub group_name: Option<String>,
    /// The size in bytes.
    pub size: u64,
    /// The last modification time, in local time.
    pub modified: LocalMinute,
}

/// The entry that `Entry::from_metadata` builds.
pub open spec fn is_entry_from(e: Entry, path: Seq<char>, name: String, git_status: String, meta: FileMetadata) -> bool {
    {
        &&& e.name == name
        &&& e.path@ == path
        &&& e.is_dir == meta.is_dir
        &&& e.mode@ == mode_text(meta.mode, meta.is_dir, meta.is_symlink)
        &&& e.nlink == meta.nlink
        &&& e.owner@ == name_or_number(meta.owner_name, meta.uid)
        &&& e.group@ == name_or_number(meta.group_name, meta.gid)
        &&& e.size == meta.size
        &&& e.modified@ == minute_text(meta.modified)
        &&& e.git_status == git_status
        &&& e.extension@ == path_extension(path)
    }
}

impl Entry {
    /// The entry for the file at `path`, shown as `name`, from what the file
    /// system reported of it.
    pub fn from_metadata(path: &str, name: String, git_status: String, meta: FileMetadata) -> (e: Entry)
        requires
            is_valid_minute(meta.modified),
        ensures
            is_entry_from(e, path@, name, git_status, meta),
    {
        let modified = modified_text(&meta.modified);
        let mode = get_mode_string(meta.mode, meta.is_dir, meta.is_symlink);
        let owner = name_or_id(meta.owner_name, meta.uid);
        let group = name_or_id(meta.group_name, meta.gid);
        let extension = extension_of_path(path);
        Entry {
            name,
            path: path.to_string(),
            is_dir: meta.is_dir,
            mode,
            nlink: meta.nlink,
            owner,
            group,
            size: meta.size,
            modified,
            git_status,
            extension,
        }
    }
}


} // verus!
