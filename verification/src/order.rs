//! The order of paths, and sorting counted files by it.
//!
//! Paths are ordered by the bytes of their UTF-8 encoding, which is also the
//! order of their code points: no locale has a say in it.

use crate::counter::{total_of, Entry, FileEntry, Metrics};
use vstd::prelude::*;
use vstd::seq_lib::{
    commutative_foldl, lemma_fold_left_permutation, lemma_multiset_commutative, to_multiset_build,
};
use vstd::string::StringSliceAdditionalSpecFns;
use vstd::utf8::{encode_utf8, encode_utf8_decode_utf8};

verus! {

/// How one value stands to another in an order.
#[derive(Debug, Clone, Copy, PartialEq, Eq, Structural)]
pub enum Order {
    /// It comes first.
    Before,
    /// Neither comes first.
    Same,
    /// It comes second.
    After,
}

/// `a` and `b` agree on their first `k` bytes, and there `a` ends while `b`
/// goes on, or `a` has the smaller byte.
pub open spec fn less_at(a: Seq<u8>, b: Seq<u8>, k: int) -> bool {
    &&& 0 <= k <= a.len()
    &&& k < b.len()
    &&& forall|i: int| 0 <= i < k ==> a[i] == b[i]
    &&& (k == a.len() || a[k] < b[k])
}

/// `a` comes before `b` in lexicographic order.
pub open spec fn bytes_less(a: Seq<u8>, b: Seq<u8>) -> bool {
    exists|k: int| less_at(a, b, k)
}

/// How `a` stands to `b` in lexicographic order.
pub open spec fn bytes_order(a: Seq<u8>, b: Seq<u8>) -> Order {
    if bytes_less(a, b) {
        Order::Before
    } else if bytes_less(b, a) {
        Order::After
    } else {
        Order::Same
    }
}

/// The path `a` comes before the path `b`.
pub open spec fn path_less(a: Seq<char>, b: Seq<char>) -> bool {
    bytes_less(encode_utf8(a), encode_utf8(b))
}

/// How the path `a` stands to the path `b`.
pub open spec fn path_order(a: Seq<char>, b: Seq<char>) -> Order {
    bytes_order(encode_utf8(a), encode_utf8(b))
}

/// The entry at index `a` comes before the entry at index `b`: its path
/// comes first, or the paths are equal and it stood first.
pub open spec fn comes_before(entries: Seq<Entry>, a: int, b: int) -> bool {
    path_less(entries[a].path, entries[b].path) || (entries[a].path == entries[b].path && a < b)
}

/// The indices in `order` name entries of which each comes before all that
/// follow it.
pub open spec fn in_order(entries: Seq<Entry>, order: Seq<usize>) -> bool {
    forall|p: int, q: int|
        0 <= p < q < order.len() ==> comes_before(
            entries,
            #[trigger] order[p] as int,
            #[trigger] order[q] as int,
        )
}

/// The indices from `lo` up to `hi`, in rising order.
pub open spec fn indices(lo: int, hi: int) -> Seq<usize> {
    Seq::new((hi - lo) as nat, |k: int| (lo + k) as usize)
}

/// `order` lists the indices of `entries`, each once, sorted by path, entries
/// of equal path in the order in which they stand in `entries`.
pub open spec fn is_stable_order(entries: Seq<Entry>, order: Seq<usize>) -> bool {
    &&& order.len() == entries.len()
    &&& forall|k: int| 0 <= k < order.len() ==> #[trigger] order[k] < entries.len()
    &&& order.to_multiset() == indices(0, entries.len() as int).to_multiset()
    &&& in_order(entries, order)
}

/// The entries in the order in which `order` lists their indices.
pub open spec fn arranged(entries: Seq<Entry>, order: Seq<usize>) -> Seq<Entry> {
    Seq::new(order.len(), |k: int| entries[order[k] as int])
}

/// `sorted` holds the entries of `entries` sorted by path, entries of equal
/// path in the order in which they stand in `entries`.
pub open spec fn is_stable_sort(entries: Seq<Entry>, sorted: Seq<Entry>) -> bool {
    exists|order: Seq<usize>| #[trigger]
        is_stable_order(entries, order) && sorted == arranged(entries, order)
}

/// Nothing comes before itself.
pub proof fn lemma_bytes_less_irreflexive(a: Seq<u8>)
    ensures
        !bytes_less(a, a),
{
}

/// What comes before something that comes before a third comes before the
/// third.
pub proof fn lemma_bytes_less_transitive(a: Seq<u8>, b: Seq<u8>, c: Seq<u8>)
    requires
        bytes_less(a, b),
        bytes_less(b, c),
    ensures
        bytes_less(a, c),
{
    let k1 = choose|k: int| less_at(a, b, k);
    let k2 = choose|k: int| less_at(b, c, k);
    if k1 <= k2 {
        assert(less_at(a, c, k1));
    } else {
        assert(less_at(a, c, k2));
    }
}

/// Of two byte strings at most one comes before the other.
pub proof fn lemma_bytes_less_asymmetric(a: Seq<u8>, b: Seq<u8>)
    requires
        bytes_less(a, b),
    ensures
        !bytes_less(b, a),
{
    if bytes_less(b, a) {
        lemma_bytes_less_transitive(a, b, a);
        lemma_bytes_less_irreflexive(a);
    }
}

/// Texts with the same encoding are the same text.
pub proof fn lemma_encoding_injective(a: Seq<char>, b: Seq<char>)
    requires
        encode_utf8(a) == encode_utf8(b),
    ensures
        a == b,
{
    encode_utf8_decode_utf8(a);
    encode_utf8_decode_utf8(b);
}

/// The order of entries is transitive.
pub proof fn lemma_comes_before_transitive(entries: Seq<Entry>, a: int, b: int, c: int)
    requires
        comes_before(entries, a, b),
        comes_before(entries, b, c),
    ensures
        comes_before(entries, a, c),
{
    let pa = encode_utf8(entries[a].path);
    let pb = encode_utf8(entries[b].path);
    let pc = encode_utf8(entries[c].path);
    if bytes_less(pa, pb) && bytes_less(pb, pc) {
        lemma_bytes_less_transitive(pa, pb, pc);
    }
}

/// No entry comes before itself.
pub proof fn lemma_comes_before_irreflexive(entries: Seq<Entry>, a: int)
    ensures
        !comes_before(entries, a, a),
{
    lemma_bytes_less_irreflexive(encode_utf8(entries[a].path));
}

/// The total of entries taken by index is the merge of what each index
/// adds.
proof fn lemma_total_by_index(entries: Seq<Entry>, order: Seq<usize>)
    ensures
        total_of(arranged(entries, order)) == order.fold_left(
            Metrics::zero(),
            |total: Metrics, index: usize| total.merge(entries[index as int].count),
        ),
    decreases order.len(),
{
    if order.len() > 0 {
        lemma_total_by_index(entries, order.drop_last());
        assert(arranged(entries, order).drop_last() =~= arranged(entries, order.drop_last()));
    }
}

/// Sorting changes no total: the entries in a stable order merge to what
/// they merge to as they stand.
pub proof fn lemma_sorting_keeps_total(entries: Seq<Entry>, order: Seq<usize>)
    requires
        entries.len() <= usize::MAX,
        is_stable_order(entries, order),
    ensures
        total_of(arranged(entries, order)) == total_of(entries),
{
    let f = |total: Metrics, index: usize| total.merge(entries[index as int].count);
    let all = indices(0, entries.len() as int);
    assert(commutative_foldl(f));
    lemma_total_by_index(entries, order);
    lemma_total_by_index(entries, all);
    lemma_fold_left_permutation(order, all, f, Metrics::zero());
    assert(arranged(entries, all) =~= entries);
}

/// How `a` stands to `b` in lexicographic order.
pub fn compare_bytes(a: &[u8], b: &[u8]) -> (order: Order)
    ensures
        order == bytes_order(a@, b@),
        order == Order::Same <==> a@ == b@,
{
    let mut i: usize = 0;
    while i < a.len() && i < b.len()
        invariant
            i <= a.len(),
            i <= b.len(),
            forall|j: int| 0 <= j < i ==> a@[j] == b@[j],
        decreases a.len() - i,
    {
        if a[i] < b[i] {
            proof {
                assert(less_at(a@, b@, i as int));
                lemma_bytes_less_asymmetric(a@, b@);
            }
            return Order::Before;
        }
        if a[i] > b[i] {
            proof {
                assert(less_at(b@, a@, i as int));
                lemma_bytes_less_asymmetric(b@, a@);
            }
            return Order::After;
        }
        i = i + 1;
    }
    if i < b.len() {
        proof {
            assert(less_at(a@, b@, i as int));
            lemma_bytes_less_asymmetric(a@, b@);
        }
        Order::Before
    } else if i < a.len() {
        proof {
            assert(less_at(b@, a@, i as int));
            lemma_bytes_less_asymmetric(b@, a@);
        }
        Order::After
    } else {
        proof {
            assert(a@ =~= b@);
            lemma_bytes_less_irreflexive(a@);
        }
        Order::Same
    }
}

/// How the path `a` stands to the path `b`.
pub fn compare_paths(a: &str, b: &str) -> (order: Order)
    ensures
        order == path_order(a@, b@),
        order == Order::Same <==> a@ == b@,
{
    let order = compare_bytes(a.as_bytes(), b.as_bytes());
    proof {
        if order == Order::Same {
            lemma_encoding_injective(a@, b@);
        }
    }
    order
}

/// Whether the entry at index `a` comes before the entry at index `b`. Of
/// two different entries one comes before the other.
pub fn entry_comes_before(entries: &Vec<FileEntry>, a: usize, b: usize) -> (before: bool)
    requires
        a < entries.len(),
        b < entries.len(),
    ensures
        before == comes_before(entries.deep_view(), a as int, b as int),
        a != b && !before ==> comes_before(entries.deep_view(), b as int, a as int),
{
    let ghost all = entries.deep_view();
    assert(all[a as int].path == entries[a as int].path@);
    assert(all[b as int].path == entries[b as int].path@);
    match compare_paths(entries[a].path.as_str(), entries[b].path.as_str()) {
        Order::Before => true,
        Order::Same => {
            proof {
                lemma_bytes_less_irreflexive(encode_utf8(all[a as int].path));
            }
            a < b
        },
        Order::After => false,
    }
}

/// Merges two runs of indices, each in order, into one. The indices of
/// `left` are all smaller than those of `right`, so that of two entries of
/// equal path the one from `left` goes first.
fn merge(
    entries: &Vec<FileEntry>,
    left: &Vec<usize>,
    right: &Vec<usize>,
    lo: usize,
    mid: usize,
    hi: usize,
) -> (merged: Vec<usize>)
    requires
        lo <= mid <= hi <= entries.len(),
        left.len() == mid - lo,
        right.len() == hi - mid,
        forall|k: int| 0 <= k < left.len() ==> lo <= #[trigger] left[k] < mid,
        forall|k: int| 0 <= k < right.len() ==> mid <= #[trigger] right[k] < hi,
        in_order(entries.deep_view(), left@),
        in_order(entries.deep_view(), right@),
    ensures
        merged.len() == hi - lo,
        forall|k: int| 0 <= k < merged.len() ==> lo <= #[trigger] merged[k] < hi,
        merged@.to_multiset() == left@.to_multiset().add(right@.to_multiset()),
        in_order(entries.deep_view(), merged@),
{
    let ghost all = entries.deep_view();
    let mut merged: Vec<usize> = Vec::new();
    let mut i: usize = 0;
    let mut j: usize = 0;
    proof {
        assert(left@.take(0) =~= Seq::<usize>::empty());
        assert(right@.take(0) =~= Seq::<usize>::empty());
        lemma_multiset_commutative(left@.take(0), right@.take(0));
        assert(left@.take(0) + right@.take(0) =~= merged@);
    }
    while i < left.len() || j < right.len()
        invariant
            merged@.to_multiset() == left@.take(i as int).to_multiset().add(
                right@.take(j as int).to_multiset(),
            ),
            lo <= mid <= hi <= entries.len(),
            all == entries.deep_view(),
            left.len() == mid - lo,
            right.len() == hi - mid,
            forall|k: int| 0 <= k < left.len() ==> lo <= #[trigger] left[k] < mid,
            forall|k: int| 0 <= k < right.len() ==> mid <= #[trigger] right[k] < hi,
            in_order(all, left@),
            in_order(all, right@),
            i <= left.len(),
            j <= right.len(),
            merged.len() == i + j,
            forall|k: int| 0 <= k < merged.len() ==> lo <= #[trigger] merged[k] < hi,
            in_order(all, merged@),
            forall|k: int, p: int|
                0 <= k < merged.len() && i <= p < left.len() ==> comes_before(
                    all,
                    #[trigger] merged[k] as int,
                    #[trigger] left[p] as int,
                ),
            forall|k: int, q: int|
                0 <= k < merged.len() && j <= q < right.len() ==> comes_before(
                    all,
                    #[trigger] merged[k] as int,
                    #[trigger] right[q] as int,
                ),
        decreases left.len() - i + right.len() - j,
    {
        let ghost before = merged@;
        let take_right = if i >= left.len() {
            true
        } else if j >= right.len() {
            false
        } else {
            entry_comes_before(entries, right[j], left[i])
        };
        if take_right {
            let y = right[j];
            proof {
                assert forall|p: int| i <= p < left.len() implies comes_before(
                    all,
                    y as int,
                    #[trigger] left[p] as int,
                ) by {
                    if p > i {
                        lemma_comes_before_transitive(all, y as int, left[i as int] as int, left[p] as int);
                    }
                }
            }
            merged.push(y);
            j = j + 1;
            proof {
                assert(right@.take(j as int) =~= right@.take(j - 1).push(y));
                to_multiset_build(before, y);
                to_multiset_build(right@.take(j - 1), y);
                assert(merged@.to_multiset() =~= left@.take(i as int).to_multiset().add(
                    right@.take(j as int).to_multiset(),
                ));
            }
        } else {
            let x = left[i];
            proof {
                assert forall|q: int| j <= q < right.len() implies comes_before(
                    all,
                    x as int,
                    #[trigger] right[q] as int,
                ) by {
                    if q > j {
                        lemma_comes_before_transitive(
                            all,
                            x as int,
                            right[j as int] as int,
                            right[q] as int,
                        );
                    }
                }
            }
            merged.push(x);
            i = i + 1;
            proof {
                assert(left@.take(i as int) =~= left@.take(i - 1).push(x));
                to_multiset_build(before, x);
                to_multiset_build(left@.take(i - 1), x);
                assert(merged@.to_multiset() =~= left@.take(i as int).to_multiset().add(
                    right@.take(j as int).to_multiset(),
                ));
            }
        }
        proof {
            assert forall|p: int, q: int| 0 <= p < q < merged.len() implies comes_before(
                all,
                #[trigger] merged[p] as int,
                #[trigger] merged[q] as int,
            ) by {
                if q < before.len() {
                    assert(merged[p] == before[p] && merged[q] == before[q]);
                } else {
                    assert(merged[p] == before[p]);
                }
            }
        }
    }
    proof {
        assert(left@.take(i as int) =~= left@);
        assert(right@.take(j as int) =~= right@);
    }
    merged
}

/// The indices from `lo` up to `hi`, sorted by the order of their entries.
fn sort_range(entries: &Vec<FileEntry>, lo: usize, hi: usize) -> (order: Vec<usize>)
    requires
        lo <= hi <= entries.len(),
    ensures
        order.len() == hi - lo,
        forall|k: int| 0 <= k < order.len() ==> lo <= #[trigger] order[k] < hi,
        order@.to_multiset() == indices(lo as int, hi as int).to_multiset(),
        in_order(entries.deep_view(), order@),
    decreases hi - lo,
{
    if hi - lo <= 1 {
        let mut order: Vec<usize> = Vec::new();
        if hi - lo == 1 {
            order.push(lo);
        }
        assert(order@ =~= indices(lo as int, hi as int));
        order
    } else {
        let mid = lo + (hi - lo) / 2;
        let left = sort_range(entries, lo, mid);
        let right = sort_range(entries, mid, hi);
        proof {
            let low = indices(lo as int, mid as int);
            let high = indices(mid as int, hi as int);
            assert(low + high =~= indices(lo as int, hi as int));
            lemma_multiset_commutative(low, high);
        }
        merge(entries, &left, &right, lo, mid, hi)
    }
}

/// The indices of `entries`, sorted by path; entries of equal path keep
/// their order.
pub fn stable_order(entries: &Vec<FileEntry>) -> (order: Vec<usize>)
    ensures
        is_stable_order(entries.deep_view(), order@),
{
    sort_range(entries, 0, entries.len())
}

/// The entries sorted by path; entries of equal path keep their order.
pub fn sort_by_path(entries: &Vec<FileEntry>) -> (sorted: Vec<FileEntry>)
    ensures
        is_stable_sort(entries.deep_view(), sorted.deep_view()),
        sorted.len() == entries.len(),
        total_of(sorted.deep_view()) == total_of(entries.deep_view()),
{
    let ghost all = entries.deep_view();
    let order = stable_order(entries);
    let mut sorted: Vec<FileEntry> = Vec::new();
    let mut k: usize = 0;
    while k < order.len()
        invariant
            k <= order.len(),
            all == entries.deep_view(),
            is_stable_order(all, order@),
            sorted.len() == k,
            forall|i: int| 0 <= i < k ==> (#[trigger] sorted[i])@ == all[order[i] as int],
        decreases order.len() - k,
    {
        let entry = &entries[order[k]];
        assert(entry@ == all[order[k as int] as int]);
        sorted.push(FileEntry { path: entry.path.clone(), count: entry.count });
        k = k + 1;
    }
    proof {
        assert(sorted.deep_view() =~= arranged(all, order@));
        lemma_sorting_keeps_total(all, order@);
    }
    sorted
}

} // verus!
