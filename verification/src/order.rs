//! Newest-first ordering of listings, stable for equal keys, as
//! `sort_by(|a, b| b.key.cmp(&a.key))` orders them.
use vstd::prelude::*;

use crate::clock::Moment;
use crate::text::to_chars;

verus! {

/// A key with a total preorder, by which listings are ordered.
pub trait SortKey: Sized {
    /// `self` sorts no later than `other` in ascending order.
    spec fn key_le(&self, other: &Self) -> bool;

    proof fn lemma_total(a: &Self, b: &Self)
        ensures
            a.key_le(b) || b.key_le(a),
    ;

    proof fn lemma_transitive(a: &Self, b: &Self, c: &Self)
        requires
            a.key_le(b),
            b.key_le(c),
        ensures
            a.key_le(c),
    ;

    /// Whether `self` is strictly greater than `other`.
    fn greater_than(&self, other: &Self) -> (r: bool)
        ensures
            r == !self.key_le(other),
    ;
}

impl SortKey for Moment {
    open spec fn key_le(&self, other: &Self) -> bool {
        !self.later_than(other)
    }

    proof fn lemma_total(a: &Self, b: &Self) {
    }

    proof fn lemma_transitive(a: &Self, b: &Self, c: &Self) {
    }

    fn greater_than(&self, other: &Self) -> (r: bool) {
        self.is_later_than(other)
    }
}

/// Lexicographic order of character sequences by code point, which is the
/// order of their UTF-8 bytes.
pub open spec fn lex_le(a: Seq<char>, b: Seq<char>) -> bool
    decreases a.len(),
{
    if a.len() == 0 {
        true
    } else if b.len() == 0 {
        false
    } else if a[0] != b[0] {
        a[0] < b[0]
    } else {
        lex_le(a.drop_first(), b.drop_first())
    }
}

proof fn lemma_lex_total(a: Seq<char>, b: Seq<char>)
    ensures
        lex_le(a, b) || lex_le(b, a),
    decreases a.len(),
{
    if a.len() > 0 && b.len() > 0 && a[0] == b[0] {
        lemma_lex_total(a.drop_first(), b.drop_first());
    }
}

proof fn lemma_lex_transitive(a: Seq<char>, b: Seq<char>, c: Seq<char>)
    requires
        lex_le(a, b),
        lex_le(b, c),
    ensures
        lex_le(a, c),
    decreases a.len(),
{
    if a.len() > 0 && b.len() > 0 && c.len() > 0 && a[0] == b[0] && b[0] == c[0] {
        lemma_lex_transitive(a.drop_first(), b.drop_first(), c.drop_first());
    }
}

impl SortKey for String {
    open spec fn key_le(&self, other: &Self) -> bool {
        lex_le(self@, other@)
    }

    proof fn lemma_total(a: &Self, b: &Self) {
        lemma_lex_total(a@, b@);
    }

    proof fn lemma_transitive(a: &Self, b: &Self, c: &Self) {
        lemma_lex_transitive(a@, b@, c@);
    }

    fn greater_than(&self, other: &Self) -> (r: bool) {
        let a = to_chars(self.as_str());
        let b = to_chars(other.as_str());
        let mut i: usize = 0;
        assert(a@.skip(0) =~= a@);
        assert(b@.skip(0) =~= b@);
        while i < a.len() && i < b.len() && a[i] == b[i]
            invariant
                a@ == self@,
                b@ == other@,
                0 <= i <= a@.len(),
                i <= b@.len(),
                lex_le(a@, b@) == lex_le(a@.skip(i as int), b@.skip(i as int)),
            decreases a@.len() - i,
        {
            assert(a@.skip(i as int).drop_first() =~= a@.skip(i + 1));
            assert(b@.skip(i as int).drop_first() =~= b@.skip(i + 1));
            i = i + 1;
        }
        if i == a.len() {
            false
        } else if i == b.len() {
            true
        } else {
            a[i] > b[i]
        }
    }
}

/// Whether, in a newest-first listing, item `i` comes before item `j`: it
/// has the greater key, or an equal key and the earlier position.
pub open spec fn comes_first<K: SortKey>(keys: Seq<K>, i: int, j: int) -> bool {
    ||| !keys[i].key_le(&keys[j])
    ||| (keys[i].key_le(&keys[j]) && keys[j].key_le(&keys[i]) && i < j)
}

/// Some entry of `order` is `j`.
pub open spec fn lists(order: Seq<usize>, j: int) -> bool {
    exists|p: int| 0 <= p < order.len() && order[p] == j
}

/// `order` lists every position of `keys` exactly once, newest first, with
/// equal keys in their original order.
pub open spec fn is_newest_first<K: SortKey>(keys: Seq<K>, order: Seq<usize>) -> bool {
    &&& order.len() == keys.len()
    &&& forall|p: int| 0 <= p < order.len() ==> #[trigger] order[p] < keys.len()
    &&& forall|p: int, q: int|
        0 <= p < order.len() && 0 <= q < order.len() && p != q ==> #[trigger] order[p]
            != #[trigger] order[q]
    &&& forall|j: int| 0 <= j < keys.len() ==> #[trigger] lists(order, j)
    &&& forall|p: int, q: int|
        0 <= p < q < order.len() ==> comes_first(keys, #[trigger] order[p] as int, #[trigger] order[q] as int)
}

/// The positions of `keys`, newest (greatest key) first; equal keys keep
/// their original order.
pub fn newest_first<K: SortKey>(keys: &Vec<K>) -> (order: Vec<usize>)
    ensures
        is_newest_first(keys@, order@),
{
    let n = keys.len();
    let mut order: Vec<usize> = Vec::new();
    let mut i: usize = 0;
    while i < n
        invariant
            n == keys@.len(),
            0 <= i <= n,
            order@.len() == i,
            forall|p: int| 0 <= p < order@.len() ==> #[trigger] order@[p] < i,
            forall|p: int, q: int|
                0 <= p < order@.len() && 0 <= q < order@.len() && p != q ==> #[trigger] order@[p]
                    != #[trigger] order@[q],
            forall|j: int| 0 <= j < i ==> #[trigger] lists(order@, j),
            forall|p: int, q: int|
                0 <= p < q < order@.len() ==> comes_first(
                    keys@,
                    #[trigger] order@[p] as int,
                    #[trigger] order@[q] as int,
                ),
        decreases n - i,
    {
        let mut pos: usize = 0;
        while pos < order.len() && !keys[i].greater_than(&keys[order[pos]])
            invariant
                n == keys@.len(),
                0 <= i < n,
                0 <= pos <= order@.len(),
                forall|p: int| 0 <= p < order@.len() ==> #[trigger] order@[p] < i,
                forall|p: int| 0 <= p < pos ==> keys@[i as int].key_le(&keys@[#[trigger] order@[p] as int]),
            decreases order@.len() - pos,
        {
            pos = pos + 1;
        }
        let ghost old_order = order@;
        order.insert(pos, i);
        proof {
            old_order.insert_ensures(pos as int, i);
            let s = order@;
            assert forall|p: int| 0 <= p < s.len() implies #[trigger] s[p] < i + 1 by {
                if p < pos {
                    assert(s[p] == old_order[p]);
                } else if p > pos {
                    assert(s[p] == old_order[p - 1]);
                }
            }
            assert forall|p: int, q: int|
                0 <= p < s.len() && 0 <= q < s.len() && p != q implies #[trigger] s[p] != #[trigger] s[q] by {
                let p0 = if p < pos { p } else { p - 1 };
                let q0 = if q < pos { q } else { q - 1 };
                if p != pos as int {
                    assert(s[p] == old_order[p0]);
                }
                if q != pos as int {
                    assert(s[q] == old_order[q0]);
                }
            }
            assert forall|j: int| 0 <= j < i + 1 implies #[trigger] lists(s, j) by {
                if j == i {
                    assert(s[pos as int] == j);
                } else {
                    assert(lists(old_order, j));
                    let p0 = choose|p: int| 0 <= p < old_order.len() && old_order[p] == j;
                    if p0 < pos {
                        assert(s[p0] == j);
                    } else {
                        assert(s[p0 + 1] == j);
                    }
                }
            }
            assert forall|p: int, q: int| 0 <= p < q < s.len() implies comes_first(
                keys@,
                #[trigger] s[p] as int,
                #[trigger] s[q] as int,
            ) by {
                let ki = keys@[i as int];
                if p == pos && q > pos {
                    let b = old_order[q - 1];
                    assert(s[q] == b);
                    assert(pos < old_order.len());
                    let top = old_order[pos as int];
                    assert(!ki.key_le(&keys@[top as int]));
                    if q - 1 > pos {
                        assert(comes_first(keys@, old_order[pos as int] as int, old_order[q - 1] as int));
                    }
                    K::lemma_total(&keys@[b as int], &keys@[top as int]);
                    if ki.key_le(&keys@[b as int]) {
                        K::lemma_transitive(&ki, &keys@[b as int], &keys@[top as int]);
                    }
                } else if q == pos && p < pos {
                    let a = old_order[p];
                    assert(s[p] == a);
                    assert(ki.key_le(&keys@[a as int]));
                } else {
                    let p0 = if p < pos { p } else { p - 1 };
                    let q0 = if q < pos { q } else { q - 1 };
                    assert(s[p] == old_order[p0]);
                    assert(s[q] == old_order[q0]);
                }
            }
        }
        i = i + 1;
    }
    order
}

/// The positions that `order` lists, each at its first mention only.
pub open spec fn first_mentions(order: Seq<usize>) -> Seq<usize>
    decreases order.len(),
{
    if order.len() == 0 {
        Seq::empty()
    } else {
        let before = first_mentions(order.drop_last());
        if order.drop_last().contains(order.last()) {
            before
        } else {
            before.push(order.last())
        }
    }
}

/// The items at the positions that `order` lists, in that order; a position
/// listed again gives nothing the second time.
pub open spec fn reordered<T>(items: Seq<T>, order: Seq<usize>) -> Seq<T> {
    first_mentions(order).map_values(|k: usize| items[k as int])
}

proof fn lemma_first_mentions_distinct(order: Seq<usize>)
    requires
        forall|p: int, q: int|
            0 <= p < order.len() && 0 <= q < order.len() && p != q ==> #[trigger] order[p]
                != #[trigger] order[q],
    ensures
        first_mentions(order) == order,
    decreases order.len(),
{
    if order.len() > 0 {
        let before = order.drop_last();
        lemma_first_mentions_distinct(before);
        if before.contains(order.last()) {
            let p = choose|p: int| 0 <= p < before.len() && before[p] == order.last();
            assert(order[p] == order[order.len() - 1]);
        }
        assert(before.push(order.last()) =~= order);
    }
}

/// Puts `items` in the order of the positions that `order` lists. When
/// `order` names no position twice, the result holds exactly the listed
/// items, one per entry of `order`.
pub fn apply_order<T>(items: Vec<T>, order: &Vec<usize>) -> (r: Vec<T>)
    requires
        forall|p: int| 0 <= p < order@.len() ==> #[trigger] order@[p] < items@.len(),
    ensures
        r@ == reordered(items@, order@),
        (forall|p: int, q: int|
            0 <= p < order@.len() && 0 <= q < order@.len() && p != q ==> #[trigger] order@[p]
                != #[trigger] order@[q]) ==> r@ == order@.map_values(|k: usize| items@[k as int]),
{
    let ghost whole = items@;
    let n = items.len();
    let mut slots: Vec<Option<T>> = Vec::new();
    for x in it: items
        invariant
            it.seq() == whole,
            slots@ == it.seq().take(it.index() as int).map_values(|v: T| Some(v)),
    {
        slots.push(Some(x));
    }
    assert(whole.take(whole.len() as int) =~= whole);
    let mut out: Vec<T> = Vec::new();
    let mut p: usize = 0;
    while p < order.len()
        invariant
            n == whole.len(),
            0 <= p <= order@.len(),
            forall|q: int| 0 <= q < order@.len() ==> #[trigger] order@[q] < n,
            slots@.len() == n,
            forall|k: int|
                0 <= k < n ==> #[trigger] slots@[k] == if order@.take(p as int).contains(
                    k as usize,
                ) {
                    None
                } else {
                    Some(whole[k])
                },
            out@ == reordered(whole, order@.take(p as int)),
        decreases order@.len() - p,
    {
        let i = order[p];
        let ghost before = order@.take(p as int);
        let ghost after = order@.take(p + 1);
        assert(after.drop_last() =~= before);
        let taken = slots.remove(i);
        slots.insert(i, None);
        assert forall|k: int| 0 <= k < n implies #[trigger] after.contains(k as usize) == (
        before.contains(k as usize) || k == i) by {
            if after.contains(k as usize) {
                let q = choose|q: int| 0 <= q < after.len() && after[q] == k as usize;
                if q < p {
                    assert(before[q] == k as usize);
                }
            }
            if before.contains(k as usize) {
                let q = choose|q: int| 0 <= q < before.len() && before[q] == k as usize;
                assert(after[q] == k as usize);
            }
            if k == i {
                assert(after[p as int] == i);
            }
        }
        match taken {
            Some(v) => {
                out.push(v);
                assert(!before.contains(i));
                assert(out@ =~= reordered(whole, after));
            },
            None => {
                assert(before.contains(i));
                assert(out@ =~= reordered(whole, after));
            },
        }
        p = p + 1;
    }
    assert(order@.take(order@.len() as int) =~= order@);
    proof {
        if forall|p: int, q: int|
            0 <= p < order@.len() && 0 <= q < order@.len() && p != q ==> #[trigger] order@[p]
                != #[trigger] order@[q] {
            lemma_first_mentions_distinct(order@);
        }
    }
    out
}

/// Code-point order of texts: where `a` and `b` first differ, at position
/// `i`, `a` has the larger character, or `b` ends there while `a` goes on;
/// then `a` sorts strictly after `b`.
pub proof fn law_text_order(a: Seq<char>, b: Seq<char>, i: int)
    requires
        0 <= i < a.len(),
        i <= b.len(),
        forall|j: int| 0 <= j < i ==> a[j] == b[j],
        i == b.len() || a[i] > b[i],
    ensures
        lex_le(b, a),
        !lex_le(a, b),
    decreases i,
{
    if i > 0 {
        assert(a[0] == b[0]);
        assert forall|j: int| 0 <= j < i - 1 implies a.drop_first()[j] == b.drop_first()[j] by {
            assert(a[j + 1] == b[j + 1]);
        }
        law_text_order(a.drop_first(), b.drop_first(), i - 1);
    }
}

/// A newest-first listing of texts never lists a text after one it sorts
/// before: if the text listed later first differs from the one listed
/// earlier at position `i`, it does not have the larger character there,
/// and it is not the longer one with the other as its prefix.
pub proof fn law_text_listing(keys: Seq<String>, order: Seq<usize>, p: int, q: int, i: int)
    requires
        is_newest_first(keys, order),
        0 <= p < q < order.len(),
    ensures
        ({
            let earlier = keys[order[p] as int]@;
            let later = keys[order[q] as int]@;
            !(0 <= i < later.len() && i <= earlier.len() && (forall|j: int|
                0 <= j < i ==> later[j] == earlier[j]) && (i == earlier.len() || later[i]
                > earlier[i]))
        }),
{
    let earlier = keys[order[p] as int]@;
    let later = keys[order[q] as int]@;
    assert(comes_first(keys, order[p] as int, order[q] as int));
    if 0 <= i < later.len() && i <= earlier.len() && (forall|j: int|
        0 <= j < i ==> later[j] == earlier[j]) && (i == earlier.len() || later[i] > earlier[i]) {
        law_text_order(later, earlier, i);
    }
}

/// A newest-first listing of instants never lists an instant before an
/// earlier one: each listed instant has at least the seconds since the
/// epoch of every one listed after it, and at equal seconds at least its
/// nanoseconds.
pub proof fn law_instant_listing(keys: Seq<Moment>, order: Seq<usize>, p: int, q: int)
    requires
        is_newest_first(keys, order),
        0 <= p < q < order.len(),
    ensures
        ({
            let earlier = keys[order[p] as int];
            let later = keys[order[q] as int];
            earlier.unix_secs() > later.unix_secs() || (earlier.unix_secs() == later.unix_secs()
                && earlier.subsec_nanos() >= later.subsec_nanos())
        }),
{
    assert(comes_first(keys, order[p] as int, order[q] as int));
}

/// A newest-first listing lists every position exactly once, and keeps
/// equal keys in their original order: of two equal texts, or two equal
/// instants, the one at the earlier position is listed first.
pub proof fn law_listing_is_stable_permutation<K: SortKey>(keys: Seq<K>, order: Seq<usize>)
    requires
        is_newest_first(keys, order),
    ensures
        order.len() == keys.len(),
        forall|p: int| 0 <= p < order.len() ==> #[trigger] order[p] < keys.len(),
        forall|j: int| 0 <= j < keys.len() ==> #[trigger] lists(order, j),
        forall|p: int, q: int|
            0 <= p < q < order.len() ==> #[trigger] order[p] != #[trigger] order[q],
{
}

/// Equal texts keep their original order in a newest-first listing.
pub proof fn law_equal_texts_keep_order(keys: Seq<String>, order: Seq<usize>, p: int, q: int)
    requires
        is_newest_first(keys, order),
        0 <= p < q < order.len(),
        keys[order[p] as int]@ == keys[order[q] as int]@,
    ensures
        order[p] < order[q],
{
    assert(comes_first(keys, order[p] as int, order[q] as int));
    lemma_lex_reflexive(keys[order[p] as int]@);
}

proof fn lemma_lex_reflexive(a: Seq<char>)
    ensures
        lex_le(a, a),
    decreases a.len(),
{
    if a.len() > 0 {
        lemma_lex_reflexive(a.drop_first());
    }
}

/// Equal instants keep their original order in a newest-first listing.
pub proof fn law_equal_instants_keep_order(keys: Seq<Moment>, order: Seq<usize>, p: int, q: int)
    requires
        is_newest_first(keys, order),
        0 <= p < q < order.len(),
        keys[order[p] as int].unix_secs() == keys[order[q] as int].unix_secs(),
        keys[order[p] as int].subsec_nanos() == keys[order[q] as int].subsec_nanos(),
    ensures
        order[p] < order[q],
{
    assert(comes_first(keys, order[p] as int, order[q] as int));
}

} // verus!
