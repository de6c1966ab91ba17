//! Total orders: lexicographic sequences, chained keys, and sorting of indices.

use vstd::prelude::*;
use vstd::relations::*;
use vstd::seq_lib::*;

verus! {

/// Dictionary order: the first place where two sequences differ decides, and a proper prefix
/// comes before what it is a prefix of.
pub open spec fn lex_le<T>(le: spec_fn(T, T) -> bool, a: Seq<T>, b: Seq<T>) -> bool
    decreases a.len(),
{
    if a.len() == 0 {
        true
    } else if b.len() == 0 {
        false
    } else if a[0] == b[0] {
        lex_le(le, a.drop_first(), b.drop_first())
    } else {
        le(a[0], b[0])
    }
}

/// Dictionary order as a relation.
pub open spec fn lex<T>(le: spec_fn(T, T) -> bool) -> spec_fn(Seq<T>, Seq<T>) -> bool {
    |a: Seq<T>, b: Seq<T>| lex_le(le, a, b)
}

/// Orders indices by a key, and by `rest` where the keys agree.
pub open spec fn by_key<K>(
    key: spec_fn(usize) -> K,
    le: spec_fn(K, K) -> bool,
    rest: spec_fn(usize, usize) -> bool,
) -> spec_fn(usize, usize) -> bool {
    |i: usize, j: usize|
        if key(i) == key(j) {
            rest(i, j)
        } else {
            le(key(i), key(j))
        }
}

/// Indices in their own order.
pub open spec fn by_index() -> spec_fn(usize, usize) -> bool {
    |i: usize, j: usize| i <= j
}

/// Characters by code point.
pub open spec fn char_order() -> spec_fn(char, char) -> bool {
    |a: char, b: char| a <= b
}

/// Bytes by value.
pub open spec fn byte_order() -> spec_fn(u8, u8) -> bool {
    |a: u8, b: u8| a <= b
}

/// Numbers, the greatest first.
pub open spec fn descending() -> spec_fn(u64, u64) -> bool {
    |a: u64, b: u64| a >= b
}

/// Texts in dictionary order of their code points.
pub open spec fn text_order() -> spec_fn(Seq<char>, Seq<char>) -> bool {
    lex(char_order())
}

proof fn lemma_lex_reflexive<T>(le: spec_fn(T, T) -> bool, a: Seq<T>)
    ensures
        lex_le(le, a, a),
    decreases a.len(),
{
    if a.len() > 0 {
        lemma_lex_reflexive(le, a.drop_first());
    }
}

proof fn lemma_lex_antisymmetric<T>(le: spec_fn(T, T) -> bool, a: Seq<T>, b: Seq<T>)
    requires
        total_ordering(le),
        lex_le(le, a, b),
        lex_le(le, b, a),
    ensures
        a == b,
    decreases a.len(),
{
    if a.len() > 0 && b.len() > 0 {
        assert(a[0] == b[0]);
        lemma_lex_antisymmetric(le, a.drop_first(), b.drop_first());
        assert(a =~= seq![a[0]] + a.drop_first());
        assert(b =~= seq![b[0]] + b.drop_first());
    } else {
        assert(a =~= b);
    }
}

proof fn lemma_lex_transitive<T>(le: spec_fn(T, T) -> bool, a: Seq<T>, b: Seq<T>, c: Seq<T>)
    requires
        total_ordering(le),
        lex_le(le, a, b),
        lex_le(le, b, c),
    ensures
        lex_le(le, a, c),
    decreases a.len(),
{
    if a.len() > 0 {
        if a[0] == b[0] && b[0] == c[0] {
            lemma_lex_transitive(le, a.drop_first(), b.drop_first(), c.drop_first());
        } else if a[0] == c[0] {
            assert(le(a[0], b[0]) && le(b[0], a[0]));
        } else {
            assert(le(a[0], b[0]) && le(b[0], c[0]));
        }
    }
}

proof fn lemma_lex_connected<T>(le: spec_fn(T, T) -> bool, a: Seq<T>, b: Seq<T>)
    requires
        total_ordering(le),
    ensures
        lex_le(le, a, b) || lex_le(le, b, a),
    decreases a.len(),
{
    if a.len() > 0 && b.len() > 0 {
        if a[0] == b[0] {
            lemma_lex_connected(le, a.drop_first(), b.drop_first());
        } else {
            assert(le(a[0], b[0]) || le(b[0], a[0]));
        }
    }
}

/// Dictionary order over a total order is a total order.
pub proof fn lemma_lex_total<T>(le: spec_fn(T, T) -> bool)
    requires
        total_ordering(le),
    ensures
        total_ordering(lex(le)),
{
    let r = lex(le);
    assert forall|a: Seq<T>| #[trigger] r(a, a) by {
        lemma_lex_reflexive(le, a);
    }
    assert forall|a: Seq<T>, b: Seq<T>| #[trigger] r(a, b) && #[trigger] r(b, a) implies a == b by {
        lemma_lex_antisymmetric(le, a, b);
    }
    assert forall|a: Seq<T>, b: Seq<T>, c: Seq<T>| #[trigger]
        r(a, b) && #[trigger] r(b, c) implies r(a, c) by {
        lemma_lex_transitive(le, a, b, c);
    }
    assert forall|a: Seq<T>, b: Seq<T>| #[trigger] r(a, b) || #[trigger] r(b, a) by {
        lemma_lex_connected(le, a, b);
    }
}

/// Equal beginnings do not matter to dictionary order.
pub proof fn lemma_lex_skip<T>(le: spec_fn(T, T) -> bool, a: Seq<T>, b: Seq<T>, n: int)
    requires
        0 <= n <= a.len(),
        n <= b.len(),
        a.take(n) == b.take(n),
    ensures
        lex_le(le, a, b) == lex_le(le, a.skip(n), b.skip(n)),
    decreases n,
{
    if n == 0 {
        assert(a.skip(0) =~= a);
        assert(b.skip(0) =~= b);
    } else {
        assert(a[0] == a.take(n)[0]);
        assert(b[0] == b.take(n)[0]);
        assert(a.drop_first().take(n - 1) =~= a.take(n).drop_first());
        assert(b.drop_first().take(n - 1) =~= b.take(n).drop_first());
        lemma_lex_skip(le, a.drop_first(), b.drop_first(), n - 1);
        assert(a.drop_first().skip(n - 1) =~= a.skip(n));
        assert(b.drop_first().skip(n - 1) =~= b.skip(n));
    }
}

/// A key order with a total tie-break is a total order.
pub proof fn lemma_by_key_total<K>(
    key: spec_fn(usize) -> K,
    le: spec_fn(K, K) -> bool,
    rest: spec_fn(usize, usize) -> bool,
)
    requires
        total_ordering(le),
        total_ordering(rest),
    ensures
        total_ordering(by_key(key, le, rest)),
{
    let r = by_key(key, le, rest);
    assert forall|a: usize, b: usize| #[trigger] r(a, b) && #[trigger] r(b, a) implies a == b by {
        if key(a) == key(b) {
            assert(rest(a, b) && rest(b, a));
        } else {
            assert(le(key(a), key(b)) && le(key(b), key(a)));
        }
    }
    assert forall|a: usize, b: usize, c: usize| #[trigger]
        r(a, b) && #[trigger] r(b, c) implies r(a, c) by {
        if key(a) == key(b) && key(b) == key(c) {
            assert(rest(a, b) && rest(b, c));
        } else if key(a) == key(c) {
            assert(le(key(a), key(b)) && le(key(b), key(a)));
        } else if key(a) != key(b) && key(b) != key(c) {
            assert(le(key(a), key(b)) && le(key(b), key(c)));
        }
    }
    assert forall|a: usize, b: usize| #[trigger] r(a, b) || #[trigger] r(b, a) by {
        if key(a) == key(b) {
            assert(rest(a, b) || rest(b, a));
        } else {
            assert(le(key(a), key(b)) || le(key(b), key(a)));
        }
    }
    assert forall|a: usize| #[trigger] r(a, a) by {
        assert(rest(a, a));
    }
}

/// The orders of this module are total.
pub proof fn lemma_base_orders_total()
    ensures
        total_ordering(by_index()),
        total_ordering(char_order()),
        total_ordering(byte_order()),
        total_ordering(descending()),
        total_ordering(text_order()),
{
    lemma_lex_total(char_order());
}

/// Whatever a function makes of the members of a sequence, it makes of them in any order.
pub proof fn lemma_map_permuted<A, B>(a: Seq<A>, b: Seq<A>, f: spec_fn(A) -> B)
    requires
        a.to_multiset() == b.to_multiset(),
    ensures
        a.map_values(f).to_multiset() == b.map_values(f).to_multiset(),
    decreases a.len(),
{
    broadcast use group_to_multiset_ensures;

    a.to_multiset_ensures();
    b.to_multiset_ensures();
    assert(a.len() == b.len());
    if a.len() == 0 {
        assert(a.map_values(f) =~= b.map_values(f));
    } else {
        let x = a.last();
        assert(a.contains(x));
        assert(a.to_multiset().count(x) > 0);
        assert(b.contains(x));
        let j = choose|j: int| 0 <= j < b.len() && b[j] == x;
        let shorter = b.remove(j);
        assert(a.drop_last() =~= a.remove(a.len() - 1));
        assert(a.drop_last().to_multiset() == shorter.to_multiset());
        lemma_map_permuted(a.drop_last(), shorter, f);
        let fa = a.map_values(f);
        let fb = b.map_values(f);
        fb.to_multiset_ensures();
        fa.to_multiset_ensures();
        assert(fa.drop_last() =~= a.drop_last().map_values(f));
        assert(fa.remove(fa.len() - 1) =~= fa.drop_last());
        assert(fb.remove(j) =~= shorter.map_values(f));
        assert(fa =~= fa.drop_last().push(f(x)));
        assert(fa.to_multiset() =~= fa.drop_last().to_multiset().insert(f(x)));
        assert(fb =~= fb.remove(j).insert(j, f(x)));
        to_multiset_insert(fb.remove(j), j, f(x));
        assert(fb.to_multiset() =~= fb.remove(j).to_multiset().insert(f(x)));
    }
}

/// Whether `a` stands no later than `b` in dictionary order.
pub fn text_le(a: &Vec<char>, b: &Vec<char>) -> (le: bool)
    ensures
        le == text_order()(a@, b@),
{
    let mut i: usize = 0;
    while i < a.len() && i < b.len()
        invariant
            i <= a.len(),
            i <= b.len(),
            a@.take(i as int) == b@.take(i as int),
        decreases a.len() - i,
    {
        if a[i] != b[i] {
            proof {
                lemma_lex_skip(char_order(), a@, b@, i as int);
                assert(a@.skip(i as int)[0] == a@[i as int]);
                assert(b@.skip(i as int)[0] == b@[i as int]);
            }
            return a[i] <= b[i];
        }
        assert(a@.take(i + 1) =~= a@.take(i as int).push(a@[i as int]));
        assert(b@.take(i + 1) =~= b@.take(i as int).push(b@[i as int]));
        i = i + 1;
    }
    proof {
        lemma_lex_skip(char_order(), a@, b@, i as int);
    }
    i == a.len()
}

/// Whether `a` stands no later than `b` in dictionary order of bytes.
pub fn bytes_le(a: &Vec<u8>, b: &Vec<u8>) -> (le: bool)
    ensures
        le == lex_le(byte_order(), a@, b@),
{
    let mut i: usize = 0;
    while i < a.len() && i < b.len()
        invariant
            i <= a.len(),
            i <= b.len(),
            a@.take(i as int) == b@.take(i as int),
        decreases a.len() - i,
    {
        if a[i] != b[i] {
            proof {
                lemma_lex_skip(byte_order(), a@, b@, i as int);
                assert(a@.skip(i as int)[0] == a@[i as int]);
                assert(b@.skip(i as int)[0] == b@[i as int]);
            }
            return a[i] <= b[i];
        }
        assert(a@.take(i + 1) =~= a@.take(i as int).push(a@[i as int]));
        assert(b@.take(i + 1) =~= b@.take(i as int).push(b@[i as int]));
        i = i + 1;
    }
    proof {
        lemma_lex_skip(byte_order(), a@, b@, i as int);
    }
    i == a.len()
}

/// A total order on the indices below some bound, with a procedure that decides it.
pub trait IndexOrder {
    /// The order itself.
    spec fn order(&self) -> spec_fn(usize, usize) -> bool;

    /// The number of indices that `le` can compare.
    spec fn bound(&self) -> nat;

    /// What the order's data has to satisfy.
    spec fn ready(&self) -> bool;

    proof fn order_is_total(&self)
        ensures
            total_ordering(self.order()),
    ;

    fn le(&self, i: usize, j: usize) -> (le: bool)
        requires
            self.ready(),
            i < self.bound(),
            j < self.bound(),
        ensures
            le == self.order()(i, j),
    ;
}

/// All indices lie below the bound of the order.
pub open spec fn within<O: IndexOrder>(order: &O, indices: Seq<usize>) -> bool {
    forall|k: int| 0 <= k < indices.len() ==> #[trigger] indices[k] < order.bound()
}

fn merge<O: IndexOrder>(order: &O, left: &Vec<usize>, right: &Vec<usize>) -> (merged: Vec<usize>)
    requires
        order.ready(),
        within(order, left@),
        within(order, right@),
        sorted_by(left@, order.order()),
        sorted_by(right@, order.order()),
    ensures
        sorted_by(merged@, order.order()),
        merged@.to_multiset() == (left@ + right@).to_multiset(),
{
    broadcast use group_to_multiset_ensures;

    let ghost leq = order.order();
    proof {
        order.order_is_total();
    }
    let mut merged: Vec<usize> = Vec::new();
    let mut i: usize = 0;
    let mut j: usize = 0;
    assert(left@.take(0) + right@.take(0) =~= Seq::<usize>::empty());
    while i < left.len() || j < right.len()
        invariant
            leq == order.order(),
            total_ordering(leq),
            order.ready(),
            within(order, left@),
            within(order, right@),
            sorted_by(left@, leq),
            sorted_by(right@, leq),
            i <= left.len(),
            j <= right.len(),
            sorted_by(merged@, leq),
            merged@.to_multiset() == (left@.take(i as int) + right@.take(j as int)).to_multiset(),
            forall|k: int, l: int|
                0 <= k < merged@.len() && i <= l < left@.len() ==> leq(
                    #[trigger] merged@[k],
                    #[trigger] left@[l],
                ),
            forall|k: int, l: int|
                0 <= k < merged@.len() && j <= l < right@.len() ==> leq(
                    #[trigger] merged@[k],
                    #[trigger] right@[l],
                ),
        decreases left.len() - i + right.len() - j,
    {
        let take_left = if i == left.len() {
            false
        } else if j == right.len() {
            true
        } else {
            order.le(left[i], right[j])
        };
        let ghost before = merged@;
        if take_left {
            let x = left[i];
            assert forall|l: int| j <= l < right@.len() implies leq(x, #[trigger] right@[l]) by {
                assert(leq(x, right@[j as int]));
                assert(leq(right@[j as int], right@[l]));
            }
            assert(left@.take(i + 1) + right@.take(j as int) =~= (left@.take(i as int)
                + right@.take(j as int)).insert(i as int, x));
            proof {
                to_multiset_insert(left@.take(i as int) + right@.take(j as int), i as int, x);
                to_multiset_build(before, x);
            }
            merged.push(x);
            i = i + 1;
        } else {
            let x = right[j];
            assert forall|l: int| i <= l < left@.len() implies leq(x, #[trigger] left@[l]) by {
                assert(leq(x, left@[i as int]));
                assert(leq(left@[i as int], left@[l]));
            }
            assert(left@.take(i as int) + right@.take(j + 1) =~= (left@.take(i as int)
                + right@.take(j as int)).push(x));
            proof {
                to_multiset_build(left@.take(i as int) + right@.take(j as int), x);
                to_multiset_build(before, x);
            }
            merged.push(x);
            j = j + 1;
        }
        assert forall|k: int, l: int| 0 <= k < l < merged@.len() implies leq(
            #[trigger] merged@[k],
            #[trigger] merged@[l],
        ) by {
            if l < before.len() {
                assert(leq(before[k], before[l]));
            } else {
                assert(merged@[k] == before[k]);
            }
        }
    }
    assert(left@.take(i as int) =~= left@);
    assert(right@.take(j as int) =~= right@);
    merged
}

/// The indices in the given order.
pub fn sort_indices<O: IndexOrder>(order: &O, indices: &Vec<usize>) -> (sorted: Vec<usize>)
    requires
        order.ready(),
        within(order, indices@),
    ensures
        sorted@ == indices@.sort_by(order.order()),
    decreases indices.len(),
{
    broadcast use group_to_multiset_ensures;

    proof {
        order.order_is_total();
        indices@.lemma_sort_by_ensures(order.order());
    }
    if indices.len() <= 1 {
        let sorted = indices.clone();
        proof {
            lemma_sorted_unique(sorted@, indices@.sort_by(order.order()), order.order());
        }
        return sorted;
    }
    let middle: usize = indices.len() / 2;
    let mut left: Vec<usize> = Vec::new();
    let mut right: Vec<usize> = Vec::new();
    let mut i: usize = 0;
    while i < indices.len()
        invariant
            i <= indices.len(),
            middle == indices.len() / 2,
            left@ == indices@.take(if i <= middle {
                i as int
            } else {
                middle as int
            }),
            right@ == (if i <= middle {
                Seq::<usize>::empty()
            } else {
                indices@.subrange(middle as int, i as int)
            }),
        decreases indices.len() - i,
    {
        if i < middle {
            left.push(indices[i]);
            assert(left@ =~= indices@.take(i + 1));
        } else {
            right.push(indices[i]);
            assert(right@ =~= indices@.subrange(middle as int, i + 1));
        }
        i = i + 1;
    }
    assert(left@ + right@ =~= indices@);
    proof {
        assert forall|k: int| 0 <= k < left@.len() implies #[trigger] left@[k] < order.bound() by {
            assert(left@[k] == indices@[k]);
        }
        assert forall|k: int| 0 <= k < right@.len() implies #[trigger] right@[k] < order.bound() by {
            assert(right@[k] == indices@[k + middle]);
        }
    }
    let left_sorted = sort_indices(order, &left);
    let right_sorted = sort_indices(order, &right);
    proof {
        left@.lemma_sort_by_ensures(order.order());
        right@.lemma_sort_by_ensures(order.order());
        lemma_sort_keeps_within(order, left@);
        lemma_sort_keeps_within(order, right@);
    }
    let sorted = merge(order, &left_sorted, &right_sorted);
    proof {
        lemma_multiset_commutative(left@, right@);
        lemma_multiset_commutative(left_sorted@, right_sorted@);
        lemma_sorted_unique(sorted@, indices@.sort_by(order.order()), order.order());
    }
    sorted
}

/// Sorting keeps indices below the bound.
pub proof fn lemma_sort_keeps_within<O: IndexOrder>(order: &O, indices: Seq<usize>)
    requires
        within(order, indices),
    ensures
        within(order, indices.sort_by(order.order())),
{
    order.order_is_total();
    indices.lemma_sort_by_ensures(order.order());
    let sorted = indices.sort_by(order.order());
    assert forall|k: int| 0 <= k < sorted.len() implies #[trigger] sorted[k] < order.bound() by {
        assert(sorted.contains(sorted[k]));
        assert(indices.contains(sorted[k]));
    }
}

}
