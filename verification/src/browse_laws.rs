//! What holds of the library view: what is shown, how it is grouped, and what can be selected.

use vstd::prelude::*;
use vstd::relations::*;
use vstd::seq_lib::*;

use crate::browse;
use crate::browse::RowView;
use crate::library;
use crate::library::ItemView;
use crate::order;
use crate::storage::{ResumeEntryView, SortMode};

verus! {

/// The items that some rows show, in the order of the rows.
pub open spec fn row_items(rows: Seq<RowView>) -> Seq<usize>
    decreases rows.len(),
{
    if rows.len() == 0 {
        seq![]
    } else {
        match rows.last() {
            RowView::Item { item_index } => row_items(rows.drop_last()).push(item_index),
            RowView::GroupHeader { .. } => row_items(rows.drop_last()),
        }
    }
}

proof fn lemma_row_items_concat(a: Seq<RowView>, b: Seq<RowView>)
    ensures
        row_items(a + b) == row_items(a) + row_items(b),
    decreases b.len(),
{
    if b.len() == 0 {
        assert(a + b =~= a);
        assert(row_items(a) + row_items(b) =~= row_items(a));
    } else {
        assert((a + b).drop_last() =~= a + b.drop_last());
        assert((a + b).last() == b.last());
        lemma_row_items_concat(a, b.drop_last());
        assert(row_items(a + b) =~= row_items(a) + row_items(b));
    }
}

proof fn lemma_rows_show_indices(
    list: Seq<ItemView>,
    indices: Seq<usize>,
    k: int,
    group: Seq<char>,
)
    requires
        0 <= k <= indices.len(),
    ensures
        row_items(browse::rows_from(list, indices, k, group)) == indices.skip(k),
    decreases indices.len() - k,
{
    reveal_with_fuel(row_items, 3);
    if k < indices.len() {
        let label = browse::label_at(list, indices, k);
        let item = RowView::Item { item_index: indices[k] };
        let head = RowView::GroupHeader {
            title: label,
            count: browse::run_len(list, indices, k, label),
        };
        let rest = browse::rows_from(list, indices, k + 1, label);
        lemma_rows_show_indices(list, indices, k + 1, label);
        assert(seq![item].drop_last() =~= seq![]);
        assert(seq![head, item].drop_last() =~= seq![head]);
        assert(seq![head].drop_last() =~= seq![]);
        assert(row_items(seq![item]) =~= seq![indices[k]]);
        assert(row_items(seq![head, item]) =~= seq![indices[k]]);
        if label == group {
            lemma_row_items_concat(seq![item], rest);
        } else {
            lemma_row_items_concat(seq![head, item], rest);
        }
        assert(seq![indices[k]] + indices.skip(k + 1) =~= indices.skip(k));
    } else {
        assert(indices.skip(k) =~= seq![]);
    }
}

/// Every number is smaller than the ones after it.
spec fn increasing(s: Seq<usize>) -> bool {
    forall|j: int, k: int| 0 <= j < k < s.len() ==> #[trigger] s[j] < #[trigger] s[k]
}

proof fn lemma_filter_facts(count: nat, keep: spec_fn(usize) -> bool)
    requires
        count <= usize::MAX,
    ensures
        increasing(library::indices_below(count).filter(keep)),
        forall|i: usize| #[trigger]
            library::indices_below(count).filter(keep).contains(i) <==> i < count && keep(i),
    decreases count,
{
    reveal(Seq::filter);
    let all = library::indices_below(count);
    if count > 0 {
        let fewer = library::indices_below((count - 1) as nat);
        lemma_filter_facts((count - 1) as nat, keep);
        assert(all.drop_last() =~= fewer);
        let last = (count - 1) as usize;
        assert(all.last() == last);
        let kept = fewer.filter(keep);
        let now = all.filter(keep);
        assert forall|k: int| 0 <= k < kept.len() implies #[trigger] kept[k] < last by {
            assert(kept.contains(kept[k]));
        }
        assert forall|i: usize| #[trigger] now.contains(i) <==> i < count && keep(i) by {
            if now.contains(i) {
                let k = choose|k: int| 0 <= k < now.len() && now[k] == i;
                if k < kept.len() {
                    assert(kept.contains(kept[k]));
                }
            }
            if i < count && keep(i) {
                if i == last {
                    assert(now[now.len() - 1] == last);
                } else {
                    assert(kept.contains(i));
                    let k = choose|k: int| 0 <= k < kept.len() && kept[k] == i;
                    assert(now[k] == i);
                }
            }
        }
    } else {
        assert(all =~= seq![]);
    }
}

proof fn lemma_shown_is_sorted_match(
    list: Seq<ItemView>,
    query: Seq<char>,
    mode: SortMode,
    resume: Map<Seq<char>, ResumeEntryView>,
    follow: bool,
)
    requires
        list.len() <= usize::MAX,
    ensures
        ({
            let all = browse::shown(list, query, mode, resume, follow);
            &&& sorted_by(all, browse::arrangement(list, mode, resume, follow))
            &&& all.to_multiset() == browse::matching(list, query).to_multiset()
            &&& all.no_duplicates()
            &&& forall|i: usize| #[trigger]
                all.contains(i) <==> i < list.len() && browse::passes(query, list[i as int])
        }),
{
    let leq = browse::arrangement(list, mode, resume, follow);
    let keep = |i: usize| browse::passes(query, list[i as int]);
    let found = browse::matching(list, query);
    let all = browse::shown(list, query, mode, resume, follow);
    browse::lemma_arrangement_total(list, mode, resume, follow);
    found.lemma_sort_by_ensures(leq);
    lemma_filter_facts(list.len(), keep);
    assert(found.no_duplicates());
    found.lemma_multiset_has_no_duplicates();
    all.lemma_multiset_has_no_duplicates_conv();
    found.to_multiset_ensures();
    all.to_multiset_ensures();
    assert forall|i: usize| #[trigger] all.contains(i) <==> i < list.len() && browse::passes(
        query,
        list[i as int],
    ) by {
        assert(all.contains(i) <==> all.to_multiset().count(i) > 0);
        assert(found.contains(i) <==> found.to_multiset().count(i) > 0);
    }
}

/// The rows show exactly the items that the filter lets through, each of them once, and in the
/// order of the sort mode.
pub proof fn law_each_match_is_shown_once(
    list: Seq<ItemView>,
    query: Seq<char>,
    mode: SortMode,
    resume: Map<Seq<char>, ResumeEntryView>,
    follow: bool,
)
    requires
        list.len() <= usize::MAX,
    ensures
        ({
            let all = row_items(
                browse::rows_of(list, browse::shown(list, query, mode, resume, follow)),
            );
            &&& all == browse::shown(list, query, mode, resume, follow)
            &&& all.no_duplicates()
            &&& sorted_by(all, browse::arrangement(list, mode, resume, follow))
            &&& forall|i: usize| #[trigger]
                all.contains(i) <==> i < list.len() && browse::passes(query, list[i as int])
        }),
{
    let all = browse::shown(list, query, mode, resume, follow);
    lemma_shown_is_sorted_match(list, query, mode, resume, follow);
    lemma_rows_show_indices(list, all, 0, ""@);
    assert(all.skip(0) =~= all);
}

/// An empty filter lets every item through.
pub proof fn law_empty_filter_shows_all(
    list: Seq<ItemView>,
    mode: SortMode,
    resume: Map<Seq<char>, ResumeEntryView>,
    follow: bool,
    i: usize,
)
    requires
        list.len() <= usize::MAX,
        i < list.len(),
    ensures
        row_items(
            browse::rows_of(list, browse::shown(list, seq![], mode, resume, follow)),
        ).contains(i),
{
    law_each_match_is_shown_once(list, seq![], mode, resume, follow);
}

/// The groups of some items, in their order.
pub open spec fn labels_of(list: Seq<ItemView>, indices: Seq<usize>) -> Seq<Seq<char>> {
    indices.map_values(|i: usize| list[i as int].parent_label)
}

proof fn lemma_labels_ascend(
    list: Seq<ItemView>,
    query: Seq<char>,
    mode: SortMode,
    resume: Map<Seq<char>, ResumeEntryView>,
    follow: bool,
)
    requires
        list.len() <= usize::MAX,
    ensures
        sorted_by(
            labels_of(list, browse::shown(list, query, mode, resume, follow)),
            order::text_order(),
        ),
{
    let all = browse::shown(list, query, mode, resume, follow);
    let leq = browse::arrangement(list, mode, resume, follow);
    let labels = labels_of(list, all);
    lemma_shown_is_sorted_match(list, query, mode, resume, follow);
    order::lemma_base_orders_total();
    assert forall|j: int, k: int| 0 <= j < k < labels.len() implies order::text_order()(
        #[trigger] labels[j],
        #[trigger] labels[k],
    ) by {
        assert(leq(all[j], all[k]));
        if labels[j] == labels[k] {
            assert(order::text_order()(labels[j], labels[j]));
        }
    }
}

/// The groups that are shown, with repetition, do not depend on the sort mode or on what has been
/// played.
proof fn lemma_same_labels(
    list: Seq<ItemView>,
    query: Seq<char>,
    mode: SortMode,
    resume: Map<Seq<char>, ResumeEntryView>,
    other_mode: SortMode,
    other_resume: Map<Seq<char>, ResumeEntryView>,
    follow: bool,
)
    requires
        list.len() <= usize::MAX,
    ensures
        labels_of(list, browse::shown(list, query, mode, resume, follow)) == labels_of(
            list,
            browse::shown(list, query, other_mode, other_resume, follow),
        ),
{
    let a = browse::shown(list, query, mode, resume, follow);
    let b = browse::shown(list, query, other_mode, other_resume, follow);
    lemma_shown_is_sorted_match(list, query, mode, resume, follow);
    lemma_shown_is_sorted_match(list, query, other_mode, other_resume, follow);
    lemma_labels_ascend(list, query, mode, resume, follow);
    lemma_labels_ascend(list, query, other_mode, other_resume, follow);
    order::lemma_map_permuted(a, b, |i: usize| list[i as int].parent_label);
    order::lemma_base_orders_total();
    lemma_sorted_unique(labels_of(list, a), labels_of(list, b), order::text_order());
}

/// Two views have the same heads in the same places.
pub open spec fn same_heads(a: Seq<RowView>, b: Seq<RowView>) -> bool {
    &&& a.len() == b.len()
    &&& forall|r: int|
        #![trigger a[r]]
        #![trigger b[r]]
        0 <= r < a.len() ==> (a[r] is Item && b[r] is Item) || a[r] == b[r]
}

proof fn lemma_run_by_labels(
    list: Seq<ItemView>,
    a: Seq<usize>,
    b: Seq<usize>,
    k: int,
    label: Seq<char>,
)
    requires
        labels_of(list, a) == labels_of(list, b),
        0 <= k,
    ensures
        browse::run_len(list, a, k, label) == browse::run_len(list, b, k, label),
    decreases a.len() - k,
{
    assert(labels_of(list, a).len() == a.len());
    assert(labels_of(list, b).len() == b.len());
    if k < a.len() {
        assert(labels_of(list, a)[k] == browse::label_at(list, a, k));
        assert(labels_of(list, b)[k] == browse::label_at(list, b, k));
        lemma_run_by_labels(list, a, b, k + 1, label);
    }
}

proof fn lemma_heads_by_labels(
    list: Seq<ItemView>,
    a: Seq<usize>,
    b: Seq<usize>,
    k: int,
    group: Seq<char>,
)
    requires
        labels_of(list, a) == labels_of(list, b),
        0 <= k,
    ensures
        same_heads(browse::rows_from(list, a, k, group), browse::rows_from(list, b, k, group)),
    decreases a.len() - k,
{
    assert(labels_of(list, a).len() == a.len());
    assert(labels_of(list, b).len() == b.len());
    if k < a.len() {
        assert(labels_of(list, a)[k] == browse::label_at(list, a, k));
        assert(labels_of(list, b)[k] == browse::label_at(list, b, k));
        let label = browse::label_at(list, a, k);
        lemma_heads_by_labels(list, a, b, k + 1, label);
        lemma_run_by_labels(list, a, b, k, label);
        let rest_a = browse::rows_from(list, a, k + 1, label);
        let rest_b = browse::rows_from(list, b, k + 1, label);
        let rows_a = browse::rows_from(list, a, k, group);
        let rows_b = browse::rows_from(list, b, k, group);
        let n: int = if label == group {
            1
        } else {
            2
        };
        assert forall|r: int| 0 <= r < rows_a.len() implies (rows_a[r] is Item && rows_b[r] is Item)
            || rows_a[r] == rows_b[r] by {
            if r >= n {
                assert(rows_a[r] == rest_a[r - n]);
                assert(rows_b[r] == rest_b[r - n]);
            }
        }
    }
}

/// Neither the sort mode nor what has been played moves, adds or removes the head of a group. So a
/// selected row stays the row of an item.
pub proof fn law_sorting_keeps_heads(
    list: Seq<ItemView>,
    query: Seq<char>,
    mode: SortMode,
    resume: Map<Seq<char>, ResumeEntryView>,
    other_mode: SortMode,
    other_resume: Map<Seq<char>, ResumeEntryView>,
    follow: bool,
)
    requires
        list.len() <= usize::MAX,
    ensures
        same_heads(
            browse::rows_of(list, browse::shown(list, query, mode, resume, follow)),
            browse::rows_of(list, browse::shown(list, query, other_mode, other_resume, follow)),
        ),
{
    lemma_same_labels(list, query, mode, resume, other_mode, other_resume, follow);
    lemma_heads_by_labels(
        list,
        browse::shown(list, query, mode, resume, follow),
        browse::shown(list, query, other_mode, other_resume, follow),
        0,
        ""@,
    );
}

/// How many of some items belong to a group.
pub open spec fn group_size(list: Seq<ItemView>, indices: Seq<usize>, label: Seq<char>) -> nat
    decreases indices.len(),
{
    if indices.len() == 0 {
        0
    } else {
        group_size(list, indices.drop_last(), label) + (if list[indices.last() as int].parent_label
            == label {
            1nat
        } else {
            0
        })
    }
}

proof fn lemma_group_size_concat(
    list: Seq<ItemView>,
    a: Seq<usize>,
    b: Seq<usize>,
    label: Seq<char>,
)
    ensures
        group_size(list, a + b, label) == group_size(list, a, label) + group_size(list, b, label),
    decreases b.len(),
{
    if b.len() == 0 {
        assert(a + b =~= a);
    } else {
        assert((a + b).drop_last() =~= a + b.drop_last());
        lemma_group_size_concat(list, a, b.drop_last(), label);
    }
}

proof fn lemma_group_size_none(list: Seq<ItemView>, indices: Seq<usize>, label: Seq<char>)
    requires
        forall|k: int|
            0 <= k < indices.len() ==> #[trigger] browse::label_at(list, indices, k) != label,
    ensures
        group_size(list, indices, label) == 0,
    decreases indices.len(),
{
    if indices.len() > 0 {
        assert(browse::label_at(list, indices, indices.len() - 1) != label);
        assert forall|k: int| 0 <= k < indices.drop_last().len() implies #[trigger] browse::label_at(
            list,
            indices.drop_last(),
            k,
        ) != label by {
            assert(browse::label_at(list, indices, k) != label);
        }
        lemma_group_size_none(list, indices.drop_last(), label);
    }
}

/// From the first of a group on, the run of the group is the whole group.
proof fn lemma_run_is_group(
    list: Seq<ItemView>,
    indices: Seq<usize>,
    k: int,
    label: Seq<char>,
)
    requires
        sorted_by(labels_of(list, indices), order::text_order()),
        0 <= k <= indices.len(),
        k < indices.len() ==> order::text_order()(label, browse::label_at(list, indices, k)),
    ensures
        browse::run_len(list, indices, k, label) == group_size(list, indices.skip(k), label),
        k + browse::run_len(list, indices, k, label) <= indices.len(),
        forall|j: int|
            k <= j < k + browse::run_len(list, indices, k, label) ==> #[trigger] browse::label_at(
                list,
                indices,
                j,
            ) == label,
        forall|j: int|
            k + browse::run_len(list, indices, k, label) <= j < indices.len()
                ==> #[trigger] browse::label_at(list, indices, j) != label,
    decreases indices.len() - k,
{
    order::lemma_base_orders_total();
    let labels = labels_of(list, indices);
    if k < indices.len() {
        assert(labels[k] == browse::label_at(list, indices, k));
        if labels[k] == label {
            if k + 1 < indices.len() {
                assert(labels[k + 1] == browse::label_at(list, indices, k + 1));
            }
            lemma_run_is_group(list, indices, k + 1, label);
            assert(indices.skip(k) =~= seq![indices[k]] + indices.skip(k + 1));
            lemma_group_size_concat(list, seq![indices[k]], indices.skip(k + 1), label);
            reveal_with_fuel(group_size, 2);
            assert(seq![indices[k]].drop_last() =~= seq![]);
        } else {
            assert forall|j: int| k <= j < indices.len() implies #[trigger] browse::label_at(
                list,
                indices,
                j,
            ) != label by {
                assert(labels[j] == browse::label_at(list, indices, j));
                if j > k {
                    assert(order::text_order()(labels[k], labels[j]));
                }
            }
            assert forall|j: int| 0 <= j < indices.skip(k).len() implies #[trigger] browse::label_at(
                list,
                indices.skip(k),
                j,
            ) != label by {
                assert(browse::label_at(list, indices, j + k) != label);
            }
            lemma_group_size_none(list, indices.skip(k), label);
        }
    } else {
        assert(indices.skip(k) =~= seq![]);
    }
}

/// A head's count is the number of items of its group that are shown, and as many rows after it are
/// items of the group.
pub open spec fn heads_group(
    list: Seq<ItemView>,
    indices: Seq<usize>,
    rows: Seq<RowView>,
    r: int,
) -> bool {
    match rows[r] {
        RowView::GroupHeader { title, count } => {
            &&& count == group_size(list, indices, title)
            &&& count > 0
            &&& r + count < rows.len()
            &&& forall|j: int|
                r < j <= r + count ==> (#[trigger] rows[j] is Item
                    && list[rows[j]->item_index as int].parent_label == title)
        },
        RowView::Item { .. } => true,
    }
}

/// Within a run of one group the rows are its items.
proof fn lemma_rows_of_run(
    list: Seq<ItemView>,
    indices: Seq<usize>,
    k: int,
    group: Seq<char>,
    n: int,
)
    requires
        0 <= k,
        0 <= n,
        k + n <= indices.len(),
        forall|j: int| k <= j < k + n ==> #[trigger] browse::label_at(list, indices, j) == group,
    ensures
        ({
            let rows = browse::rows_from(list, indices, k, group);
            &&& n <= rows.len()
            &&& forall|j: int|
                0 <= j < n ==> #[trigger] rows[j] == (RowView::Item { item_index: indices[k + j] })
        }),
    decreases n,
{
    if n > 0 {
        assert(browse::label_at(list, indices, k) == group);
        lemma_rows_of_run(list, indices, k + 1, group, n - 1);
        let rows = browse::rows_from(list, indices, k, group);
        let rest = browse::rows_from(list, indices, k + 1, group);
        assert forall|j: int| 0 <= j < n implies #[trigger] rows[j] == (RowView::Item {
            item_index: indices[k + j],
        }) by {
            if j > 0 {
                assert(rows[j] == rest[j - 1]);
            }
        }
    }
}

proof fn lemma_heads(list: Seq<ItemView>, indices: Seq<usize>, k: int, group: Seq<char>)
    requires
        sorted_by(labels_of(list, indices), order::text_order()),
        0 <= k <= indices.len(),
        k > 0 ==> group == browse::label_at(list, indices, k - 1),
        k == 0 ==> group == ""@,
    ensures
        forall|r: int|
            0 <= r < browse::rows_from(list, indices, k, group).len() ==> #[trigger] heads_group(
                list,
                indices,
                browse::rows_from(list, indices, k, group),
                r,
            ),
        forall|r: int|
            0 <= r < browse::rows_from(list, indices, k, group).len() && (
            #[trigger] browse::rows_from(list, indices, k, group)[r]) is GroupHeader ==> k
                < indices.len() && (k > 0 ==> browse::rows_from(list, indices, k, group)[r]->title
                != group) && order::text_order()(
                browse::label_at(list, indices, k),
                browse::rows_from(list, indices, k, group)[r]->title,
            ),
        forall|r: int, s: int|
            0 <= r < s < browse::rows_from(list, indices, k, group).len() && (
            #[trigger] browse::rows_from(list, indices, k, group)[r]) is GroupHeader && (
            #[trigger] browse::rows_from(list, indices, k, group)[s]) is GroupHeader
                ==> browse::rows_from(list, indices, k, group)[r]->title != browse::rows_from(
                list,
                indices,
                k,
                group,
            )[s]->title,
    decreases indices.len() - k,
{
    order::lemma_base_orders_total();
    let labels = labels_of(list, indices);
    if k < indices.len() {
        let label = browse::label_at(list, indices, k);
        let rows = browse::rows_from(list, indices, k, group);
        let rest = browse::rows_from(list, indices, k + 1, label);
        lemma_heads(list, indices, k + 1, label);
        assert(labels[k] == label);
        if k > 0 {
            assert(labels[k - 1] == group);
        }
        if k + 1 < indices.len() {
            assert(labels[k + 1] == browse::label_at(list, indices, k + 1));
            assert(order::text_order()(labels[k], labels[k + 1]));
        }
        let n: int = if label == group {
            1
        } else {
            2
        };
        assert forall|j: int| n <= j < rows.len() implies #[trigger] rows[j] == rest[j - n] by {}
        if label != group {
            lemma_run_is_group(list, indices, k, label);
            let count = browse::run_len(list, indices, k, label);
            lemma_rows_of_run(list, indices, k + 1, label, count - 1);
            assert forall|j: int| 0 <= j < indices.take(k).len() implies #[trigger] browse::label_at(
                list,
                indices.take(k),
                j,
            ) != label by {
                assert(labels[j] == browse::label_at(list, indices, j));
                if j < k - 1 {
                    assert(order::text_order()(labels[j], labels[k - 1]));
                }
                assert(order::text_order()(labels[k - 1], labels[k]));
            }
            lemma_group_size_none(list, indices.take(k), label);
            lemma_group_size_concat(list, indices.take(k), indices.skip(k), label);
            assert(indices.take(k) + indices.skip(k) =~= indices);
            assert forall|j: int| 0 < j <= count implies (#[trigger] rows[j] is Item
                && list[rows[j]->item_index as int].parent_label == label) by {
                if j > 1 {
                    assert(rows[j] == rest[j - 2]);
                    assert(browse::label_at(list, indices, k + j - 1) == label);
                } else {
                    assert(rows[1] == (RowView::Item { item_index: indices[k] }));
                }
            }
        }
        assert forall|r: int| 0 <= r < rows.len() implies #[trigger] heads_group(
            list,
            indices,
            rows,
            r,
        ) by {
            if r >= n {
                assert(heads_group(list, indices, rest, r - n));
                assert(rows[r] == rest[r - n]);
                if rows[r] is GroupHeader {
                    let count = rows[r]->count;
                    assert forall|j: int| r < j <= r + count implies (#[trigger] rows[j] is Item
                        && list[rows[j]->item_index as int].parent_label == rows[r]->title) by {
                        assert(rows[j] == rest[j - n]);
                    }
                }
            }
        }
        assert forall|r: int| 0 <= r < rows.len() && (#[trigger] rows[r]) is GroupHeader implies (k
            > 0 ==> rows[r]->title != group) && order::text_order()(label, rows[r]->title) by {
            if r >= n {
                assert(rows[r] == rest[r - n]);
                let next = browse::label_at(list, indices, k + 1);
                assert(order::text_order()(next, rest[r - n]->title));
                assert(order::text_order()(label, next));
                if k > 0 && rows[r]->title == group {
                    assert(order::text_order()(group, label));
                }
            } else {
                assert(order::text_order()(label, label));
            }
        }
        assert forall|r: int, s: int|
            0 <= r < s < rows.len() && (#[trigger] rows[r]) is GroupHeader && (
            #[trigger] rows[s]) is GroupHeader implies rows[r]->title != rows[s]->title by {
            assert(s >= n);
            assert(rows[s] == rest[s - n]);
            if r >= n {
                assert(rows[r] == rest[r - n]);
            }
        }
    }
}

/// Every group has one head. Its count is the number of items of the group that are shown, and
/// these items follow it.
pub proof fn law_heads_stand_before_their_groups(
    list: Seq<ItemView>,
    query: Seq<char>,
    mode: SortMode,
    resume: Map<Seq<char>, ResumeEntryView>,
    follow: bool,
)
    requires
        list.len() <= usize::MAX,
    ensures
        ({
            let all = browse::shown(list, query, mode, resume, follow);
            let rows = browse::rows_of(list, all);
            &&& forall|r: int| 0 <= r < rows.len() ==> #[trigger] heads_group(list, all, rows, r)
            &&& forall|r: int, s: int|
                0 <= r < s < rows.len() && (#[trigger] rows[r]) is GroupHeader && (
                #[trigger] rows[s]) is GroupHeader ==> rows[r]->title != rows[s]->title
        }),
{
    lemma_labels_ascend(list, query, mode, resume, follow);
    lemma_heads(list, browse::shown(list, query, mode, resume, follow), 0, ""@);
}

/// A row that can be selected: the row of an item.
pub open spec fn selectable(rows: Seq<RowView>, place: usize) -> bool {
    place < rows.len() && rows[place as int] is Item
}

proof fn lemma_item_places(rows: Seq<RowView>)
    requires
        rows.len() <= usize::MAX,
    ensures
        increasing(browse::item_places(rows)),
        forall|place: usize| #[trigger]
            browse::item_places(rows).contains(place) <==> selectable(rows, place),
    decreases rows.len(),
{
    let places = browse::item_places(rows);
    if rows.len() > 0 {
        let fewer = rows.drop_last();
        let before = browse::item_places(fewer);
        let last = (rows.len() - 1) as usize;
        lemma_item_places(fewer);
        assert forall|k: int| 0 <= k < before.len() implies #[trigger] before[k] < last by {
            assert(before.contains(before[k]));
        }
        assert forall|place: usize| #[trigger] places.contains(place) <==> selectable(
            rows,
            place,
        ) by {
            if places.contains(place) {
                let k = choose|k: int| 0 <= k < places.len() && places[k] == place;
                if k < before.len() {
                    assert(before.contains(before[k]));
                }
            }
            if selectable(rows, place) {
                if place == last {
                    assert(places[places.len() - 1] == last);
                } else {
                    assert(before.contains(place));
                    let k = choose|k: int| 0 <= k < before.len() && before[k] == place;
                    assert(places[k] == place);
                }
            }
        }
    }
}

proof fn lemma_item_place(rows: Seq<RowView>, from: int, item_index: usize)
    requires
        rows.len() <= usize::MAX,
        0 <= from,
    ensures
        match browse::item_place(rows, from, item_index) {
            Some(place) => from <= place < rows.len() && rows[place as int] == (RowView::Item {
                item_index,
            }),
            None => forall|r: int|
                from <= r < rows.len() ==> #[trigger] rows[r] != (RowView::Item { item_index }),
        },
    decreases rows.len() - from,
{
    if from < rows.len() {
        lemma_item_place(rows, from + 1, item_index);
    }
}

pub proof fn lemma_row_of_item(rows: Seq<RowView>, item_index: usize)
    requires
        row_items(rows).contains(item_index),
    ensures
        exists|r: int| 0 <= r < rows.len() && #[trigger] rows[r] == (RowView::Item { item_index }),
    decreases rows.len(),
{
    if rows.len() > 0 {
        let fewer = rows.drop_last();
        if rows.last() == (RowView::Item { item_index }) {
            assert(rows[rows.len() - 1] == (RowView::Item { item_index }));
        } else {
            let k = choose|k: int|
                0 <= k < row_items(rows).len() && row_items(rows)[k] == item_index;
            assert(row_items(fewer)[k] == item_index);
            lemma_row_of_item(fewer, item_index);
            let r = choose|r: int|
                0 <= r < fewer.len() && #[trigger] fewer[r] == (RowView::Item { item_index });
            assert(rows[r] == (RowView::Item { item_index }));
        }
    }
}

/// A row of an item is one of the items that the rows show.
pub proof fn lemma_row_is_item(rows: Seq<RowView>, r: int)
    requires
        0 <= r < rows.len(),
        rows[r] is Item,
    ensures
        row_items(rows).contains(rows[r]->item_index),
    decreases rows.len(),
{
    let shown = row_items(rows);
    if r == rows.len() - 1 {
        assert(shown[shown.len() - 1] == rows[r]->item_index);
    } else {
        let fewer = rows.drop_last();
        lemma_row_is_item(fewer, r);
        let k = choose|k: int|
            0 <= k < row_items(fewer).len() && row_items(fewer)[k] == rows[r]->item_index;
        assert(shown[k] == rows[r]->item_index);
    }
}

/// The first row to select is that of an item; there is none only where no item is shown.
pub proof fn law_first_selection_is_an_item(rows: Seq<RowView>)
    requires
        rows.len() <= usize::MAX,
    ensures
        match browse::first_place(rows) {
            Some(place) => selectable(rows, place) && forall|other: usize|
                #[trigger] selectable(rows, other) ==> place <= other,
            None => forall|other: usize| !#[trigger] selectable(rows, other),
        },
{
    let places = browse::item_places(rows);
    lemma_item_places(rows);
    assert forall|other: usize| #[trigger] selectable(rows, other) implies places.len() > 0
        && places[0] <= other by {
        assert(places.contains(other));
    }
    if places.len() > 0 {
        assert(places.contains(places[0]));
    }
}

/// Moving the selection leads to an item; it leads nowhere only where no item is shown.
pub proof fn law_moving_selects_an_item(
    rows: Seq<RowView>,
    selected: Option<usize>,
    delta: int,
)
    requires
        rows.len() <= usize::MAX,
    ensures
        match browse::moved(browse::item_places(rows), selected, delta) {
            Some(place) => selectable(rows, place),
            None => forall|other: usize| !#[trigger] selectable(rows, other),
        },
{
    let places = browse::item_places(rows);
    lemma_item_places(rows);
    match browse::moved(places, selected, delta) {
        Some(place) => {
            assert(places.contains(place));
        },
        None => {
            assert forall|other: usize| !#[trigger] selectable(rows, other) by {
                assert(!places.contains(other));
            }
        },
    }
}

proof fn lemma_rank(places: Seq<usize>, from: int, k: int)
    requires
        increasing(places),
        0 <= from <= k < places.len(),
    ensures
        browse::rank_of(places, from, places[k]) == k,
    decreases k - from,
{
    if from < k {
        assert(places[from] < places[k]);
        lemma_rank(places, from + 1, k);
    }
}

/// From the row of the `k`th item the selection moves to that of the item `delta` further on,
/// where there is one; and back again by the opposite step.
pub proof fn law_moving_counts_items(rows: Seq<RowView>, k: int, delta: int)
    requires
        rows.len() <= usize::MAX,
        0 <= k < browse::item_places(rows).len(),
        0 <= k + delta < browse::item_places(rows).len(),
    ensures
        ({
            let places = browse::item_places(rows);
            &&& browse::moved(places, Some(places[k]), delta) == Some(places[k + delta])
            &&& browse::moved(places, Some(places[k + delta]), -delta) == Some(places[k])
        }),
{
    let places = browse::item_places(rows);
    lemma_item_places(rows);
    lemma_rank(places, 0, k);
    lemma_rank(places, 0, k + delta);
}

pub proof fn lemma_keyed_item(
    list: Seq<ItemView>,
    indices: Seq<usize>,
    from: int,
    key: Seq<char>,
    follow: bool,
)
    requires
        0 <= from,
    ensures
        match browse::keyed_item(list, indices, from, key, follow) {
            Some(i) => indices.contains(i) && browse::state_key(list[i as int], follow) == key,
            None => forall|k: int|
                from <= k < indices.len() ==> browse::state_key(
                    list[#[trigger] indices[k] as int],
                    follow,
                ) != key,
        },
    decreases indices.len() - from,
{
    if from < indices.len() {
        lemma_keyed_item(list, indices, from + 1, key, follow);
    }
}

/// When the rows have changed, the item that was selected stays selected as long as it is shown.
/// Items that share a key count as one.
pub proof fn law_selection_follows_the_item(
    list: Seq<ItemView>,
    query: Seq<char>,
    mode: SortMode,
    resume: Map<Seq<char>, ResumeEntryView>,
    follow: bool,
    item_index: usize,
)
    requires
        list.len() <= usize::MAX,
        browse::rows_of(list, browse::shown(list, query, mode, resume, follow)).len() <= usize::MAX,
        item_index < list.len(),
        browse::passes(query, list[item_index as int]),
    ensures
        ({
            let all = browse::shown(list, query, mode, resume, follow);
            let key = browse::state_key(list[item_index as int], follow);
            let selected = browse::selected_in(
                browse::rows_of(list, all),
                browse::refreshed(list, all, Some(key), follow),
            );
            &&& selected is Some
            &&& browse::state_key(list[selected->0 as int], follow) == key
        }),
{
    let all = browse::shown(list, query, mode, resume, follow);
    let rows = browse::rows_of(list, all);
    let key = browse::state_key(list[item_index as int], follow);
    law_each_match_is_shown_once(list, query, mode, resume, follow);
    assert(all.contains(item_index));
    lemma_keyed_item(list, all, 0, key, follow);
    let found = browse::keyed_item(list, all, 0, key, follow);
    assert(found is Some) by {
        let k = choose|k: int| 0 <= k < all.len() && all[k] == item_index;
        assert(browse::state_key(list[all[k] as int], follow) == key);
    }
    lemma_row_of_item(rows, found->0);
    lemma_item_place(rows, 0, found->0);
}

/// After any change of the rows an item is selected, unless none is shown.
pub proof fn law_refreshing_selects_an_item(
    list: Seq<ItemView>,
    indices: Seq<usize>,
    key: Option<Seq<char>>,
    follow: bool,
)
    requires
        browse::rows_of(list, indices).len() <= usize::MAX,
    ensures
        match browse::refreshed(list, indices, key, follow) {
            Some(place) => selectable(browse::rows_of(list, indices), place),
            None => indices.len() == 0,
        },
{
    let rows = browse::rows_of(list, indices);
    law_first_selection_is_an_item(rows);
    if let Some(k) = key {
        if let Some(target) = browse::keyed_item(list, indices, 0, k, follow) {
            lemma_item_place(rows, 0, target);
        }
    }
    if indices.len() > 0 {
        lemma_rows_show_indices(list, indices, 0, ""@);
        assert(indices.skip(0) =~= indices);
        assert(row_items(rows).contains(indices[0]));
        lemma_row_of_item(rows, indices[0]);
        let r = choose|r: int|
            0 <= r < rows.len() && #[trigger] rows[r] == (RowView::Item { item_index: indices[0] });
        assert(selectable(rows, r as usize));
    }
}

/// How many items are shown does not depend on the sort mode or on what has been played.
pub proof fn lemma_same_count(
    list: Seq<ItemView>,
    query: Seq<char>,
    mode: SortMode,
    resume: Map<Seq<char>, ResumeEntryView>,
    other_mode: SortMode,
    other_resume: Map<Seq<char>, ResumeEntryView>,
    follow: bool,
)
    requires
        list.len() <= usize::MAX,
    ensures
        browse::shown(list, query, mode, resume, follow).len() == browse::shown(
            list,
            query,
            other_mode,
            other_resume,
            follow,
        ).len(),
{
    let a = browse::shown(list, query, mode, resume, follow);
    let b = browse::shown(list, query, other_mode, other_resume, follow);
    lemma_same_labels(list, query, mode, resume, other_mode, other_resume, follow);
    assert(labels_of(list, a).len() == a.len());
    assert(labels_of(list, b).len() == b.len());
}

/// Where no row is that of an item, no item is shown.
pub proof fn lemma_no_item_no_index(list: Seq<ItemView>, indices: Seq<usize>)
    requires
        browse::rows_of(list, indices).len() <= usize::MAX,
        forall|other: usize| !#[trigger] selectable(browse::rows_of(list, indices), other),
    ensures
        indices.len() == 0,
{
    let rows = browse::rows_of(list, indices);
    if indices.len() > 0 {
        lemma_rows_show_indices(list, indices, 0, ""@);
        assert(indices.skip(0) =~= indices);
        assert(row_items(rows).contains(indices[0]));
        lemma_row_of_item(rows, indices[0]);
        let r = choose|r: int|
            0 <= r < rows.len() && #[trigger] rows[r] == (RowView::Item { item_index: indices[0] });
        assert(selectable(rows, r as usize));
    }
}

/// The row to select for an item that is shown is that of an item.
pub proof fn lemma_place_for(list: Seq<ItemView>, indices: Seq<usize>, target: Option<usize>)
    requires
        browse::rows_of(list, indices).len() <= usize::MAX,
        target is None ==> indices.len() == 0,
    ensures
        match browse::place_for(browse::rows_of(list, indices), target) {
            Some(place) => selectable(browse::rows_of(list, indices), place),
            None => indices.len() == 0,
        },
{
    let rows = browse::rows_of(list, indices);
    law_first_selection_is_an_item(rows);
    if let Some(item_index) = target {
        lemma_item_place(rows, 0, item_index);
        if browse::item_place(rows, 0, item_index) is None && browse::first_place(rows) is None {
            lemma_no_item_no_index(list, indices);
        }
    }
}

}
