//! What the library view is for: finding items by what is typed, and in the order that is chosen.

use vstd::prelude::*;
use vstd::relations::*;

use crate::app::AppView;
use crate::browse;
use crate::browse::RowView;
use crate::browse_laws;
use crate::encoding;
use crate::library::ItemView;
use crate::order;
use crate::path_laws;
use crate::storage::SortMode;
use crate::text;

verus! {

/// Two texts agree up to a place, and there the first one ends or has the smaller character.
pub open spec fn splits_at(a: Seq<char>, b: Seq<char>, p: int) -> bool {
    &&& 0 <= p <= a.len()
    &&& p < b.len()
    &&& a.take(p) == b.take(p)
    &&& p == a.len() || a[p] < b[p]
}

/// A text comes before another in dictionary order.
pub open spec fn comes_before(a: Seq<char>, b: Seq<char>) -> bool {
    exists|p: int| #[trigger] splits_at(a, b, p)
}

/// A character, with ASCII capitals made small.
pub open spec fn small(c: char) -> char {
    match c {
        'A' => 'a',
        'B' => 'b',
        'C' => 'c',
        'D' => 'd',
        'E' => 'e',
        'F' => 'f',
        'G' => 'g',
        'H' => 'h',
        'I' => 'i',
        'J' => 'j',
        'K' => 'k',
        'L' => 'l',
        'M' => 'm',
        'N' => 'n',
        'O' => 'o',
        'P' => 'p',
        'Q' => 'q',
        'R' => 'r',
        'S' => 's',
        'T' => 't',
        'U' => 'u',
        'V' => 'v',
        'W' => 'w',
        'X' => 'x',
        'Y' => 'y',
        'Z' => 'z',
        _ => c,
    }
}

/// A text in small letters.
pub open spec fn in_small(s: Seq<char>) -> Seq<char> {
    Seq::new(s.len(), |i: int| small(s[i]))
}

/// What is typed stands in a text from a place on, whatever the case of ASCII letters.
pub open spec fn read_at(typed: Seq<char>, s: Seq<char>, at: int) -> bool {
    &&& 0 <= at
    &&& at + typed.len() <= s.len()
    &&& forall|i: int| 0 <= i < typed.len() ==> small(#[trigger] typed[i]) == small(s[at + i])
}

/// What is typed stands somewhere in a text.
pub open spec fn can_be_read_in(typed: Seq<char>, s: Seq<char>) -> bool {
    exists|at: int| #[trigger] read_at(typed, s, at)
}

/// Folding makes ASCII capitals small and leaves everything else alone.
pub proof fn law_folding_makes_small(s: Seq<char>)
    ensures
        text::lower(s) == in_small(s),
{
    assert forall|i: int| 0 <= i < s.len() implies #[trigger] text::lower(s)[i] == small(s[i]) by {
    }
    assert(text::lower(s) =~= in_small(s));
}

proof fn lemma_reading_is_occurring(typed: Seq<char>, s: Seq<char>)
    ensures
        can_be_read_in(typed, s) <==> text::occurs(text::lower(typed), text::lower(s)),
{
    law_folding_makes_small(typed);
    law_folding_makes_small(s);
    let needle = text::lower(typed);
    let hay = text::lower(s);
    if can_be_read_in(typed, s) {
        let at = choose|at: int| #[trigger] read_at(typed, s, at);
        assert(hay.subrange(at, at + needle.len()) =~= needle);
        assert(text::stands_at(needle, hay, at));
    }
    if text::occurs(needle, hay) {
        let at = choose|at: int| #[trigger] text::stands_at(needle, hay, at);
        assert forall|i: int| 0 <= i < typed.len() implies small(#[trigger] typed[i]) == small(
            s[at + i],
        ) by {
            assert(hay.subrange(at, at + needle.len())[i] == hay[at + i]);
            assert(needle[i] == small(typed[i]));
        }
        assert(read_at(typed, s, at));
    }
}

/// The items that rows show are those of the item rows.
proof fn lemma_shown_in_a_row(rows: Seq<RowView>, item_index: usize)
    ensures
        browse_laws::row_items(rows).contains(item_index) <==> shows_item(rows, item_index),
{
    if browse_laws::row_items(rows).contains(item_index) {
        browse_laws::lemma_row_of_item(rows, item_index);
    }
    if shows_item(rows, item_index) {
        let r = choose|r: int|
            0 <= r < rows.len() && #[trigger] rows[r] == (RowView::Item { item_index });
        browse_laws::lemma_row_is_item(rows, r);
    }
}

/// Some row is that of the item.
pub open spec fn shows_item(rows: Seq<RowView>, item_index: usize) -> bool {
    exists|r: int| 0 <= r < rows.len() && #[trigger] rows[r] == (RowView::Item { item_index })
}

/// The library view shows an item just where nothing is filtered by, or where the filter can be
/// read in its title, its embedded title, its group or its path.
pub proof fn law_filter_finds_what_can_be_read(app: AppView, item_index: usize)
    requires
        app.items.len() <= usize::MAX,
        item_index < app.items.len(),
    ensures
        ({
            let item = app.items[item_index as int];
            shows_item(app.rows(), item_index) <==> {
                ||| app.filter.len() == 0
                ||| can_be_read_in(app.filter, item.title)
                ||| (item.metadata_title matches Some(embedded) && can_be_read_in(
                    app.filter,
                    embedded,
                ))
                ||| can_be_read_in(app.filter, item.parent_label)
                ||| can_be_read_in(app.filter, encoding::lossy(item.path))
            }
        }),
{
    let item = app.items[item_index as int];
    lemma_reading_is_occurring(app.filter, item.title);
    if let Some(embedded) = item.metadata_title {
        lemma_reading_is_occurring(app.filter, embedded);
    }
    lemma_reading_is_occurring(app.filter, item.parent_label);
    lemma_reading_is_occurring(app.filter, encoding::lossy(item.path));
    lemma_shown_in_a_row(app.rows(), item_index);
    browse_laws::law_each_match_is_shown_once(
        app.items,
        app.filter,
        app.ui_state.sort_mode,
        app.resume,
        app.follow(),
    );
}

/// No row is that of an item which is not there, and no item has two rows.
pub proof fn law_rows_show_each_item_once(app: AppView, r: int, s: int)
    requires
        app.items.len() <= usize::MAX,
        0 <= r < s < app.rows().len(),
        app.rows()[r] is Item,
        app.rows()[s] is Item,
    ensures
        app.rows()[r]->item_index < app.items.len(),
        app.rows()[s]->item_index < app.items.len(),
        app.rows()[r]->item_index != app.rows()[s]->item_index,
{
    lemma_rows_in_order(app, r, s);
}

/// An earlier row shows an item that the sort mode does not put after that of a later row.
proof fn lemma_rows_in_order(app: AppView, r: int, s: int)
    requires
        app.items.len() <= usize::MAX,
        0 <= r < s < app.rows().len(),
        app.rows()[r] is Item,
        app.rows()[s] is Item,
    ensures
        ({
            let i = app.rows()[r]->item_index;
            let j = app.rows()[s]->item_index;
            &&& i < app.items.len()
            &&& j < app.items.len()
            &&& i != j
            &&& browse::arrangement(app.items, app.ui_state.sort_mode, app.resume, app.follow())(
                i,
                j,
            )
        }),
{
    let rows = app.rows();
    browse_laws::law_each_match_is_shown_once(
        app.items,
        app.filter,
        app.ui_state.sort_mode,
        app.resume,
        app.follow(),
    );
    let all = browse_laws::row_items(rows);
    let k = lemma_rank_of_row(rows, r);
    let l = lemma_rank_of_row(rows, s);
    lemma_ranks_ascend(rows, r, s);
    assert(all.contains(all[k]) && all.contains(all[l]));
}

/// How many rows before a place are those of items.
pub open spec fn items_above(rows: Seq<RowView>, r: int) -> nat
    decreases r,
{
    if r <= 0 {
        0
    } else {
        items_above(rows, r - 1) + (if rows[r - 1] is Item {
            1nat
        } else {
            0
        })
    }
}

proof fn lemma_count_above(rows: Seq<RowView>, r: int)
    requires
        0 <= r <= rows.len(),
    ensures
        browse_laws::row_items(rows.take(r)).len() == items_above(rows, r),
    decreases r,
{
    if r > 0 {
        assert(rows.take(r).drop_last() =~= rows.take(r - 1));
        lemma_count_above(rows, r - 1);
    }
}

proof fn lemma_rank_of_row(rows: Seq<RowView>, r: int) -> (k: int)
    requires
        0 <= r < rows.len(),
        rows[r] is Item,
    ensures
        k == items_above(rows, r),
        0 <= k < browse_laws::row_items(rows).len(),
        browse_laws::row_items(rows)[k] == rows[r]->item_index,
    decreases rows.len(),
{
    let k = items_above(rows, r) as int;
    let fewer = rows.drop_last();
    if r == rows.len() - 1 {
        lemma_count_above(rows, r);
        assert(rows.take(r) =~= fewer);
    } else {
        lemma_items_above_of_part(rows, fewer, r);
        let m = lemma_rank_of_row(fewer, r);
    }
    k
}

proof fn lemma_items_above_of_part(rows: Seq<RowView>, part: Seq<RowView>, r: int)
    requires
        part == rows.drop_last(),
        rows.len() > 0,
        r < rows.len(),
    ensures
        items_above(rows, r) == items_above(part, r),
    decreases r,
{
    if r > 0 {
        lemma_items_above_of_part(rows, part, r - 1);
        assert(part[r - 1] == rows[r - 1]);
    }
}

proof fn lemma_ranks_ascend(rows: Seq<RowView>, r: int, s: int)
    requires
        0 <= r < s,
        rows[r] is Item,
    ensures
        items_above(rows, r) < items_above(rows, s),
    decreases s,
{
    if s > r + 1 {
        lemma_ranks_ascend(rows, r, s - 1);
    }
}

/// What comes before in dictionary order is not after, nor the same.
proof fn lemma_before_is_not_after(a: Seq<char>, b: Seq<char>)
    requires
        comes_before(a, b),
    ensures
        a != b,
        !order::text_order()(b, a),
{
    let p = choose|p: int| #[trigger] splits_at(a, b, p);
    order::lemma_lex_skip(order::char_order(), b, a, p);
    if p < a.len() {
        assert(a.skip(p)[0] == a[p]);
        assert(b.skip(p)[0] == b[p]);
    }
}

/// Groups stand in dictionary order of their names.
pub proof fn law_groups_stand_in_order(app: AppView, r: int, s: int)
    requires
        app.items.len() <= usize::MAX,
        0 <= r < app.rows().len(),
        0 <= s < app.rows().len(),
        app.rows()[r] is Item,
        app.rows()[s] is Item,
        comes_before(
            app.items[app.rows()[r]->item_index as int].parent_label,
            app.items[app.rows()[s]->item_index as int].parent_label,
        ),
    ensures
        r < s,
{
    let a = app.items[app.rows()[r]->item_index as int];
    let b = app.items[app.rows()[s]->item_index as int];
    lemma_before_is_not_after(a.parent_label, b.parent_label);
    if s < r {
        lemma_rows_in_order(app, s, r);
    }
}

/// Two rows show items of one group.
pub open spec fn same_group(app: AppView, r: int, s: int) -> bool {
    &&& 0 <= r < app.rows().len()
    &&& 0 <= s < app.rows().len()
    &&& app.rows()[r] is Item
    &&& app.rows()[s] is Item
    &&& app.items[app.rows()[r]->item_index as int].parent_label
        == app.items[app.rows()[s]->item_index as int].parent_label
}

/// In alphabetical order the items of a group stand by title, whatever the case of ASCII letters.
pub proof fn law_alphabetical_order_goes_by_title(app: AppView, r: int, s: int)
    requires
        app.items.len() <= usize::MAX,
        app.ui_state.sort_mode == SortMode::Alphabetical,
        same_group(app, r, s),
        comes_before(
            in_small(app.items[app.rows()[r]->item_index as int].title),
            in_small(app.items[app.rows()[s]->item_index as int].title),
        ),
    ensures
        r < s,
{
    let a = app.items[app.rows()[r]->item_index as int];
    let b = app.items[app.rows()[s]->item_index as int];
    law_folding_makes_small(a.title);
    law_folding_makes_small(b.title);
    lemma_before_is_not_after(in_small(a.title), in_small(b.title));
    if s < r {
        lemma_rows_in_order(app, s, r);
    }
}

/// In alphabetical order items of a group with one title stand by path.
pub proof fn law_alphabetical_order_then_goes_by_path(app: AppView, r: int, s: int)
    requires
        app.items.len() <= usize::MAX,
        app.ui_state.sort_mode == SortMode::Alphabetical,
        same_group(app, r, s),
        in_small(app.items[app.rows()[r]->item_index as int].title) == in_small(
            app.items[app.rows()[s]->item_index as int].title,
        ),
        path_laws::path_before(
            app.items[app.rows()[r]->item_index as int].path,
            app.items[app.rows()[s]->item_index as int].path,
        ),
    ensures
        r < s,
{
    let a = app.items[app.rows()[r]->item_index as int];
    let b = app.items[app.rows()[s]->item_index as int];
    law_folding_makes_small(a.title);
    law_folding_makes_small(b.title);
    path_laws::law_paths_are_ordered_by_components(a.path, b.path);
    if s < r {
        lemma_rows_in_order(app, s, r);
    }
}

/// By date the items of a group stand with the latest file first, and those of one time by title.
pub proof fn law_date_order_puts_the_latest_first(app: AppView, r: int, s: int)
    requires
        app.items.len() <= usize::MAX,
        app.ui_state.sort_mode == SortMode::Date,
        same_group(app, r, s),
        ({
            let a = app.items[app.rows()[r]->item_index as int];
            let b = app.items[app.rows()[s]->item_index as int];
            ||| a.modified_epoch_seconds > b.modified_epoch_seconds
            ||| a.modified_epoch_seconds == b.modified_epoch_seconds && comes_before(
                in_small(a.title),
                in_small(b.title),
            )
        }),
    ensures
        r < s,
{
    let a = app.items[app.rows()[r]->item_index as int];
    let b = app.items[app.rows()[s]->item_index as int];
    law_folding_makes_small(a.title);
    law_folding_makes_small(b.title);
    if a.modified_epoch_seconds == b.modified_epoch_seconds {
        lemma_before_is_not_after(in_small(a.title), in_small(b.title));
    }
    if s < r {
        lemma_rows_in_order(app, s, r);
    }
}

/// When an item was last played; never counts as the beginning of time.
pub open spec fn played_at(app: AppView, item: ItemView) -> u64 {
    let key = if app.config.memory_on_move {
        item.media_key
    } else {
        item.canonical_key
    };
    if app.resume.contains_key(key) {
        app.resume[key].updated_at_epoch_seconds
    } else {
        0
    }
}

/// By what was played last the items of a group stand with that first, and those that were not
/// played by title.
pub proof fn law_last_played_order_puts_that_first(app: AppView, r: int, s: int)
    requires
        app.items.len() <= usize::MAX,
        app.ui_state.sort_mode == SortMode::LastPlayed,
        same_group(app, r, s),
        ({
            let a = app.items[app.rows()[r]->item_index as int];
            let b = app.items[app.rows()[s]->item_index as int];
            ||| played_at(app, a) > played_at(app, b)
            ||| played_at(app, a) == played_at(app, b) && comes_before(
                in_small(a.title),
                in_small(b.title),
            )
        }),
    ensures
        r < s,
{
    let a = app.items[app.rows()[r]->item_index as int];
    let b = app.items[app.rows()[s]->item_index as int];
    law_folding_makes_small(a.title);
    law_folding_makes_small(b.title);
    if played_at(app, a) == played_at(app, b) {
        lemma_before_is_not_after(in_small(a.title), in_small(b.title));
    }
    if s < r {
        lemma_rows_in_order(app, s, r);
    }
}

/// The row of an item and those before it, down from a row that heads its group.
pub open spec fn under_head(list: Seq<ItemView>, rows: Seq<RowView>, r: int, h: int) -> bool {
    &&& 0 <= h < r < rows.len()
    &&& rows[h] matches RowView::GroupHeader { title, .. } && forall|j: int|
        h < j <= r ==> (#[trigger] rows[j] is Item && list[rows[j]->item_index as int].parent_label
            == title)
}

/// All rows up to one are those of items of a group.
spec fn all_of_group(list: Seq<ItemView>, rows: Seq<RowView>, r: int, group: Seq<char>) -> bool {
    forall|j: int|
        0 <= j <= r ==> (#[trigger] rows[j] is Item && list[rows[j]->item_index as int].parent_label
            == group)
}

proof fn lemma_items_under_heads(
    list: Seq<ItemView>,
    indices: Seq<usize>,
    k: int,
    group: Seq<char>,
    r: int,
)
    requires
        0 <= k,
        0 <= r < browse::rows_from(list, indices, k, group).len(),
        browse::rows_from(list, indices, k, group)[r] is Item,
    ensures
        ({
            let rows = browse::rows_from(list, indices, k, group);
            (exists|h: int| #[trigger] under_head(list, rows, r, h)) || all_of_group(
                list,
                rows,
                r,
                group,
            )
        }),
    decreases indices.len() - k,
{
    let rows = browse::rows_from(list, indices, k, group);
    if k < indices.len() {
        let label = browse::label_at(list, indices, k);
        let rest = browse::rows_from(list, indices, k + 1, label);
        let n: int = if label == group {
            1
        } else {
            2
        };
        assert(forall|j: int| n <= j < rows.len() ==> rows[j] == rest[j - n]);
        assert(rows[n - 1] == (RowView::Item { item_index: indices[k] }));
        if r >= n {
            lemma_items_under_heads(list, indices, k + 1, label, r - n);
            if exists|h: int| #[trigger] under_head(list, rest, r - n, h) {
                let h = choose|h: int| #[trigger] under_head(list, rest, r - n, h);
                assert(under_head(list, rows, r, h + n)) by {
                    assert forall|j: int| h + n < j <= r implies (#[trigger] rows[j] is Item
                        && list[rows[j]->item_index as int].parent_label == rows[h + n]->title) by {
                        assert(rest[j - n] is Item);
                    }
                }
            } else {
                assert forall|j: int| n - 1 <= j <= r implies (#[trigger] rows[j] is Item
                    && list[rows[j]->item_index as int].parent_label == label) by {
                    if j >= n {
                        assert(rest[j - n] is Item);
                    }
                }
                if n == 2 {
                    assert(under_head(list, rows, r, 0));
                }
            }
        } else if n == 2 {
            assert(under_head(list, rows, r, 0));
        }
    }
}

/// Every item stands under the head of its group, with none but items of that group between them. A
/// group without a name has no head.
pub proof fn law_items_stand_under_their_head(app: AppView, r: int)
    requires
        0 <= r < app.rows().len(),
        app.rows()[r] is Item,
        app.items[app.rows()[r]->item_index as int].parent_label.len() > 0,
    ensures
        exists|h: int| #[trigger] under_head(app.items, app.rows(), r, h),
{
    reveal_strlit("");
    lemma_items_under_heads(app.items, app.shown(), 0, ""@, r);
    if all_of_group(app.items, app.rows(), r, ""@) {
        assert(app.rows()[r] is Item);
        assert(false);
    }
}

} // verus!
