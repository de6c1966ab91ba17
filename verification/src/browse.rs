//! How the library is shown: filtering, sorting, grouping into rows, and finding rows.

use vstd::prelude::*;
use vstd::relations::*;

use crate::encoding;
use crate::library;
use crate::library::{ItemView, LibraryItem};
use crate::order;
use crate::order::IndexOrder;
use crate::paths;
use crate::storage;
use crate::storage::{ResumeEntryView, ResumeStore, SortMode};
use crate::text;

verus! {

/// The key that an item's state is kept under: its name and size where state follows moved files,
/// else its path.
pub open spec fn state_key(item: ItemView, follow: bool) -> Seq<char> {
    if follow {
        item.media_key
    } else {
        item.canonical_key
    }
}

/// The key that an item's state is kept under.
pub fn key_of_item(item: &LibraryItem, follow: bool) -> (key: &String)
    ensures
        key@ == state_key(item@, follow),
{
    if follow {
        &item.media_key
    } else {
        &item.canonical_key
    }
}

/// A filter lets an item through: where it is empty, or stands in the title, the metadata title,
/// the group or the path, whatever the case of ASCII letters.
pub open spec fn passes(query: Seq<char>, item: ItemView) -> bool {
    let wanted = text::lower(query);
    ||| query.len() == 0
    ||| text::occurs(wanted, text::lower(item.title))
    ||| (item.metadata_title is Some && text::occurs(
        wanted,
        text::lower(item.metadata_title->0),
    ))
    ||| text::occurs(wanted, text::lower(item.parent_label))
    ||| text::occurs(wanted, text::lower(encoding::lossy(item.path)))
}

fn contains_folded(needle: &Vec<char>, hay: &str) -> (found: bool)
    ensures
        found == text::occurs(needle@, text::lower(hay@)),
{
    text::contains_chars(needle, &text::fold_case(&text::chars_of(hay)))
}

/// Whether a filter lets an item through.
pub fn matches_filter(query: &str, item: &LibraryItem) -> (lets_through: bool)
    ensures
        lets_through == passes(query@, item@),
{
    let chars = text::chars_of(query);
    if chars.len() == 0 {
        return true;
    }
    let wanted = text::fold_case(&chars);
    if contains_folded(&wanted, item.title.as_str()) {
        return true;
    }
    if let Some(title) = &item.metadata_title {
        if contains_folded(&wanted, title.as_str()) {
            return true;
        }
    }
    contains_folded(&wanted, item.parent_label.as_str()) || contains_folded(
        &wanted,
        encoding::lossy_text(&item.path).as_str(),
    )
}

/// When a file was last played, as the resume positions tell; zero where they do not.
pub open spec fn last_played(
    resume: Map<Seq<char>, ResumeEntryView>,
    key: Seq<char>,
) -> u64 {
    if resume.contains_key(key) {
        resume[key].updated_at_epoch_seconds
    } else {
        0
    }
}

/// The time that a sort mode goes by.
pub open spec fn sort_time(
    item: ItemView,
    mode: SortMode,
    resume: Map<Seq<char>, ResumeEntryView>,
    follow: bool,
) -> u64 {
    match mode {
        SortMode::Alphabetical => 0,
        SortMode::Date => item.modified_epoch_seconds,
        SortMode::LastPlayed => last_played(resume, state_key(item, follow)),
    }
}

/// Indices of items by group, and by `rest` within a group.
pub open spec fn by_label(
    list: Seq<ItemView>,
    rest: spec_fn(usize, usize) -> bool,
) -> spec_fn(usize, usize) -> bool {
    order::by_key(|i: usize| list[i as int].parent_label, order::text_order(), rest)
}

/// Indices of items by title, whatever the case of ASCII letters.
pub open spec fn by_title(
    list: Seq<ItemView>,
    rest: spec_fn(usize, usize) -> bool,
) -> spec_fn(usize, usize) -> bool {
    order::by_key(|i: usize| text::lower(list[i as int].title), order::text_order(), rest)
}

/// Indices of items by the time that a sort mode goes by, the latest first.
pub open spec fn by_time(
    list: Seq<ItemView>,
    mode: SortMode,
    resume: Map<Seq<char>, ResumeEntryView>,
    follow: bool,
    rest: spec_fn(usize, usize) -> bool,
) -> spec_fn(usize, usize) -> bool {
    order::by_key(
        |i: usize| sort_time(list[i as int], mode, resume, follow),
        order::descending(),
        rest,
    )
}

/// The order of a sort mode. Groups come first. Within a group the alphabetical mode goes by title
/// and then by path; the others go by their time and then by title.
pub open spec fn arrangement(
    list: Seq<ItemView>,
    mode: SortMode,
    resume: Map<Seq<char>, ResumeEntryView>,
    follow: bool,
) -> spec_fn(usize, usize) -> bool {
    match mode {
        SortMode::Alphabetical => by_label(list, by_title(list, library::path_order(list))),
        _ => by_label(
            list,
            by_time(list, mode, resume, follow, by_title(list, order::by_index())),
        ),
    }
}

/// The order of every sort mode is total.
pub proof fn lemma_arrangement_total(
    list: Seq<ItemView>,
    mode: SortMode,
    resume: Map<Seq<char>, ResumeEntryView>,
    follow: bool,
)
    ensures
        total_ordering(arrangement(list, mode, resume, follow)),
{
    order::lemma_base_orders_total();
    paths::lemma_components_order_total();
    let label = |i: usize| list[i as int].parent_label;
    let title = |i: usize| text::lower(list[i as int].title);
    match mode {
        SortMode::Alphabetical => {
            order::lemma_by_key_total(
                |i: usize| paths::components(list[i as int].path),
                paths::components_order(),
                order::by_index(),
            );
            order::lemma_by_key_total(title, order::text_order(), library::path_order(list));
            order::lemma_by_key_total(
                label,
                order::text_order(),
                by_title(list, library::path_order(list)),
            );
        },
        _ => {
            order::lemma_by_key_total(title, order::text_order(), order::by_index());
            order::lemma_by_key_total(
                |i: usize| sort_time(list[i as int], mode, resume, follow),
                order::descending(),
                by_title(list, order::by_index()),
            );
            order::lemma_by_key_total(
                label,
                order::text_order(),
                by_time(list, mode, resume, follow, by_title(list, order::by_index())),
            );
        },
    }
}

/// The items that a filter lets through, in the order of the list.
pub open spec fn matching(list: Seq<ItemView>, query: Seq<char>) -> Seq<usize> {
    library::indices_below(list.len()).filter(|i: usize| passes(query, list[i as int]))
}

/// The items that are shown, in the order in which they are.
pub open spec fn shown(
    list: Seq<ItemView>,
    query: Seq<char>,
    mode: SortMode,
    resume: Map<Seq<char>, ResumeEntryView>,
    follow: bool,
) -> Seq<usize> {
    matching(list, query).sort_by(arrangement(list, mode, resume, follow))
}

/// A list of items with what a sort mode compares.
struct Arranger<'a> {
    list: &'a Vec<LibraryItem>,
    mode: SortMode,
    resume: &'a ResumeStore,
    follow: bool,
    labels: Vec<Vec<char>>,
    titles: Vec<Vec<char>>,
    places: Vec<Vec<Vec<u8>>>,
    times: Vec<u64>,
}

impl<'a> IndexOrder for Arranger<'a> {
    closed spec fn order(&self) -> spec_fn(usize, usize) -> bool {
        arrangement(library::items(self.list@), self.mode, self.resume@, self.follow)
    }

    closed spec fn bound(&self) -> nat {
        self.list@.len()
    }

    closed spec fn ready(&self) -> bool {
        let list = library::items(self.list@);
        &&& self.labels@.len() == self.list@.len()
        &&& self.titles@.len() == self.list@.len()
        &&& self.places@.len() == self.list@.len()
        &&& self.times@.len() == self.list@.len()
        &&& forall|i: int|
            0 <= i < self.list@.len() ==> (#[trigger] self.labels@[i])@ == list[i].parent_label
        &&& forall|i: int|
            0 <= i < self.list@.len() ==> (#[trigger] self.titles@[i])@ == text::lower(
                list[i].title,
            )
        &&& forall|i: int|
            0 <= i < self.list@.len() ==> paths::byte_views((#[trigger] self.places@[i])@)
                == paths::components(list[i].path)
        &&& forall|i: int|
            0 <= i < self.list@.len() ==> #[trigger] self.times@[i] == sort_time(
                list[i],
                self.mode,
                self.resume@,
                self.follow,
            )
    }

    proof fn order_is_total(&self) {
        lemma_arrangement_total(
            library::items(self.list@),
            self.mode,
            self.resume@,
            self.follow,
        );
    }

    fn le(&self, i: usize, j: usize) -> (le: bool) {
        if !text::same_chars(&self.labels[i], &self.labels[j]) {
            return order::text_le(&self.labels[i], &self.labels[j]);
        }
        let alphabetical = match self.mode {
            SortMode::Alphabetical => true,
            _ => false,
        };
        if !alphabetical && self.times[i] != self.times[j] {
            return self.times[i] >= self.times[j];
        }
        if !text::same_chars(&self.titles[i], &self.titles[j]) {
            return order::text_le(&self.titles[i], &self.titles[j]);
        }
        if alphabetical && !paths::same_components(&self.places[i], &self.places[j]) {
            return paths::components_le(&self.places[i], &self.places[j]);
        }
        i <= j
    }
}

fn time_of(item: &LibraryItem, mode: SortMode, resume: &ResumeStore, follow: bool) -> (time: u64)
    ensures
        time == sort_time(item@, mode, resume@, follow),
{
    match mode {
        SortMode::Alphabetical => 0,
        SortMode::Date => item.modified_epoch_seconds,
        SortMode::LastPlayed => match resume.positions.get(key_of_item(item, follow).as_str()) {
            Some(entry) => entry.updated_at_epoch_seconds,
            None => 0,
        },
    }
}

fn arranger<'a>(
    list: &'a Vec<LibraryItem>,
    mode: SortMode,
    resume: &'a ResumeStore,
    follow: bool,
) -> (arranger: Arranger<'a>)
    ensures
        arranger.ready(),
        arranger.list == list,
        arranger.mode == mode,
        arranger.resume == resume,
        arranger.follow == follow,
{
    let ghost items = library::items(list@);
    let mut labels: Vec<Vec<char>> = Vec::new();
    let mut titles: Vec<Vec<char>> = Vec::new();
    let mut places: Vec<Vec<Vec<u8>>> = Vec::new();
    let mut times: Vec<u64> = Vec::new();
    let mut i: usize = 0;
    while i < list.len()
        invariant
            i <= list.len(),
            items == library::items(list@),
            labels@.len() == i,
            titles@.len() == i,
            places@.len() == i,
            times@.len() == i,
            forall|k: int| 0 <= k < i ==> (#[trigger] labels@[k])@ == items[k].parent_label,
            forall|k: int| 0 <= k < i ==> (#[trigger] titles@[k])@ == text::lower(items[k].title),
            forall|k: int|
                0 <= k < i ==> paths::byte_views((#[trigger] places@[k])@) == paths::components(
                    items[k].path,
                ),
            forall|k: int|
                0 <= k < i ==> #[trigger] times@[k] == sort_time(items[k], mode, resume@, follow),
        decreases list.len() - i,
    {
        let item = &list[i];
        assert(items[i as int] == item@);
        labels.push(text::chars_of(item.parent_label.as_str()));
        titles.push(text::fold_case(&text::chars_of(item.title.as_str())));
        places.push(paths::split_components(&item.path));
        times.push(time_of(item, mode, resume, follow));
        i = i + 1;
    }
    Arranger { list, mode, resume, follow, labels, titles, places, times }
}

/// The items that are shown, in the order in which they are.
pub fn sorted_filtered_indices(
    list: &Vec<LibraryItem>,
    query: &str,
    mode: SortMode,
    resume: &ResumeStore,
    follow: bool,
) -> (indices: Vec<usize>)
    ensures
        indices@ == shown(library::items(list@), query@, mode, resume@, follow),
        forall|k: int| 0 <= k < indices@.len() ==> #[trigger] indices@[k] < list@.len(),
{
    let ghost items = library::items(list@);
    let ghost lets = |i: usize| passes(query@, items[i as int]);
    let mut kept: Vec<usize> = Vec::new();
    let mut i: usize = 0;
    proof {
        reveal(Seq::filter);
        assert(library::indices_below(0) =~= Seq::<usize>::empty());
    }
    while i < list.len()
        invariant
            i <= list.len(),
            items == library::items(list@),
            lets == (|i: usize| passes(query@, items[i as int])),
            kept@ == library::indices_below(i as nat).filter(lets),
            forall|k: int| 0 <= k < kept@.len() ==> #[trigger] kept@[k] < i,
        decreases list.len() - i,
    {
        proof {
            reveal(Seq::filter);
            let longer = library::indices_below((i + 1) as nat);
            assert(longer.drop_last() =~= library::indices_below(i as nat));
            assert(longer.last() == i);
            assert(items[i as int] == list@[i as int]@);
        }
        if matches_filter(query, &list[i]) {
            kept.push(i);
        }
        i = i + 1;
    }
    let arranged = arranger(list, mode, resume, follow);
    proof {
        order::lemma_sort_keeps_within(&arranged, kept@);
    }
    order::sort_indices(&arranged, &kept)
}

/// A row of the library view: the head of a group with the number of items in it, or an item.
#[derive(Debug)]
pub enum LibraryRow {
    GroupHeader { title: String, count: usize },
    Item { item_index: usize },
}

#[verifier::ext_equal]
pub enum RowView {
    GroupHeader { title: Seq<char>, count: nat },
    Item { item_index: usize },
}

impl View for LibraryRow {
    type V = RowView;

    open spec fn view(&self) -> RowView {
        match self {
            LibraryRow::GroupHeader { title, count } => RowView::GroupHeader {
                title: title@,
                count: *count as nat,
            },
            LibraryRow::Item { item_index } => RowView::Item { item_index: *item_index },
        }
    }
}

/// The rows of a list.
pub open spec fn row_views(rows: Seq<LibraryRow>) -> Seq<RowView> {
    rows.map_values(|row: LibraryRow| row@)
}

/// The group of the `k`th of some indices.
pub open spec fn label_at(list: Seq<ItemView>, indices: Seq<usize>, k: int) -> Seq<char> {
    list[indices[k] as int].parent_label
}

/// How many of the indices from `k` on belong to one group, up to the first that does not.
pub open spec fn run_len(
    list: Seq<ItemView>,
    indices: Seq<usize>,
    k: int,
    label: Seq<char>,
) -> nat
    decreases indices.len() - k,
{
    if 0 <= k < indices.len() && label_at(list, indices, k) == label {
        1 + run_len(list, indices, k + 1, label)
    } else {
        0
    }
}

/// The rows for the indices from `k` on, where `group` is the group of the row before: an item
/// that begins another group comes after that group's head.
pub open spec fn rows_from(
    list: Seq<ItemView>,
    indices: Seq<usize>,
    k: int,
    group: Seq<char>,
) -> Seq<RowView>
    decreases indices.len() - k,
{
    if 0 <= k < indices.len() {
        let label = label_at(list, indices, k);
        let item = RowView::Item { item_index: indices[k] };
        let head = if label == group {
            seq![item]
        } else {
            seq![
                RowView::GroupHeader { title: label, count: run_len(list, indices, k, label) },
                item,
            ]
        };
        head + rows_from(list, indices, k + 1, label)
    } else {
        seq![]
    }
}

/// The rows of the library view.
pub open spec fn rows_of(list: Seq<ItemView>, indices: Seq<usize>) -> Seq<RowView> {
    rows_from(list, indices, 0, ""@)
}

fn count_run(list: &Vec<LibraryItem>, indices: &Vec<usize>, from: usize, label: &str) -> (count:
    usize)
    requires
        from <= indices.len(),
        forall|k: int| 0 <= k < indices@.len() ==> #[trigger] indices@[k] < list@.len(),
    ensures
        count == run_len(library::items(list@), indices@, from as int, label@),
        count <= indices.len() - from,
{
    let mut k: usize = from;
    while k < indices.len() && text::same_text(list[indices[k]].parent_label.as_str(), label)
        invariant
            from <= k <= indices.len(),
            forall|k: int| 0 <= k < indices@.len() ==> #[trigger] indices@[k] < list@.len(),
            run_len(library::items(list@), indices@, from as int, label@) == k - from + run_len(
                library::items(list@),
                indices@,
                k as int,
                label@,
            ),
        decreases indices.len() - k,
    {
        assert(library::items(list@)[indices@[k as int] as int] == list@[indices@[k as int] as int]@);
        k = k + 1;
    }
    proof {
        if k < indices.len() {
            assert(library::items(list@)[indices@[k as int] as int]
                == list@[indices@[k as int] as int]@);
        }
    }
    k - from
}

/// The rows of the library view, for the items that are shown.
pub fn grouped_rows(list: &Vec<LibraryItem>, indices: &Vec<usize>) -> (rows: Vec<LibraryRow>)
    requires
        forall|k: int| 0 <= k < indices@.len() ==> #[trigger] indices@[k] < list@.len(),
    ensures
        row_views(rows@) == rows_of(library::items(list@), indices@),
        rows_within(row_views(rows@), list@.len()),
{
    let ghost items = library::items(list@);
    let mut rows: Vec<LibraryRow> = Vec::new();
    let mut group = "".to_owned();
    let mut k: usize = 0;
    assert(row_views(rows@) + rows_from(items, indices@, 0, ""@) =~= rows_from(
        items,
        indices@,
        0,
        ""@,
    ));
    while k < indices.len()
        invariant
            k <= indices.len(),
            items == library::items(list@),
            forall|k: int| 0 <= k < indices@.len() ==> #[trigger] indices@[k] < list@.len(),
            row_views(rows@) + rows_from(items, indices@, k as int, group@) == rows_of(
                items,
                indices@,
            ),
        decreases indices.len() - k,
    {
        let label = &list[indices[k]].parent_label;
        assert(label_at(items, indices@, k as int) == label@);
        let ghost before = row_views(rows@);
        let ghost last = group@;
        let ghost rest = rows_from(items, indices@, k + 1, label@);
        if !text::same_text(label.as_str(), group.as_str()) {
            group = label.clone();
            let count = count_run(list, indices, k, label.as_str());
            rows.push(LibraryRow::GroupHeader { title: label.clone(), count });
        }
        rows.push(LibraryRow::Item { item_index: indices[k] });
        assert(row_views(rows@) + rest =~= before + rows_from(items, indices@, k as int, last));
        k = k + 1;
    }
    assert(row_views(rows@) + seq![] =~= row_views(rows@));
    proof {
        lemma_rows_within(items, indices@, 0, ""@);
    }
    rows
}

/// The items of some rows have numbers below a bound.
pub open spec fn rows_within(rows: Seq<RowView>, bound: nat) -> bool {
    forall|r: int|
        0 <= r < rows.len() ==> (#[trigger] rows[r] matches RowView::Item { item_index }
            ==> item_index < bound)
}

/// The rows for some indices show no others.
pub proof fn lemma_rows_within(
    list: Seq<ItemView>,
    indices: Seq<usize>,
    k: int,
    group: Seq<char>,
)
    requires
        0 <= k,
        forall|k: int| 0 <= k < indices.len() ==> #[trigger] indices[k] < list.len(),
    ensures
        rows_within(rows_from(list, indices, k, group), list.len()),
    decreases indices.len() - k,
{
    if k < indices.len() {
        let label = label_at(list, indices, k);
        lemma_rows_within(list, indices, k + 1, label);
        let rows = rows_from(list, indices, k, group);
        let rest = rows_from(list, indices, k + 1, label);
        let n: int = if label == group {
            1
        } else {
            2
        };
        assert forall|r: int| 0 <= r < rows.len() implies (#[trigger] rows[r] matches RowView::Item {
            item_index,
        } ==> item_index < list.len()) by {
            if r >= n {
                assert(rows[r] == rest[r - n]);
            }
        }
    }
}

/// The places of the rows that are items.
pub open spec fn item_places(rows: Seq<RowView>) -> Seq<usize>
    decreases rows.len(),
{
    if rows.len() == 0 {
        seq![]
    } else if rows.last() is Item {
        item_places(rows.drop_last()).push((rows.len() - 1) as usize)
    } else {
        item_places(rows.drop_last())
    }
}

/// The places of the rows that can be selected: those of items.
pub fn selectable_row_indices(rows: &Vec<LibraryRow>) -> (places: Vec<usize>)
    ensures
        places@ == item_places(row_views(rows@)),
{
    let ghost views = row_views(rows@);
    let mut places: Vec<usize> = Vec::new();
    let mut r: usize = 0;
    while r < rows.len()
        invariant
            r <= rows.len(),
            views == row_views(rows@),
            places@ == item_places(views.take(r as int)),
        decreases rows.len() - r,
    {
        assert(views.take(r + 1).drop_last() =~= views.take(r as int));
        assert(views.take(r + 1).last() == rows@[r as int]@);
        if let LibraryRow::Item { .. } = &rows[r] {
            places.push(r);
        }
        r = r + 1;
    }
    assert(views.take(r as int) =~= views);
    places
}

/// The first row from `from` on that is the given item.
pub open spec fn item_place(rows: Seq<RowView>, from: int, item_index: usize) -> Option<usize>
    decreases rows.len() - from,
{
    if 0 <= from < rows.len() {
        if rows[from] == (RowView::Item { item_index }) {
            Some(from as usize)
        } else {
            item_place(rows, from + 1, item_index)
        }
    } else {
        None
    }
}

/// The first row that can be selected.
pub open spec fn first_place(rows: Seq<RowView>) -> Option<usize> {
    if item_places(rows).len() > 0 {
        Some(item_places(rows)[0])
    } else {
        None
    }
}

/// The row to select for an item: its own, or the first that can be selected where it has none.
pub open spec fn place_for(rows: Seq<RowView>, item_index: Option<usize>) -> Option<usize> {
    match item_index {
        None => None,
        Some(target) => match item_place(rows, 0, target) {
            Some(place) => Some(place),
            None => first_place(rows),
        },
    }
}

/// The first row that can be selected.
pub fn first_selectable_row(rows: &Vec<LibraryRow>) -> (place: Option<usize>)
    ensures
        place == first_place(row_views(rows@)),
{
    let places = selectable_row_indices(rows);
    if places.len() > 0 {
        Some(places[0])
    } else {
        None
    }
}

/// The row to select for an item.
pub fn selectable_row_index_for_item(rows: &Vec<LibraryRow>, item_index: Option<usize>) -> (place:
    Option<usize>)
    ensures
        place == place_for(row_views(rows@), item_index),
{
    let target: usize = match item_index {
        Some(target) => target,
        None => {
            return None;
        },
    };
    let ghost views = row_views(rows@);
    let mut r: usize = 0;
    while r < rows.len()
        invariant
            r <= rows.len(),
            views == row_views(rows@),
            item_index == Some(target),
            item_place(views, 0, target) == item_place(views, r as int, target),
        decreases rows.len() - r,
    {
        assert(views[r as int] == rows@[r as int]@);
        if let LibraryRow::Item { item_index: index } = &rows[r] {
            if *index == target {
                return Some(r);
            }
        }
        r = r + 1;
    }
    first_selectable_row(rows)
}

/// The item whose row is selected.
pub open spec fn selected_in(rows: Seq<RowView>, selected: Option<usize>) -> Option<usize> {
    match selected {
        Some(place) => if place < rows.len() {
            match rows[place as int] {
                RowView::Item { item_index } => Some(item_index),
                RowView::GroupHeader { .. } => None,
            }
        } else {
            None
        },
        None => None,
    }
}

/// The item whose row is selected.
pub fn selected_index(rows: &Vec<LibraryRow>, selected: Option<usize>) -> (item_index: Option<usize>)
    ensures
        item_index == selected_in(row_views(rows@), selected),
{
    match selected {
        Some(place) => if place < rows.len() {
            assert(row_views(rows@)[place as int] == rows@[place as int]@);
            match &rows[place] {
                LibraryRow::Item { item_index } => Some(*item_index),
                LibraryRow::GroupHeader { .. } => None,
            }
        } else {
            None
        },
        None => None,
    }
}

/// The first of some items, from `from` on, whose state is kept under a key.
pub open spec fn keyed_item(
    list: Seq<ItemView>,
    indices: Seq<usize>,
    from: int,
    key: Seq<char>,
    follow: bool,
) -> Option<usize>
    decreases indices.len() - from,
{
    if 0 <= from < indices.len() {
        if state_key(list[indices[from] as int], follow) == key {
            Some(indices[from])
        } else {
            keyed_item(list, indices, from + 1, key, follow)
        }
    } else {
        None
    }
}

/// The first of some items whose state is kept under a key.
pub fn find_keyed_item(
    list: &Vec<LibraryItem>,
    indices: &Vec<usize>,
    key: &str,
    follow: bool,
) -> (found: Option<usize>)
    requires
        forall|k: int| 0 <= k < indices@.len() ==> #[trigger] indices@[k] < list@.len(),
    ensures
        found == keyed_item(library::items(list@), indices@, 0, key@, follow),
{
    let ghost items = library::items(list@);
    let mut k: usize = 0;
    while k < indices.len()
        invariant
            k <= indices.len(),
            items == library::items(list@),
            forall|k: int| 0 <= k < indices@.len() ==> #[trigger] indices@[k] < list@.len(),
            keyed_item(items, indices@, 0, key@, follow) == keyed_item(
                items,
                indices@,
                k as int,
                key@,
                follow,
            ),
        decreases indices.len() - k,
    {
        assert(items[indices@[k as int] as int] == list@[indices@[k as int] as int]@);
        if text::same_text(key_of_item(&list[indices[k]], follow).as_str(), key) {
            return Some(indices[k]);
        }
        k = k + 1;
    }
    None
}

/// The item to select at first: the remembered one, or the first where that is not shown.
pub open spec fn initial_item(
    list: Seq<ItemView>,
    indices: Seq<usize>,
    remembered: Option<Seq<char>>,
    follow: bool,
) -> Option<usize> {
    let found = match remembered {
        Some(key) => keyed_item(list, indices, 0, key, follow),
        None => None,
    };
    if found is Some {
        found
    } else if indices.len() > 0 {
        Some(indices[0])
    } else {
        None
    }
}

/// The item to select at first.
pub fn initial_selection(
    list: &Vec<LibraryItem>,
    indices: &Vec<usize>,
    remembered: &Option<String>,
    follow: bool,
) -> (item_index: Option<usize>)
    requires
        forall|k: int| 0 <= k < indices@.len() ==> #[trigger] indices@[k] < list@.len(),
    ensures
        item_index == initial_item(
            library::items(list@),
            indices@,
            storage::optional_text(*remembered),
            follow,
        ),
{
    if let Some(key) = remembered {
        let found = find_keyed_item(list, indices, key.as_str(), follow);
        if found.is_some() {
            return found;
        }
    }
    if indices.len() > 0 {
        Some(indices[0])
    } else {
        None
    }
}

/// The row to select after the rows have changed: that of the item with the given key, or the first
/// that can be selected.
pub open spec fn refreshed(
    list: Seq<ItemView>,
    indices: Seq<usize>,
    key: Option<Seq<char>>,
    follow: bool,
) -> Option<usize> {
    let rows = rows_of(list, indices);
    let target = match key {
        Some(k) => keyed_item(list, indices, 0, k, follow),
        None => None,
    };
    match place_for(rows, target) {
        Some(place) => Some(place),
        None => first_place(rows),
    }
}

/// The row to select after the rows have changed.
pub fn refreshed_selection(
    list: &Vec<LibraryItem>,
    indices: &Vec<usize>,
    key: &Option<String>,
    follow: bool,
) -> (place: Option<usize>)
    requires
        forall|k: int| 0 <= k < indices@.len() ==> #[trigger] indices@[k] < list@.len(),
    ensures
        place == refreshed(
            library::items(list@),
            indices@,
            storage::optional_text(*key),
            follow,
        ),
{
    let rows = grouped_rows(list, indices);
    let target = match key {
        Some(k) => find_keyed_item(list, indices, k.as_str(), follow),
        None => None,
    };
    let place = selectable_row_index_for_item(&rows, target);
    if place.is_some() {
        place
    } else {
        first_selectable_row(&rows)
    }
}

/// The first place of a row among the ones that can be selected, from `from` on; the first of all
/// where it is not among them.
pub open spec fn rank_of(places: Seq<usize>, from: int, row: usize) -> int
    decreases places.len() - from,
{
    if 0 <= from < places.len() {
        if places[from] == row {
            from
        } else {
            rank_of(places, from + 1, row)
        }
    } else {
        0
    }
}

/// A number held between two bounds.
pub open spec fn clamped(n: int, low: int, high: int) -> int {
    if n < low {
        low
    } else if n > high {
        high
    } else {
        n
    }
}

/// The row to select some items further down, or up where `delta` is negative, but not beyond the
/// first and the last; a row that cannot be selected counts as the first.
pub open spec fn moved(places: Seq<usize>, selected: Option<usize>, delta: int) -> Option<usize> {
    if places.len() == 0 {
        None
    } else {
        let row = match selected {
            Some(row) => row,
            None => places[0],
        };
        Some(places[clamped(rank_of(places, 0, row) + delta, 0, places.len() - 1)])
    }
}

/// The row to select some items further down or up.
pub fn moved_selection(places: &Vec<usize>, selected: Option<usize>, delta: isize) -> (place: Option<
    usize,
>)
    ensures
        place == moved(places@, selected, delta as int),
{
    if places.len() == 0 {
        return None;
    }
    let row: usize = match selected {
        Some(row) => row,
        None => places[0],
    };
    let mut rank: usize = 0;
    let mut found = false;
    let mut k: usize = 0;
    while k < places.len() && !found
        invariant
            0 < places.len(),
            k <= places.len(),
            rank < places.len(),
            !found ==> rank == 0 && rank_of(places@, 0, row) == rank_of(places@, k as int, row),
            found ==> rank == rank_of(places@, 0, row),
        decreases places.len() - k,
    {
        if places[k] == row {
            rank = k;
            found = true;
        }
        k = k + 1;
    }
    let last: usize = places.len() - 1;
    let next: usize = if delta >= 0 {
        let step: usize = delta as usize;
        if step <= last - rank {
            rank + step
        } else {
            last
        }
    } else {
        let step: usize = (-(delta + 1)) as usize;
        if step < rank {
            rank - step - 1
        } else {
            0
        }
    };
    Some(places[next])
}

}
