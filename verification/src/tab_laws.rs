//! What Tab is for: how the directory that is typed is completed.

use vstd::prelude::*;

use crate::app::{ActionView, AppView, InputMode};
use crate::complete;
use crate::complete_laws;
use crate::editor::{Key, KeyPress};
use crate::encoding;
use crate::library;
use crate::order;
use crate::path_laws;
use crate::paths;
use crate::player::Output;
use crate::storage;
use crate::text;

verus! {

/// A text begins with another.
pub open spec fn starts_with(name: Seq<char>, prefix: Seq<char>) -> bool {
    &&& prefix.len() <= name.len()
    &&& forall|k: int| 0 <= k < prefix.len() ==> name[k] == #[trigger] prefix[k]
}

/// A text can be the name of a directory entry.
pub open spec fn is_entry_name(name: Seq<char>) -> bool {
    &&& path_laws::is_name(vstd::utf8::encode_utf8(name))
    &&& vstd::utf8::encode_utf8(name) != seq![paths::DOT, paths::DOT]
}

/// Directories with the given names in a directory.
pub open spec fn entries(dir: Seq<u8>, names: Seq<Seq<char>>) -> Seq<Seq<u8>> {
    Seq::new(names.len(), |i: int| paths::joined(dir, vstd::utf8::encode_utf8(names[i])))
}

/// Each of the texts can be the name of a directory entry.
pub open spec fn are_entry_names(names: Seq<Seq<char>>) -> bool {
    forall|i: int| 0 <= i < names.len() ==> is_entry_name(#[trigger] names[i])
}

proof fn lemma_starts_with(name: Seq<char>, prefix: Seq<char>)
    ensures
        starts_with(name, prefix) <==> text::begins(prefix, name),
{
    if starts_with(name, prefix) {
        assert(name.take(prefix.len() as int) =~= prefix);
    }
    if text::begins(prefix, name) {
        assert forall|k: int| 0 <= k < prefix.len() implies name[k] == #[trigger] prefix[k] by {
            assert(name.take(prefix.len() as int)[k] == name[k]);
        }
    }
}

proof fn lemma_entry(dir: Seq<u8>, name: Seq<char>, prefix: Seq<char>)
    requires
        dir.len() > 0,
        is_entry_name(name),
    ensures
        ({
            let path = paths::joined(dir, vstd::utf8::encode_utf8(name));
            &&& storage::name_text(path) == name
            &&& complete::name_begins(path, prefix) <==> starts_with(name, prefix)
            &&& paths::components(path) == paths::components(dir).push(
                vstd::utf8::encode_utf8(name),
            )
        }),
{
    encoding::law_encoded_text_is_read_back(name);
    path_laws::law_join_goes_one_deeper(dir, vstd::utf8::encode_utf8(name));
    lemma_starts_with(name, prefix);
}

proof fn lemma_nothing_kept(list: Seq<Seq<u8>>, keep: spec_fn(Seq<u8>) -> bool)
    requires
        forall|i: int| 0 <= i < list.len() ==> !keep(#[trigger] list[i]),
    ensures
        list.filter(keep) == Seq::<Seq<u8>>::empty(),
    decreases list.len(),
{
    reveal(Seq::filter);
    if list.len() > 0 {
        assert forall|i: int| 0 <= i < list.drop_last().len() implies !keep(
            #[trigger] list.drop_last()[i],
        ) by {
            assert(list.drop_last()[i] == list[i]);
        }
        lemma_nothing_kept(list.drop_last(), keep);
    }
}

proof fn lemma_one_kept(list: Seq<Seq<u8>>, keep: spec_fn(Seq<u8>) -> bool, k: int)
    requires
        0 <= k < list.len(),
        forall|i: int| 0 <= i < list.len() ==> (keep(#[trigger] list[i]) <==> i == k),
    ensures
        list.filter(keep) == seq![list[k]],
    decreases list.len(),
{
    reveal(Seq::filter);
    let fewer = list.drop_last();
    assert forall|i: int| 0 <= i < fewer.len() implies (keep(#[trigger] fewer[i]) <==> i == k) by {
        assert(fewer[i] == list[i]);
    }
    if k == list.len() - 1 {
        lemma_nothing_kept(fewer, keep);
        assert(fewer.filter(keep).push(list[k]) =~= seq![list[k]]);
    } else {
        lemma_one_kept(fewer, keep, k);
    }
}

proof fn lemma_order_keeps_number(list: Seq<Seq<u8>>)
    requires
        list.len() <= usize::MAX,
    ensures
        complete::in_order(list).len() == list.len(),
        list.len() == 1 ==> complete::in_order(list) == list,
{
    let all = library::indices_below(list.len());
    let leq = complete::path_index_order(list);
    paths::lemma_components_order_total();
    order::lemma_base_orders_total();
    order::lemma_by_key_total(
        |i: usize| paths::components(list[i as int]),
        paths::components_order(),
        order::by_index(),
    );
    all.lemma_sort_by_ensures(leq);
    let sorted = all.sort_by(leq);
    all.to_multiset_ensures();
    sorted.to_multiset_ensures();
    assert(sorted.len() == all.len());
    if list.len() == 1 {
        assert(sorted.to_multiset().count(sorted[0]) > 0) by {
            assert(sorted.contains(sorted[0]));
        }
        assert(all.contains(sorted[0]));
        assert(complete::in_order(list) =~= list);
    }
}

/// Where no directory begins as what is typed, the line stays as it is.
pub proof fn law_no_match_leaves_the_line(
    app: AppView,
    dir: Seq<u8>,
    names: Seq<Seq<char>>,
    prefix: Seq<char>,
)
    requires
        dir.len() > 0,
        names.len() <= usize::MAX,
        are_entry_names(names),
        forall|i: int| 0 <= i < names.len() ==> !starts_with(#[trigger] names[i], prefix),
    ensures
        app.completion_found(dir, prefix, Some(entries(dir, names))).editor == app.editor,
{
    let list = entries(dir, names);
    let keep = |path: Seq<u8>| complete::name_begins(path, prefix);
    assert forall|i: int| 0 <= i < list.len() implies !keep(#[trigger] list[i]) by {
        lemma_entry(dir, names[i], prefix);
    }
    lemma_nothing_kept(list, keep);
    lemma_order_keeps_number(list.filter(keep));
}

/// Where one directory begins as what is typed, that directory is typed, as one, with the cursor at
/// the end.
pub proof fn law_sole_match_is_typed(
    app: AppView,
    dir: Seq<u8>,
    names: Seq<Seq<char>>,
    prefix: Seq<char>,
    k: int,
)
    requires
        dir.len() > 0,
        names.len() <= usize::MAX,
        are_entry_names(names),
        0 <= k < names.len(),
        forall|i: int|
            0 <= i < names.len() ==> (starts_with(#[trigger] names[i], prefix) <==> i == k),
    ensures
        ({
            let after = app.completion_found(dir, prefix, Some(entries(dir, names)));
            &&& after.editor.line == complete::typed(
                paths::joined(dir, vstd::utf8::encode_utf8(names[k])),
                true,
                app.home,
            )
            &&& after.editor.cursor == after.editor.line.len()
            &&& after.input_mode == app.input_mode
            &&& after.config == app.config
        }),
{
    let list = entries(dir, names);
    let keep = |path: Seq<u8>| complete::name_begins(path, prefix);
    assert forall|i: int| 0 <= i < list.len() implies (keep(#[trigger] list[i]) <==> i == k) by {
        lemma_entry(dir, names[i], prefix);
        assert(starts_with(names[i], prefix) <==> i == k);
    }
    lemma_one_kept(list, keep, k);
    lemma_order_keeps_number(list.filter(keep));
}

/// A text is what all names that begin in some way begin with, and no longer one is.
pub open spec fn is_common(names: Seq<Seq<char>>, prefix: Seq<char>, common: Seq<char>) -> bool {
    &&& forall|i: int|
        0 <= i < names.len() && starts_with(#[trigger] names[i], prefix) ==> starts_with(
            names[i],
            common,
        )
    &&& forall|longer: Seq<char>|
        (forall|i: int|
            0 <= i < names.len() && starts_with(#[trigger] names[i], prefix) ==> starts_with(
                names[i],
                longer,
            )) ==> #[trigger] longer.len() <= common.len()
}

/// Where several directories begin as what is typed, what their names have in common is typed, with
/// the cursor at the end; as a directory only where it is the name of one of them.
pub proof fn law_common_beginning_is_typed(
    app: AppView,
    dir: Seq<u8>,
    names: Seq<Seq<char>>,
    prefix: Seq<char>,
    common: Seq<char>,
    j: int,
    k: int,
)
    requires
        dir.len() > 0,
        names.len() <= usize::MAX,
        are_entry_names(names),
        0 <= j < k < names.len(),
        names[j] != names[k],
        starts_with(names[j], prefix),
        starts_with(names[k], prefix),
        is_common(names, prefix, common),
        is_entry_name(common),
    ensures
        ({
            let after = app.completion_found(dir, prefix, Some(entries(dir, names)));
            &&& exists|path: Seq<u8>|
                paths::components(path) == paths::components(dir).push(
                    vstd::utf8::encode_utf8(common),
                ) && after.editor.line == #[trigger] complete::typed(
                    path,
                    names.contains(common),
                    app.home,
                )
            &&& after.editor.cursor == after.editor.line.len()
        }),
{
    let list = entries(dir, names);
    let found = complete::candidates(list, prefix);
    assert forall|i: int| 0 <= i < names.len() implies complete::name_begins(
        #[trigger] list[i],
        prefix,
    ) == starts_with(names[i], prefix) && storage::name_text(list[i]) == names[i] by {
        lemma_entry(dir, names[i], prefix);
    }
    assert forall|path: Seq<u8>| #[trigger]
        found.contains(path) <==> list.contains(path) && complete::name_begins(path, prefix) by {
        complete_laws::law_candidates_are_the_matches(list, prefix, path);
    }
    assert(list.contains(list[j]) && list.contains(list[k]));
    assert(found.contains(list[j]) && found.contains(list[k]));
    let a = choose|a: int| 0 <= a < found.len() && found[a] == list[j];
    let b = choose|b: int| 0 <= b < found.len() && found[b] == list[k];
    assert(found.len() >= 2) by {
        if found.len() < 2 {
            assert(a == b);
        }
    }
    let name = complete::common_name(found);
    complete_laws::law_common_name_is_longest(found, common);
    assert forall|i: int| 0 <= i < found.len() implies text::begins(
        common,
        storage::name_text(#[trigger] found[i]),
    ) by {
        assert(found.contains(found[i]));
        let m = choose|m: int| 0 <= m < list.len() && list[m] == found[i];
        assert(starts_with(names[m], prefix));
        lemma_starts_with(names[m], common);
    }
    assert(text::begins(common, name));
    assert forall|i: int| 0 <= i < names.len() && starts_with(
        #[trigger] names[i],
        prefix,
    ) implies starts_with(names[i], name) by {
        assert(list.contains(list[i]));
        assert(found.contains(list[i]));
        let m = choose|m: int| 0 <= m < found.len() && found[m] == list[i];
        assert(text::begins(name, storage::name_text(found[m])));
        lemma_starts_with(names[i], name);
    }
    assert(name.len() <= common.len());
    assert(name =~= common) by {
        assert(name.take(common.len() as int) =~= name);
    }
    assert(found.contains(found[0]));
    let f = choose|f: int| 0 <= f < list.len() && list[f] == found[0];
    lemma_entry(dir, names[f], prefix);
    path_laws::law_join_goes_one_deeper(dir, vstd::utf8::encode_utf8(names[f]));
    let outer = paths::parent(found[0])->0;
    path_laws::lemma_component_shapes(dir);
    path_laws::lemma_component_shapes(outer);
    path_laws::law_join_goes_one_deeper(outer, vstd::utf8::encode_utf8(common));
    assert(common.len() > 0) by {
        if common.len() == 0 {
            encoding::law_encoded_text_is_read_back(common);
            assert(vstd::utf8::encode_utf8(common) =~= Seq::<u8>::empty());
        }
    }
    let path = complete::common_path(found);
    assert(paths::components(path) == paths::components(dir).push(
        vstd::utf8::encode_utf8(common),
    ));
    path_laws::lemma_component_shapes(path);
    assert(complete::among(path, found) == names.contains(common)) by {
        if complete::among(path, found) {
            let i = choose|i: int|
                0 <= i < found.len() && paths::components(#[trigger] found[i])
                    == paths::components(path);
            assert(found.contains(found[i]));
            let m = choose|m: int| 0 <= m < list.len() && list[m] == found[i];
            lemma_entry(dir, names[m], prefix);
            assert(paths::components(path).last() == vstd::utf8::encode_utf8(common));
            assert(paths::components(list[m]).last() == vstd::utf8::encode_utf8(names[m]));
            encoding::law_encoded_text_is_read_back(common);
            encoding::law_encoded_text_is_read_back(names[m]);
            assert(names[m] == common);
        }
        if names.contains(common) {
            let m = choose|m: int| 0 <= m < names.len() && names[m] == common;
            lemma_entry(dir, names[m], prefix);
            complete_laws::law_common_name_is_longest(found, prefix);
            assert forall|i: int| 0 <= i < found.len() implies text::begins(
                prefix,
                storage::name_text(#[trigger] found[i]),
            ) by {
                assert(found.contains(found[i]));
                let q = choose|q: int| 0 <= q < list.len() && list[q] == found[i];
                assert(starts_with(names[q], prefix));
                lemma_starts_with(names[q], prefix);
            }
            lemma_starts_with(common, prefix);
            assert(list.contains(list[m]));
            assert(found.contains(list[m]));
            let q = choose|q: int| 0 <= q < found.len() && found[q] == list[m];
            assert(paths::components(found[q]) == paths::components(path));
        }
    }
    assert(app.completion_found(dir, prefix, Some(list)).editor.line == complete::typed(
        path,
        names.contains(common),
        app.home,
    ));
}

/// Directories that could not be read leave the line as it is.
pub proof fn law_unreadable_directory_leaves_the_line(
    app: AppView,
    dir: Seq<u8>,
    prefix: Seq<char>,
)
    ensures
        app.completion_found(dir, prefix, None).editor == app.editor,
        app.completion_found(dir, prefix, None).input_mode == app.input_mode,
{
}

/// A directory is typed with a slash at the end.
pub proof fn law_typed_directory_ends_in_a_slash(path: Seq<u8>, home: Option<Seq<u8>>)
    ensures
        complete::typed(path, true, home).len() > 0,
        complete::typed(path, true, home).last() == '/',
{
    reveal_strlit("~/");
}

/// Tab asks for what the line means to be looked up, the home directory where nothing is typed.
pub proof fn law_tab_asks_for_completions(
    app: AppView,
    control: bool,
    output: Output,
    epoch: u64,
)
    requires
        app.input_mode == InputMode::AddDirectory,
    ensures
        ({
            let step = app.key(KeyPress { key: Key::Tab, control }, output, epoch);
            let typed = text::trim(app.editor.line);
            &&& step.app == app
            &&& typed.len() > 0 && typed[0] != '~' ==> step.actions == seq![
                ActionView::ProbeCompletion { path: vstd::utf8::encode_utf8(typed) },
            ]
            &&& typed.len() == 0 && app.home is Some ==> step.actions.len() == 1 && (
            step.actions[0] matches ActionView::ProbeCompletion { path } && paths::components(path)
                == paths::components(app.home->0))
        }),
{
    reveal_strlit("~");
    reveal_strlit("~/");
    let typed = text::trim(app.editor.line);
    if typed.len() > 1 {
        assert(typed.take(2)[0] == typed[0]);
    }
    assert("~"@[0] == '~');
    assert("~/"@[0] == '~');
    if let Some(home) = app.home {
        assert("~/"@.take(2) =~= "~/"@);
        assert("~/"@ != "~"@) by {
            assert("~/"@.len() == 2);
        }
        assert("~/"@.skip(2) =~= Seq::<char>::empty());
        assert(encoding::encoded(Seq::<char>::empty()) =~= Seq::<u8>::empty());
        let path = paths::joined(home, Seq::empty());
        if home.len() > 0 {
            path_laws::lemma_trailing_slash(home);
        }
        assert(path =~= home || path =~= home.push(paths::SLASH));
    }
}

/// Completions of a path that is no directory are the entries of its parent that begin as its last
/// component does; those of a directory are all of its entries.
pub proof fn law_completions_stand_beside_what_is_typed(dir: Seq<u8>, name: Seq<char>)
    requires
        dir.len() > 0,
        is_entry_name(name),
    ensures
        ({
            let path = paths::joined(dir, vstd::utf8::encode_utf8(name));
            let (beside, prefix) = complete::search_of(path, false);
            &&& paths::components(beside) == paths::components(dir)
            &&& prefix == name
            &&& complete::search_of(path, true).0 == path
            &&& complete::search_of(path, true).1.len() == 0
        }),
{
    let path = paths::joined(dir, vstd::utf8::encode_utf8(name));
    reveal_strlit("");
    lemma_entry(dir, name, name);
    path_laws::law_join_goes_one_deeper(dir, vstd::utf8::encode_utf8(name));
    path_laws::lemma_component_shapes(path);
    path_laws::lemma_component_shapes(dir);
    path_laws::lemma_component_shapes(paths::parent(path)->0);
}

} // verus!
