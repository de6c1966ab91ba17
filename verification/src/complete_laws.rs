//! What holds of completion: what it finds, what it types, and what that means.

use vstd::prelude::*;
use vstd::relations::*;
use vstd::seq_lib::*;

use crate::complete;
use crate::encoding;
use crate::library;
use crate::order;
use crate::path_laws;
use crate::paths;
use crate::storage;
use crate::text;

verus! {

/// The directories that are found are those whose names begin in the given way, in the order of
/// their paths.
pub proof fn law_candidates_are_the_matches(
    directories: Seq<Seq<u8>>,
    prefix: Seq<char>,
    path: Seq<u8>,
)
    requires
        directories.len() <= usize::MAX,
    ensures
        complete::candidates(directories, prefix).contains(path) <==> directories.contains(path)
            && complete::name_begins(path, prefix),
        forall|j: int, k: int|
            0 <= j < k < complete::candidates(directories, prefix).len()
                ==> paths::components_order()(
                paths::components(#[trigger] complete::candidates(directories, prefix)[j]),
                paths::components(#[trigger] complete::candidates(directories, prefix)[k]),
            ),
{
    broadcast use group_to_multiset_ensures;

    let begins = |p: Seq<u8>| complete::name_begins(p, prefix);
    let kept = directories.filter(begins);
    let leq = complete::path_index_order(kept);
    let all = library::indices_below(kept.len());
    let sorted = all.sort_by(leq);
    let pick = |i: usize| kept[i as int];
    let found = complete::candidates(directories, prefix);
    directories.lemma_filter_len(begins);
    paths::lemma_components_order_total();
    order::lemma_base_orders_total();
    order::lemma_by_key_total(
        |i: usize| paths::components(kept[i as int]),
        paths::components_order(),
        order::by_index(),
    );
    all.lemma_sort_by_ensures(leq);
    order::lemma_map_permuted(all, sorted, pick);
    assert(all.map_values(pick) =~= kept);
    assert(found =~= sorted.map_values(pick));
    kept.to_multiset_ensures();
    found.to_multiset_ensures();
    assert(found.contains(path) <==> found.to_multiset().count(path) > 0);
    assert(kept.contains(path) <==> kept.to_multiset().count(path) > 0);
    if kept.contains(path) {
        let k = choose|k: int| 0 <= k < kept.len() && kept[k] == path;
        directories.lemma_filter_pred(begins, k);
        directories.lemma_filter_contains_rev(begins, path);
    }
    if directories.contains(path) && complete::name_begins(path, prefix) {
        let k = choose|k: int| 0 <= k < directories.len() && directories[k] == path;
        directories.lemma_filter_contains(begins, k);
    }
    assert forall|j: int, k: int| 0 <= j < k < found.len() implies paths::components_order()(
        paths::components(#[trigger] found[j]),
        paths::components(#[trigger] found[k]),
    ) by {
        assert(leq(sorted[j], sorted[k]));
        if paths::components(found[j]) == paths::components(found[k]) {
            assert(paths::components_order()(
                paths::components(found[j]),
                paths::components(found[j]),
            ));
        }
    }
}

/// What two texts share is how both begin, and nothing longer is.
proof fn lemma_shared(a: Seq<char>, b: Seq<char>, prefix: Seq<char>)
    ensures
        text::shared_len(a, b) <= a.len(),
        text::begins(a.take(text::shared_len(a, b) as int), b),
        text::begins(prefix, a) && text::begins(prefix, b) ==> text::begins(
            prefix,
            a.take(text::shared_len(a, b) as int),
        ),
    decreases a.len(),
{
    let n = text::shared_len(a, b) as int;
    if a.len() > 0 && b.len() > 0 && a[0] == b[0] {
        let shorter = if prefix.len() > 0 {
            prefix.drop_first()
        } else {
            prefix
        };
        lemma_shared(a.drop_first(), b.drop_first(), shorter);
        let m = text::shared_len(a.drop_first(), b.drop_first()) as int;
        assert(a.take(n) =~= seq![a[0]] + a.drop_first().take(m));
        assert(b.take(n) =~= seq![b[0]] + b.drop_first().take(m));
        assert(b.drop_first().take(m) == a.drop_first().take(m));
        if text::begins(prefix, a) && text::begins(prefix, b) && prefix.len() > 0 {
            assert(prefix[0] == a.take(prefix.len() as int)[0]);
            assert(a.drop_first().take(prefix.len() - 1) =~= a.take(
                prefix.len() as int,
            ).drop_first());
            assert(b.drop_first().take(prefix.len() - 1) =~= b.take(
                prefix.len() as int,
            ).drop_first());
            assert(a.take(n).take(prefix.len() as int) =~= a.take(prefix.len() as int));
        } else if prefix.len() == 0 {
            assert(a.take(n).take(0) =~= prefix);
        }
    } else {
        assert(a.take(0) =~= seq![]);
        assert(b.take(0) =~= seq![]);
        if text::begins(prefix, a) && text::begins(prefix, b) && prefix.len() > 0 {
            assert(a.take(prefix.len() as int)[0] == b.take(prefix.len() as int)[0]);
        }
        assert(a.take(0).take(0) =~= seq![]);
        assert(prefix.len() == 0 ==> prefix =~= seq![]);
    }
}

proof fn lemma_begins_transitive(a: Seq<char>, b: Seq<char>, c: Seq<char>)
    requires
        text::begins(a, b),
        text::begins(b, c),
    ensures
        text::begins(a, c),
{
    assert(c.take(a.len() as int) =~= c.take(b.len() as int).take(a.len() as int));
}

/// What completion takes as common is how every name begins, and no longer text is.
pub proof fn law_common_name_is_longest(list: Seq<Seq<u8>>, prefix: Seq<char>)
    requires
        list.len() > 0,
    ensures
        forall|i: int|
            0 <= i < list.len() ==> text::begins(
                complete::common_name(list),
                storage::name_text(#[trigger] list[i]),
            ),
        (forall|i: int|
            0 <= i < list.len() ==> text::begins(prefix, storage::name_text(#[trigger] list[i])))
            ==> text::begins(prefix, complete::common_name(list)),
    decreases list.len(),
{
    let whole = complete::common_name(list);
    let last = storage::name_text(list.last());
    if list.len() == 1 {
        assert(last.take(last.len() as int) =~= last);
    } else {
        let fewer = list.drop_last();
        let before = complete::common_name(fewer);
        law_common_name_is_longest(fewer, prefix);
        lemma_shared(before, last, prefix);
        assert(before.take(whole.len() as int) =~= whole);
        assert forall|i: int| 0 <= i < list.len() implies text::begins(
            whole,
            storage::name_text(#[trigger] list[i]),
        ) by {
            if i < fewer.len() {
                assert(fewer[i] == list[i]);
                lemma_begins_transitive(whole, before, storage::name_text(list[i]));
            }
        }
        if forall|i: int|
            0 <= i < list.len() ==> text::begins(prefix, storage::name_text(#[trigger] list[i])) {
            assert forall|i: int| 0 <= i < fewer.len() implies text::begins(
                prefix,
                storage::name_text(#[trigger] fewer[i]),
            ) by {
                assert(fewer[i] == list[i]);
            }
            assert(text::begins(prefix, storage::name_text(list[list.len() - 1])));
        }
    }
}

proof fn lemma_encoded_concat(a: Seq<char>, b: Seq<char>)
    ensures
        encoding::encoded(a + b) == encoding::encoded(a) + encoding::encoded(b),
    decreases a.len(),
{
    if a.len() == 0 {
        assert(a + b =~= b);
        assert(encoding::encoded(a) + encoding::encoded(b) =~= encoding::encoded(b));
    } else {
        assert((a + b).drop_first() =~= a.drop_first() + b);
        lemma_encoded_concat(a.drop_first(), b);
        let first = vstd::utf8::encode_scalar(a[0] as u32);
        assert(first + (encoding::encoded(a.drop_first()) + encoding::encoded(b)) =~= (first
            + encoding::encoded(a.drop_first())) + encoding::encoded(b));
    }
}

proof fn lemma_encoded_slash()
    ensures
        encoding::encoded(seq!['/']) == seq![paths::SLASH],
{
    reveal_with_fuel(vstd::utf8::encode_utf8, 2);
    assert('/' as u32 == 47);
    assert((47u32 & 0x7F) as u8 == 47u8) by (bit_vector);
    assert(seq!['/'].drop_first() =~= seq![]);
    assert(encoding::encoded(seq!['/']) =~= seq![paths::SLASH]);
}

/// Adding a slash at the end of a text does not change what path it means.
proof fn lemma_slash_adds_nothing(rest: Seq<u8>, t: Seq<char>)
    requires
        rest.len() > 0,
        encoding::encoded(t) == rest,
    ensures
        paths::components(encoding::encoded(text::with_slash(t))) == paths::components(rest),
        encoding::encoded(text::with_slash(t)).len() > 0,
        encoding::encoded(text::with_slash(t))[0] == rest[0],
{
    if !(t.len() > 0 && t.last() == '/') {
        assert(t.push('/') =~= t + seq!['/']);
        lemma_encoded_concat(t, seq!['/']);
        lemma_encoded_slash();
        assert(encoding::encoded(t.push('/')) =~= rest.push(paths::SLASH));
        path_laws::lemma_trailing_slash(rest);
    }
}

/// What stands before a slash in a text, and what stands after it, are texts.
proof fn lemma_slash_parts_texts(bytes: Seq<u8>, i: int)
    requires
        vstd::utf8::valid_utf8(bytes),
        0 <= i < bytes.len(),
        bytes[i] == paths::SLASH,
    ensures
        vstd::utf8::valid_utf8(bytes.take(i)),
        vstd::utf8::valid_utf8(bytes.skip(i + 1)),
{
    assert(!vstd::utf8::is_continuation_byte(47u8));
    vstd::utf8::is_char_boundary_iff_not_is_continuation_byte(bytes, i);
    vstd::utf8::valid_utf8_split(bytes, i);
    let rest = bytes.subrange(i, bytes.len() as int);
    assert(bytes.subrange(0, i) =~= bytes.take(i));
    assert(rest[0] == 47u8);
    assert(vstd::utf8::pop_first_scalar(rest) =~= bytes.skip(i + 1));
}

proof fn lemma_without_tail_is_text(path: Seq<u8>)
    requires
        vstd::utf8::valid_utf8(path),
    ensures
        vstd::utf8::valid_utf8(paths::without_tail(path)),
    decreases path.len(),
{
    broadcast use vstd::utf8::encode_utf8_valid_utf8;

    paths::lemma_last_slash(path);
    lemma_encoded_slash();
    let i = paths::last_slash(path);
    if i > 0 {
        lemma_slash_parts_texts(path, i);
        lemma_without_tail_is_text(path.take(i));
    }
    assert(vstd::utf8::valid_utf8(encoding::encoded(seq!['/'])));
}

/// A component stands at the beginning of a path or after a slash.
proof fn lemma_component_follows_slash(path: Seq<u8>, n: int)
    ensures
        ({
            let at = paths::component_start(path, n);
            at == 0 || (0 < at <= path.len() && path[at - 1] == paths::SLASH)
        }),
    decreases path.len(),
{
    paths::lemma_last_slash(path);
    let i = paths::last_slash(path);
    if i > 0 {
        lemma_component_follows_slash(path.take(i), n);
    }
}

/// What follows the first components of a text is a text.
proof fn lemma_rest_is_text(path: Seq<u8>, n: int)
    requires
        vstd::utf8::valid_utf8(path),
    ensures
        vstd::utf8::valid_utf8(paths::after_components(path, n)),
{
    lemma_without_tail_is_text(path);
    let kept = paths::without_tail(path);
    if n < paths::components(path).len() {
        lemma_component_start_kept(path, n);
        let at = paths::component_start(path, n);
        lemma_component_follows_slash(kept, n);
        if at == 0 {
            assert(kept.skip(0) =~= kept);
        } else {
            lemma_slash_parts_texts(kept, at - 1);
        }
    } else {
        assert(paths::after_components(path, n) =~= seq![]);
    }
}

/// A component stands in the same place without the tail of the path.
proof fn lemma_component_start_kept(path: Seq<u8>, n: int)
    requires
        n < paths::components(path).len(),
    ensures
        paths::component_start(paths::without_tail(path), n) == paths::component_start(path, n),
    decreases path.len(),
{
    paths::lemma_last_slash(path);
    let i = paths::last_slash(path);
    if i > 0 && paths::names_nothing(path.skip(i + 1)) {
        lemma_component_start_kept(path.take(i), n);
    } else if i == 0 && paths::names_nothing(path.skip(1)) {
        let root = seq![paths::SLASH];
        path_laws::lemma_last_slash_at(root, 0);
    }
}

/// What completion types for a path in the home directory means that path.
pub proof fn law_typed_path_in_home_means_it(path: Seq<u8>, is_dir: bool, home: Seq<u8>)
    requires
        paths::lies_under(path, home),
        vstd::utf8::valid_utf8(path),
    ensures
        paths::components(
            complete::expanded(complete::typed(path, is_dir, Some(home)), Some(home)),
        ) == paths::components(path),
{
    broadcast use vstd::utf8::decode_utf8_encode_utf8;

    let shown = complete::typed(path, is_dir, Some(home));
    let n = paths::components(home).len() as int;
    let rest = paths::after_components(path, n);
    lemma_rest_is_text(path, n);
    reveal_strlit("~/");
    reveal_strlit("~");
    let tilde = "~/"@;
    assert(tilde.len() == 2);
    assert("~"@.len() == 1);
    assert(shown.len() >= 2);
    assert(shown.take(2) =~= tilde);
    let tail = shown.skip(2);
    path_laws::lemma_component_shapes(home);
    path_laws::lemma_component_shapes(path);
    if paths::components(path) == paths::components(home) {
        assert(shown == tilde);
        lemma_home_with_slash(home, tail);
    } else {
        if home.len() == 0 {
            path_laws::law_rest_has_the_other_components(path, 0);
            assert(paths::components(path).skip(0) =~= paths::components(path));
            path_laws::lemma_component_shapes(rest);
        } else {
            path_laws::law_join_undoes_stripping(path, home);
            path_laws::law_join_adds_components(home, rest);
        }
        let t = encoding::lossy(rest);
        assert(encoding::encoded(t) == rest);
        assert(t.len() > 0) by {
            if t.len() == 0 {
                assert(encoding::encoded(t) =~= seq![]);
            }
        }
        if is_dir {
            assert(tail =~= text::with_slash(t));
            lemma_slash_adds_nothing(rest, t);
            if home.len() > 0 {
                path_laws::law_join_adds_components(home, encoding::encoded(tail));
            } else {
                assert(home + encoding::encoded(tail) =~= encoding::encoded(tail));
            }
        } else {
            assert(tail =~= t);
            if home.len() == 0 {
                assert(home + rest =~= rest);
            }
        }
    }
}

proof fn lemma_home_with_slash(home: Seq<u8>, tail: Seq<char>)
    requires
        tail.len() == 0,
    ensures
        paths::components(paths::joined(home, encoding::encoded(tail))) == paths::components(home),
{
    let end = encoding::encoded(tail);
    assert(end =~= seq![]);
    if home.len() > 0 && home.last() != paths::SLASH {
        assert(paths::joined(home, end) =~= home.push(paths::SLASH));
        path_laws::lemma_trailing_slash(home);
    } else {
        assert(paths::joined(home, end) =~= home);
    }
}

/// What completion types for a path outside of the home directory means that path, unless it begins
/// with a tilde.
pub proof fn law_typed_path_elsewhere_means_it(
    path: Seq<u8>,
    is_dir: bool,
    home: Option<Seq<u8>>,
)
    requires
        path.len() > 0,
        vstd::utf8::valid_utf8(path),
        home matches Some(dir) ==> !paths::lies_under(path, dir),
        encoding::lossy(path)[0] != '~',
    ensures
        paths::components(complete::expanded(complete::typed(path, is_dir, home), home))
            == paths::components(path),
{
    broadcast use vstd::utf8::decode_utf8_encode_utf8;

    let shown = complete::typed(path, is_dir, home);
    let t = encoding::lossy(path);
    assert(encoding::encoded(t) == path);
    assert(t.len() > 0) by {
        if t.len() == 0 {
            assert(encoding::encoded(t) =~= seq![]);
        }
    }
    if let Some(dir) = home {
        if paths::components(path) == paths::components(dir) {
            assert(paths::components(path).take(paths::components(dir).len() as int)
                =~= paths::components(dir));
        }
    }
    assert(shown == complete::hinted(path, is_dir));
    if is_dir {
        lemma_slash_adds_nothing(path, t);
    }
    reveal_strlit("~/");
    reveal_strlit("~");
    assert(shown[0] == t[0]);
    assert("~"@[0] == '~');
    if text::begins("~/"@, shown) {
        assert(shown.take(2)[0] == '~');
    }
}

/// A name that is typed without a directory is looked for in the working directory.
pub proof fn law_bare_name_is_looked_for_here(path: Seq<u8>)
    requires
        path.len() > 0,
        path[0] != paths::SLASH,
        paths::components(path).len() == 1,
    ensures
        complete::search_of(path, false) == (seq![paths::DOT], storage::name_text(path)),
{
    path_laws::law_parent_drops_last(path);
    path_laws::lemma_component_shapes(path);
    if let Some(outer) = paths::parent(path) {
        path_laws::lemma_component_shapes(outer);
    }
}

}
