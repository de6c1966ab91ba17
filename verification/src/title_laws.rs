//! Where the title of a file and the keys that it is known by come from.

use vstd::prelude::*;

use crate::encoding;
use crate::library;
use crate::library::{MediaTagsView, TagView};
use crate::media;
use crate::path_laws;
use crate::paths;
use crate::storage;
use crate::text;
use crate::view_laws;

verus! {

/// A tag is marked as the title of a track, in whatever format.
pub open spec fn is_marked(tag: TagView) -> bool {
    tag.standard == Some("TrackTitle"@)
}

/// A tag is named `title`, whatever the case of its letters.
pub open spec fn is_named(tag: TagView) -> bool {
    view_laws::in_small(tag.key) == "title"@
}

/// No tag of a list gives a title.
pub open spec fn is_untitled(list: Seq<TagView>) -> bool {
    forall|k: int|
        0 <= k < list.len() ==> !is_marked(#[trigger] list[k]) && !is_named(list[k])
}

/// A tag gives the title of a list: the first one that is marked, or else the first that is named.
pub open spec fn gives_title(list: Seq<TagView>, i: int) -> bool {
    &&& 0 <= i < list.len()
    &&& if is_marked(list[i]) {
        forall|k: int| 0 <= k < i ==> !is_marked(#[trigger] list[k])
    } else {
        &&& is_named(list[i])
        &&& forall|k: int| 0 <= k < list.len() ==> !is_marked(#[trigger] list[k])
        &&& forall|k: int| 0 <= k < i ==> !is_named(#[trigger] list[k])
    }
}

proof fn lemma_first_tag(list: Seq<TagView>, wanted: spec_fn(TagView) -> bool, i: int)
    requires
        0 <= i <= list.len(),
        forall|k: int| 0 <= k < i ==> !wanted(#[trigger] list[k]),
        i < list.len() ==> wanted(list[i]),
    ensures
        library::first_tag(list, wanted) == (if i < list.len() {
            Some(list[i])
        } else {
            None
        }),
    decreases list.len(),
{
    if i > 0 {
        let rest = list.drop_first();
        assert(!wanted(list[0]));
        assert forall|k: int| 0 <= k < i - 1 implies !wanted(#[trigger] rest[k]) by {
            assert(rest[k] == list[k + 1]);
        }
        if i < list.len() {
            assert(rest[i - 1] == list[i]);
        }
        lemma_first_tag(rest, wanted, i - 1);
    }
}

proof fn lemma_named(tag: TagView)
    ensures
        is_named(tag) <==> text::lower(tag.key) == text::lower("title"@),
{
    reveal_strlit("title");
    view_laws::law_folding_makes_small(tag.key);
    view_laws::law_folding_makes_small("title"@);
    assert(view_laws::in_small("title"@) =~= "title"@);
}

proof fn lemma_tagged(list: Seq<TagView>)
    ensures
        is_untitled(list) ==> library::tagged_title(list) is None,
        forall|i: int| #[trigger]
            gives_title(list, i) ==> library::tagged_title(list) == Some(list[i].value),
{
    let marked = |tag: TagView| library::is_track_title(tag);
    let named = |tag: TagView| text::lower(tag.key) == text::lower("title"@);
    let n = list.len() as int;
    assert forall|k: int| 0 <= k < n implies #[trigger] is_named(list[k]) == named(list[k]) by {
        lemma_named(list[k]);
    }
    if is_untitled(list) {
        lemma_first_tag(list, marked, n);
        lemma_first_tag(list, named, n);
    }
    assert forall|i: int| #[trigger] gives_title(list, i) implies library::tagged_title(list)
        == Some(list[i].value) by {
        if is_marked(list[i]) {
            lemma_first_tag(list, marked, i);
        } else {
            lemma_first_tag(list, marked, n);
            lemma_first_tag(list, named, i);
        }
    }
}

/// The title of a file is that of the tags in its container: the first that is marked as a title,
/// or else the first that is named so.
pub proof fn law_tags_in_the_container_give_the_title(
    tags: MediaTagsView,
    list: Seq<TagView>,
    i: int,
)
    requires
        tags.container == Some(list),
        gives_title(list, i),
    ensures
        library::media_title(tags) == Some(list[i].value),
{
    lemma_tagged(list);
}

/// Where the container tells no title, the tags before it do in the same way; where these tell none
/// either, there is none.
pub proof fn law_tags_before_the_container_give_the_title(tags: MediaTagsView, i: int)
    requires
        tags.container matches Some(list) ==> is_untitled(list),
    ensures
        tags.leading matches Some(list) && gives_title(list, i) ==> library::media_title(tags)
            == Some(tags.leading->0[i].value),
        tags.leading matches Some(list) && is_untitled(list) ==> library::media_title(tags) is None,
        tags.leading is None ==> library::media_title(tags) is None,
{
    if let Some(list) = tags.container {
        lemma_tagged(list);
    }
    if let Some(list) = tags.leading {
        lemma_tagged(list);
    }
}

/// What the tags of a file tell is read from its contents; contents without tags tell no title.
pub proof fn law_title_is_read_from_the_contents(contents: Seq<u8>)
    ensures
        media::probe_returns(contents) ==> library::embedded_title(contents) == (
        match library::media_tags(contents) {
            Some(tags) => library::media_title(tags),
            None => None,
        }),
        !media::probe_returns(contents) ==> library::embedded_title(contents) is None,
{
}

/// A file is known by where it really is, or by its path where that is not known; so a file that is
/// reached by two paths is known by one key.
pub proof fn law_key_is_where_the_file_is(
    path: Seq<char>,
    place: Seq<char>,
    other: Seq<u8>,
)
    ensures
        storage::canonical_text(vstd::utf8::encode_utf8(path), None) == path,
        storage::canonical_text(other, Some(vstd::utf8::encode_utf8(place))) == place,
{
    encoding::law_encoded_text_is_read_back(path);
    encoding::law_encoded_text_is_read_back(place);
}

/// Wherever a file with a given name and size stands, it is known by the same key, which tells both.
pub proof fn law_key_tells_name_and_size(base: Seq<u8>, name: Seq<char>, size: u64)
    requires
        base.len() > 0,
        path_laws::is_name(vstd::utf8::encode_utf8(name)),
        vstd::utf8::encode_utf8(name) != seq![paths::DOT, paths::DOT],
    ensures
        storage::media_text(
            paths::joined(base, vstd::utf8::encode_utf8(name)),
            Some(size),
        ) == name + seq![':', ':'] + text::decimal(size as nat),
{
    reveal_strlit("::");
    encoding::law_encoded_text_is_read_back(name);
    path_laws::law_join_goes_one_deeper(base, vstd::utf8::encode_utf8(name));
    assert("::"@ =~= seq![':', ':']);
}

/// Settings are kept where a variable says, or else below the home directory.
pub proof fn law_settings_have_a_base(
    variable: Seq<char>,
    home: Option<Seq<char>>,
    dir: Seq<char>,
    fallback: Seq<char>,
)
    ensures
        storage::base_dir(Some(variable), home, fallback) == Some(
            vstd::utf8::encode_utf8(variable),
        ),
        storage::base_dir(None, None, fallback) is None,
        dir.len() > 0 && path_laws::is_name(vstd::utf8::encode_utf8(fallback)) ==> ({
            &&& storage::base_dir(None, Some(dir), fallback) matches Some(base)
            &&& paths::components(base) == paths::components(vstd::utf8::encode_utf8(dir)).push(
                vstd::utf8::encode_utf8(fallback),
            )
        }),
{
    let bytes = vstd::utf8::encode_utf8(dir);
    if dir.len() > 0 && path_laws::is_name(vstd::utf8::encode_utf8(fallback)) {
        encoding::law_encoded_text_is_read_back(dir);
        if bytes.len() == 0 {
            encoding::law_encoded_text_is_read_back(Seq::empty());
            assert(bytes =~= vstd::utf8::encode_utf8(Seq::empty()));
        }
        path_laws::law_join_goes_one_deeper(bytes, vstd::utf8::encode_utf8(fallback));
    }
}

/// A file that stands in no directory with a name is grouped under the library's root.
pub proof fn law_files_at_the_root_are_a_group(name: Seq<u8>)
    requires
        path_laws::is_name(name),
    ensures
        library::group_of(paths::joined(seq![paths::SLASH], name)) == "Library Root"@,
        library::group_of(name) == "Library Root"@,
{
    let root = seq![paths::SLASH];
    path_laws::law_name_is_one_component(name);
    path_laws::law_join_goes_one_deeper(root, name);
}

} // verus!
