//! File system paths as byte sequences with `/` as the separator.

use vstd::prelude::*;
use vstd::relations::*;

use crate::encoding;
use crate::order;

verus! {

pub const SLASH: u8 = 47;

pub const DOT: u8 = 46;

/// The position of the last slash, or -1 where there is none.
pub open spec fn last_slash(path: Seq<u8>) -> int
    decreases path.len(),
{
    if path.len() == 0 {
        -1
    } else if path.last() == SLASH {
        path.len() - 1
    } else {
        last_slash(path.drop_last())
    }
}

/// Where the last slash stands.
pub proof fn lemma_last_slash(path: Seq<u8>)
    ensures
        -1 <= last_slash(path) < path.len(),
        last_slash(path) >= 0 ==> path[last_slash(path)] == SLASH,
        forall|k: int| last_slash(path) < k < path.len() ==> path[k] != SLASH,
    decreases path.len(),
{
    if path.len() > 0 && path.last() != SLASH {
        lemma_last_slash(path.drop_last());
        assert forall|k: int| last_slash(path) < k < path.len() implies path[k] != SLASH by {
            if k < path.len() - 1 {
                assert(path.drop_last()[k] == path[k]);
            }
        }
    }
}

/// A piece between slashes that names nothing: an empty one or a single dot.
pub open spec fn names_nothing(piece: Seq<u8>) -> bool {
    piece.len() == 0 || piece == seq![DOT]
}

/// The components of a path, outermost first. A leading slash is a component of its own, and so is
/// a leading dot; other dots and repeated or trailing slashes are not.
pub open spec fn components(path: Seq<u8>) -> Seq<Seq<u8>>
    decreases path.len(),
{
    proof {
        lemma_last_slash(path);
    }
    let i = last_slash(path);
    if i < 0 {
        if path.len() == 0 {
            seq![]
        } else {
            seq![path]
        }
    } else {
        let outer = if i == 0 {
            seq![seq![SLASH]]
        } else {
            components(path.take(i))
        };
        if names_nothing(path.skip(i + 1)) {
            outer
        } else {
            outer.push(path.skip(i + 1))
        }
    }
}

/// The root comes before a dot, a dot before two dots, and two dots before any name.
pub open spec fn component_rank(component: Seq<u8>) -> int {
    if component == seq![SLASH] {
        0
    } else if component == seq![DOT] {
        1
    } else if component == seq![DOT, DOT] {
        2
    } else {
        3
    }
}

/// Components by rank, and names in dictionary order of their bytes.
pub open spec fn component_order() -> spec_fn(Seq<u8>, Seq<u8>) -> bool {
    |a: Seq<u8>, b: Seq<u8>|
        if component_rank(a) != component_rank(b) {
            component_rank(a) <= component_rank(b)
        } else {
            order::lex_le(order::byte_order(), a, b)
        }
}

/// Lists of components in dictionary order.
pub open spec fn components_order() -> spec_fn(Seq<Seq<u8>>, Seq<Seq<u8>>) -> bool {
    order::lex(component_order())
}

/// The order of path components is total.
pub proof fn lemma_components_order_total()
    ensures
        total_ordering(component_order()),
        total_ordering(components_order()),
{
    order::lemma_base_orders_total();
    order::lemma_lex_total(order::byte_order());
    let bytes = order::lex(order::byte_order());
    let r = component_order();
    assert forall|a: Seq<u8>| #[trigger] r(a, a) by {
        assert(bytes(a, a));
    }
    assert forall|a: Seq<u8>, b: Seq<u8>| #[trigger] r(a, b) && #[trigger] r(b, a) implies a
        == b by {
        assert(bytes(a, b) && bytes(b, a));
    }
    assert forall|a: Seq<u8>, b: Seq<u8>, c: Seq<u8>| #[trigger]
        r(a, b) && #[trigger] r(b, c) implies r(a, c) by {
        if component_rank(a) == component_rank(b) && component_rank(b) == component_rank(c) {
            assert(bytes(a, b) && bytes(b, c));
        }
    }
    assert forall|a: Seq<u8>, b: Seq<u8>| #[trigger] r(a, b) || #[trigger] r(b, a) by {
        assert(bytes(a, b) || bytes(b, a));
    }
    order::lemma_lex_total(component_order());
}

/// The last component, where it is a name.
pub open spec fn file_name(path: Seq<u8>) -> Option<Seq<u8>> {
    let parts = components(path);
    if parts.len() > 0 && component_rank(parts.last()) == 3 {
        Some(parts.last())
    } else {
        None
    }
}

/// The name of the directory that a path's last component stands in.
pub open spec fn parent_name(path: Seq<u8>) -> Option<Seq<u8>> {
    let parts = components(path);
    if parts.len() > 1 && component_rank(parts[parts.len() - 2]) == 3 {
        Some(parts[parts.len() - 2])
    } else {
        None
    }
}

/// The position of the last dot, or -1 where there is none.
pub open spec fn last_dot(name: Seq<u8>) -> int
    decreases name.len(),
{
    if name.len() == 0 {
        -1
    } else if name.last() == DOT {
        name.len() - 1
    } else {
        last_dot(name.drop_last())
    }
}

/// A file name up to its last dot; all of it where it has no dot but perhaps at its beginning.
pub open spec fn stem(name: Seq<u8>) -> Seq<u8> {
    if last_dot(name) > 0 {
        name.take(last_dot(name))
    } else {
        name
    }
}

/// What follows the last dot of a file name, unless that dot is at its beginning.
pub open spec fn extension(name: Seq<u8>) -> Option<Seq<u8>> {
    if last_dot(name) > 0 {
        Some(name.skip(last_dot(name) + 1))
    } else {
        None
    }
}

/// A path without the slashes and dots at its end that name nothing.
pub open spec fn without_tail(path: Seq<u8>) -> Seq<u8>
    decreases path.len(),
{
    proof {
        lemma_last_slash(path);
    }
    let i = last_slash(path);
    if i >= 0 && names_nothing(path.skip(i + 1)) {
        if i == 0 {
            seq![SLASH]
        } else {
            without_tail(path.take(i))
        }
    } else {
        path
    }
}

/// A path without its last component; nothing where there is none or only the root.
pub open spec fn parent(path: Seq<u8>) -> Option<Seq<u8>>
    decreases path.len(),
{
    proof {
        lemma_last_slash(path);
    }
    let i = last_slash(path);
    if i < 0 {
        if path.len() == 0 {
            None
        } else {
            Some(seq![])
        }
    } else if names_nothing(path.skip(i + 1)) {
        if i == 0 {
            None
        } else {
            parent(path.take(i))
        }
    } else if i == 0 {
        Some(seq![SLASH])
    } else {
        Some(without_tail(path.take(i)))
    }
}

/// The path that `tail` leads to from `base`: `tail` itself where it begins at the root, else both
/// with one slash between them.
pub open spec fn joined(base: Seq<u8>, tail: Seq<u8>) -> Seq<u8> {
    if tail.len() > 0 && tail[0] == SLASH {
        tail
    } else if base.len() > 0 && base.last() != SLASH {
        base.push(SLASH) + tail
    } else {
        base + tail
    }
}

/// All components of `root` are, in order, the first components of `path`.
pub open spec fn lies_under(path: Seq<u8>, root: Seq<u8>) -> bool {
    components(root).len() <= components(path).len() && components(path).take(
        components(root).len() as int,
    ) == components(root)
}

/// Where component number `n` begins in a path that has it.
pub open spec fn component_start(path: Seq<u8>, n: int) -> int
    decreases path.len(),
{
    proof {
        lemma_last_slash(path);
    }
    let i = last_slash(path);
    if i <= 0 {
        if n == 0 {
            0
        } else {
            i + 1
        }
    } else if !names_nothing(path.skip(i + 1)) && n == components(path).len() - 1 {
        i + 1
    } else {
        component_start(path.take(i), n)
    }
}

/// The part of a path after its first `n` components.
pub open spec fn after_components(path: Seq<u8>, n: int) -> Seq<u8> {
    if n >= components(path).len() {
        seq![]
    } else {
        without_tail(path).skip(component_start(path, n))
    }
}

/// The byte sequences that a list of byte vectors holds.
pub open spec fn byte_views(parts: Seq<Vec<u8>>) -> Seq<Seq<u8>> {
    parts.map_values(|part: Vec<u8>| part@)
}

/// The bytes between two positions.
pub fn slice_bytes(bytes: &Vec<u8>, from: usize, to: usize) -> (part: Vec<u8>)
    requires
        from <= to <= bytes.len(),
    ensures
        part@ == bytes@.subrange(from as int, to as int),
{
    let mut part: Vec<u8> = Vec::new();
    let mut i: usize = from;
    while i < to
        invariant
            from <= i <= to <= bytes.len(),
            part@ == bytes@.subrange(from as int, i as int),
        decreases to - i,
    {
        part.push(bytes[i]);
        assert(part@ =~= bytes@.subrange(from as int, i + 1));
        i = i + 1;
    }
    part
}

/// A copy of some bytes.
pub fn copy_bytes(bytes: &Vec<u8>) -> (copy: Vec<u8>)
    ensures
        copy@ == bytes@,
{
    let copy = slice_bytes(bytes, 0, bytes.len());
    assert(copy@ =~= bytes@);
    copy
}

/// The bytes of `head` and then those of `tail`.
pub fn concat_bytes(head: &Vec<u8>, tail: &Vec<u8>) -> (both: Vec<u8>)
    ensures
        both@ == head@ + tail@,
{
    let mut both = copy_bytes(head);
    let mut i: usize = 0;
    while i < tail.len()
        invariant
            i <= tail.len(),
            both@ == head@ + tail@.take(i as int),
        decreases tail.len() - i,
    {
        both.push(tail[i]);
        assert(both@ =~= head@ + tail@.take(i + 1));
        i = i + 1;
    }
    assert(tail@.take(i as int) =~= tail@);
    both
}

/// Whether two byte sequences are the same.
pub fn same_bytes(a: &Vec<u8>, b: &Vec<u8>) -> (same: bool)
    ensures
        same == (a@ == b@),
{
    if a.len() != b.len() {
        return false;
    }
    let mut i: usize = 0;
    while i < a.len()
        invariant
            a.len() == b.len(),
            i <= a.len(),
            forall|k: int| 0 <= k < i ==> a@[k] == b@[k],
        decreases a.len() - i,
    {
        if a[i] != b[i] {
            return false;
        }
        i = i + 1;
    }
    assert(a@ =~= b@);
    true
}

fn find_last_slash(path: &Vec<u8>) -> (at: Option<usize>)
    ensures
        match at {
            Some(i) => i == last_slash(path@),
            None => last_slash(path@) == -1,
        },
        at matches Some(i) ==> i < path.len(),
{
    let mut end: usize = path.len();
    assert(path@.take(end as int) =~= path@);
    while end > 0
        invariant
            end <= path.len(),
            last_slash(path@) == last_slash(path@.take(end as int)),
        decreases end,
    {
        assert(path@.take(end as int).drop_last() =~= path@.take(end - 1));
        if path[end - 1] == SLASH {
            return Some(end - 1);
        }
        end = end - 1;
    }
    None
}

fn find_last_dot(name: &Vec<u8>) -> (at: Option<usize>)
    ensures
        match at {
            Some(i) => i == last_dot(name@),
            None => last_dot(name@) == -1,
        },
        at matches Some(i) ==> i < name.len(),
{
    let mut end: usize = name.len();
    assert(name@.take(end as int) =~= name@);
    while end > 0
        invariant
            end <= name.len(),
            last_dot(name@) == last_dot(name@.take(end as int)),
        decreases end,
    {
        assert(name@.take(end as int).drop_last() =~= name@.take(end - 1));
        if name[end - 1] == DOT {
            return Some(end - 1);
        }
        end = end - 1;
    }
    None
}

fn piece_names_nothing(piece: &Vec<u8>) -> (nothing: bool)
    ensures
        nothing == names_nothing(piece@),
{
    if piece.len() == 0 {
        true
    } else if piece.len() == 1 && piece[0] == DOT {
        assert(piece@ =~= seq![DOT]);
        true
    } else {
        assert(piece@.len() == 1 ==> piece@[0] != seq![DOT][0]);
        false
    }
}

/// The components of a path.
pub fn split_components(path: &Vec<u8>) -> (parts: Vec<Vec<u8>>)
    ensures
        byte_views(parts@) == components(path@),
    decreases path.len(),
{
    match find_last_slash(path) {
        None => {
            let mut parts: Vec<Vec<u8>> = Vec::new();
            if path.len() > 0 {
                parts.push(copy_bytes(path));
            }
            assert(byte_views(parts@) =~= components(path@));
            parts
        },
        Some(i) => {
            let head = slice_bytes(path, 0, i);
            assert(head@ =~= path@.take(i as int));
            let mut parts: Vec<Vec<u8>> = if i == 0 {
                let mut root: Vec<u8> = Vec::new();
                root.push(SLASH);
                assert(root@ =~= seq![SLASH]);
                let mut only: Vec<Vec<u8>> = Vec::new();
                only.push(root);
                assert(byte_views(only@) =~= seq![seq![SLASH]]);
                only
            } else {
                split_components(&head)
            };
            let ghost outer = byte_views(parts@);
            let piece = slice_bytes(path, i + 1, path.len());
            assert(piece@ =~= path@.skip(i + 1));
            if !piece_names_nothing(&piece) {
                parts.push(piece);
                assert(byte_views(parts@) =~= outer.push(piece@));
            }
            parts
        },
    }
}

fn rank_of(component: &Vec<u8>) -> (rank: u8)
    ensures
        rank == component_rank(component@),
{
    assert(component@.len() == 1 ==> component@ =~= seq![component@[0]]);
    assert(component@.len() == 2 ==> component@ =~= seq![component@[0], component@[1]]);
    assert(seq![SLASH][0] == SLASH && seq![DOT][0] == DOT);
    assert(seq![DOT, DOT][0] == DOT && seq![DOT, DOT][1] == DOT);
    if component.len() == 1 && component[0] == SLASH {
        0
    } else if component.len() == 1 && component[0] == DOT {
        1
    } else if component.len() == 2 && component[0] == DOT && component[1] == DOT {
        2
    } else {
        3
    }
}

fn component_le(a: &Vec<u8>, b: &Vec<u8>) -> (le: bool)
    ensures
        le == component_order()(a@, b@),
{
    let rank_a: u8 = rank_of(a);
    let rank_b: u8 = rank_of(b);
    if rank_a != rank_b {
        rank_a <= rank_b
    } else {
        order::bytes_le(a, b)
    }
}

/// Whether one list of components stands no later than another.
pub fn components_le(a: &Vec<Vec<u8>>, b: &Vec<Vec<u8>>) -> (le: bool)
    ensures
        le == components_order()(byte_views(a@), byte_views(b@)),
{
    let ghost x = byte_views(a@);
    let ghost y = byte_views(b@);
    let mut i: usize = 0;
    while i < a.len() && i < b.len()
        invariant
            x == byte_views(a@),
            y == byte_views(b@),
            i <= a.len(),
            i <= b.len(),
            x.take(i as int) == y.take(i as int),
        decreases a.len() - i,
    {
        assert(x[i as int] == a@[i as int]@ && y[i as int] == b@[i as int]@);
        if !same_bytes(&a[i], &b[i]) {
            proof {
                order::lemma_lex_skip(component_order(), x, y, i as int);
                assert(x.skip(i as int)[0] == x[i as int]);
                assert(y.skip(i as int)[0] == y[i as int]);
            }
            return component_le(&a[i], &b[i]);
        }
        assert(x.take(i + 1) =~= x.take(i as int).push(x[i as int]));
        assert(y.take(i + 1) =~= y.take(i as int).push(y[i as int]));
        i = i + 1;
    }
    proof {
        order::lemma_lex_skip(component_order(), x, y, i as int);
    }
    i == a.len()
}

/// Whether two lists of components are the same.
pub fn same_components(a: &Vec<Vec<u8>>, b: &Vec<Vec<u8>>) -> (same: bool)
    ensures
        same == (byte_views(a@) == byte_views(b@)),
{
    let ghost x = byte_views(a@);
    let ghost y = byte_views(b@);
    if a.len() != b.len() {
        assert(x.len() != y.len());
        return false;
    }
    let mut i: usize = 0;
    while i < a.len()
        invariant
            x == byte_views(a@),
            y == byte_views(b@),
            a.len() == b.len(),
            i <= a.len(),
            forall|k: int| 0 <= k < i ==> x[k] == y[k],
        decreases a.len() - i,
    {
        assert(x[i as int] == a@[i as int]@ && y[i as int] == b@[i as int]@);
        if !same_bytes(&a[i], &b[i]) {
            return false;
        }
        i = i + 1;
    }
    assert(x =~= y);
    true
}

/// Whether two paths have the same components.
pub fn same_path(a: &Vec<u8>, b: &Vec<u8>) -> (same: bool)
    ensures
        same == (components(a@) == components(b@)),
{
    same_components(&split_components(a), &split_components(b))
}

/// The last component of a path, where it is a name.
pub fn path_file_name(path: &Vec<u8>) -> (name: Option<Vec<u8>>)
    ensures
        match name {
            Some(n) => file_name(path@) == Some(n@),
            None => file_name(path@) is None,
        },
{
    let parts = split_components(path);
    assert(forall|k: int| 0 <= k < parts@.len() ==> components(path@)[k] == parts@[k]@);
    assert(parts@.len() == components(path@).len());
    if parts.len() > 0 && rank_of(&parts[parts.len() - 1]) == 3 {
        Some(copy_bytes(&parts[parts.len() - 1]))
    } else {
        None
    }
}

/// The name of the directory that the last component stands in.
pub fn path_parent_name(path: &Vec<u8>) -> (name: Option<Vec<u8>>)
    ensures
        match name {
            Some(n) => parent_name(path@) == Some(n@),
            None => parent_name(path@) is None,
        },
{
    let parts = split_components(path);
    assert(forall|k: int| 0 <= k < parts@.len() ==> components(path@)[k] == parts@[k]@);
    assert(parts@.len() == components(path@).len());
    if parts.len() > 1 && rank_of(&parts[parts.len() - 2]) == 3 {
        Some(copy_bytes(&parts[parts.len() - 2]))
    } else {
        None
    }
}

/// A file name up to its last dot.
pub fn name_stem(name: &Vec<u8>) -> (part: Vec<u8>)
    ensures
        part@ == stem(name@),
{
    match find_last_dot(name) {
        Some(i) => if i > 0 {
            let part = slice_bytes(name, 0, i);
            assert(part@ =~= name@.take(i as int));
            part
        } else {
            copy_bytes(name)
        },
        None => copy_bytes(name),
    }
}

/// What follows the last dot of a file name.
pub fn name_extension(name: &Vec<u8>) -> (part: Option<Vec<u8>>)
    ensures
        match part {
            Some(p) => extension(name@) == Some(p@),
            None => extension(name@) is None,
        },
{
    match find_last_dot(name) {
        Some(i) => if i > 0 {
            let part = slice_bytes(name, i + 1, name.len());
            assert(part@ =~= name@.skip(i + 1));
            Some(part)
        } else {
            None
        },
        None => None,
    }
}

/// A path without the slashes and dots at its end that name nothing.
pub fn drop_tail(path: &Vec<u8>) -> (kept: Vec<u8>)
    ensures
        kept@ == without_tail(path@),
    decreases path.len(),
{
    match find_last_slash(path) {
        None => copy_bytes(path),
        Some(i) => {
            let piece = slice_bytes(path, i + 1, path.len());
            assert(piece@ =~= path@.skip(i + 1));
            if !piece_names_nothing(&piece) {
                return copy_bytes(path);
            }
            if i == 0 {
                let mut root: Vec<u8> = Vec::new();
                root.push(SLASH);
                assert(root@ =~= seq![SLASH]);
                root
            } else {
                let head = slice_bytes(path, 0, i);
                assert(head@ =~= path@.take(i as int));
                drop_tail(&head)
            }
        },
    }
}

/// A path without its last component.
pub fn path_parent(path: &Vec<u8>) -> (outer: Option<Vec<u8>>)
    ensures
        match outer {
            Some(p) => parent(path@) == Some(p@),
            None => parent(path@) is None,
        },
    decreases path.len(),
{
    match find_last_slash(path) {
        None => if path.len() == 0 {
            None
        } else {
            let outer: Vec<u8> = Vec::new();
            assert(outer@ =~= seq![]);
            Some(outer)
        },
        Some(i) => {
            let piece = slice_bytes(path, i + 1, path.len());
            assert(piece@ =~= path@.skip(i + 1));
            let head = slice_bytes(path, 0, i);
            assert(head@ =~= path@.take(i as int));
            if piece_names_nothing(&piece) {
                if i == 0 {
                    None
                } else {
                    path_parent(&head)
                }
            } else if i == 0 {
                let mut root: Vec<u8> = Vec::new();
                root.push(SLASH);
                assert(root@ =~= seq![SLASH]);
                Some(root)
            } else {
                Some(drop_tail(&head))
            }
        },
    }
}

/// The path that `tail` leads to from `base`.
pub fn join(base: &Vec<u8>, tail: &Vec<u8>) -> (path: Vec<u8>)
    ensures
        path@ == joined(base@, tail@),
{
    if tail.len() > 0 && tail[0] == SLASH {
        copy_bytes(tail)
    } else if base.len() > 0 && base[base.len() - 1] != SLASH {
        let mut head = copy_bytes(base);
        head.push(SLASH);
        concat_bytes(&head, tail)
    } else {
        concat_bytes(base, tail)
    }
}

/// The path that a text leads to from `base`.
pub fn join_text(base: &Vec<u8>, tail: &str) -> (path: Vec<u8>)
    ensures
        path@ == joined(base@, encoding::encoded(tail@)),
{
    join(base, &encoding::text_bytes(tail))
}

/// Whether a path lies under a root, or is that root.
pub fn starts_with(path: &Vec<u8>, root: &Vec<u8>) -> (under: bool)
    ensures
        under == lies_under(path@, root@),
{
    let parts = split_components(path);
    let outer = split_components(root);
    let ghost x = components(path@);
    let ghost y = components(root@);
    assert(forall|k: int| 0 <= k < parts@.len() ==> x[k] == parts@[k]@);
    assert(forall|k: int| 0 <= k < outer@.len() ==> y[k] == outer@[k]@);
    assert(x.len() == parts@.len() && y.len() == outer@.len());
    if outer.len() > parts.len() {
        return false;
    }
    let mut i: usize = 0;
    while i < outer.len()
        invariant
            i <= outer.len() <= parts.len(),
            x.len() == parts@.len(),
            y.len() == outer@.len(),
            x == components(path@),
            y == components(root@),
            forall|k: int| 0 <= k < parts@.len() ==> x[k] == parts@[k]@,
            forall|k: int| 0 <= k < outer@.len() ==> y[k] == outer@[k]@,
            forall|k: int| 0 <= k < i ==> x[k] == y[k],
        decreases outer.len() - i,
    {
        if !same_bytes(&parts[i], &outer[i]) {
            assert(x.take(y.len() as int)[i as int] != y[i as int]);
            return false;
        }
        i = i + 1;
    }
    assert(x.take(y.len() as int) =~= y);
    true
}

/// A component that a path has begins within what remains of the path without its tail.
proof fn lemma_component_start(path: Seq<u8>, n: int)
    requires
        0 <= n < components(path).len(),
    ensures
        0 <= component_start(path, n) <= without_tail(path).len(),
    decreases path.len(),
{
    lemma_last_slash(path);
    let i = last_slash(path);
    if i > 0 {
        if names_nothing(path.skip(i + 1)) {
            lemma_component_start(path.take(i), n);
        } else if n < components(path).len() - 1 {
            lemma_component_start(path.take(i), n);
            lemma_without_tail_shorter(path.take(i));
        }
    }
}

proof fn lemma_without_tail_shorter(path: Seq<u8>)
    ensures
        without_tail(path).len() <= path.len(),
    decreases path.len(),
{
    lemma_last_slash(path);
    let i = last_slash(path);
    if i > 0 && names_nothing(path.skip(i + 1)) {
        lemma_without_tail_shorter(path.take(i));
    }
}

fn find_component_start(path: &Vec<u8>, n: usize) -> (start: usize)
    requires
        n < components(path@).len(),
    ensures
        start == component_start(path@, n as int),
    decreases path.len(),
{
    match find_last_slash(path) {
        None => 0,
        Some(i) => {
            if i == 0 {
                return if n == 0 {
                    0
                } else {
                    1
                };
            }
            let piece = slice_bytes(path, i + 1, path.len());
            assert(piece@ =~= path@.skip(i + 1));
            let head = slice_bytes(path, 0, i);
            assert(head@ =~= path@.take(i as int));
            let parts = split_components(path);
            assert(parts@.len() == components(path@).len());
            if !piece_names_nothing(&piece) && n == parts.len() - 1 {
                i + 1
            } else {
                find_component_start(&head, n)
            }
        },
    }
}

/// The part of a path after its first `n` components.
pub fn rest_after(path: &Vec<u8>, n: usize) -> (rest: Vec<u8>)
    ensures
        rest@ == after_components(path@, n as int),
{
    let parts = split_components(path);
    assert(parts@.len() == components(path@).len());
    if n >= parts.len() {
        let rest: Vec<u8> = Vec::new();
        assert(rest@ =~= seq![]);
        return rest;
    }
    let kept = drop_tail(path);
    let start = find_component_start(path, n);
    proof {
        lemma_component_start(path@, n as int);
    }
    let rest = slice_bytes(&kept, start, kept.len());
    assert(rest@ =~= kept@.skip(start as int));
    rest
}

}
