//! What holds of paths: parents, joining, and what lies under what.

use vstd::prelude::*;

use crate::order;
use crate::paths;

verus! {

/// A name that can stand between slashes: not empty, not a single dot, and without a slash.
pub open spec fn is_name(name: Seq<u8>) -> bool {
    &&& !paths::names_nothing(name)
    &&& forall|k: int| 0 <= k < name.len() ==> #[trigger] name[k] != paths::SLASH
}

/// The last slash is where it is found: there, with none after it.
pub proof fn lemma_last_slash_at(path: Seq<u8>, i: int)
    requires
        0 <= i < path.len(),
        path[i] == paths::SLASH,
        forall|k: int| i < k < path.len() ==> #[trigger] path[k] != paths::SLASH,
    ensures
        paths::last_slash(path) == i,
{
    paths::lemma_last_slash(path);
    let found = paths::last_slash(path);
    if found > i {
        assert(path[found] != paths::SLASH);
    }
}

/// Where no byte is a slash, no last one is found.
pub proof fn lemma_no_slash(path: Seq<u8>)
    requires
        forall|k: int| 0 <= k < path.len() ==> #[trigger] path[k] != paths::SLASH,
    ensures
        paths::last_slash(path) == -1,
{
    paths::lemma_last_slash(path);
}

/// The components after the first are names; a path that is not empty has components, and one that
/// begins with a slash has the root as its first.
pub proof fn lemma_component_shapes(path: Seq<u8>)
    ensures
        path.len() > 0 <==> paths::components(path).len() > 0,
        path.len() > 0 && path[0] == paths::SLASH ==> paths::components(path)[0] == seq![
            paths::SLASH,
        ],
        path.len() > 0 && path[0] != paths::SLASH ==> paths::components(path)[0] != seq![
            paths::SLASH,
        ],
        forall|k: int|
            0 < k < paths::components(path).len() ==> is_name(
                #[trigger] paths::components(path)[k],
            ),
    decreases path.len(),
{
    paths::lemma_last_slash(path);
    let i = paths::last_slash(path);
    let parts = paths::components(path);
    if i > 0 {
        let head = path.take(i);
        lemma_component_shapes(head);
        assert(head[0] == path[0]);
        let piece = path.skip(i + 1);
        assert forall|k: int| 0 <= k < piece.len() implies #[trigger] piece[k] != paths::SLASH by {
            assert(piece[k] == path[i + 1 + k]);
        }
    } else if i == 0 {
        let piece = path.skip(1);
        assert forall|k: int| 0 <= k < piece.len() implies #[trigger] piece[k] != paths::SLASH by {
            assert(piece[k] == path[1 + k]);
        }
    } else if path.len() > 0 {
        assert(parts[0][0] == path[0]);
        assert(path[0] != paths::SLASH);
    }
}

/// Slashes and dots at the end that name nothing do not count.
pub proof fn law_tail_does_not_count(path: Seq<u8>)
    ensures
        paths::components(paths::without_tail(path)) == paths::components(path),
    decreases path.len(),
{
    paths::lemma_last_slash(path);
    let i = paths::last_slash(path);
    if i >= 0 && paths::names_nothing(path.skip(i + 1)) {
        if i == 0 {
            let root = seq![paths::SLASH];
            lemma_last_slash_at(root, 0);
            assert(root.skip(1) =~= seq![]);
        } else {
            law_tail_does_not_count(path.take(i));
        }
    }
}

/// A parent has all components but the last; only a path without components and the root have no
/// parent.
pub proof fn law_parent_drops_last(path: Seq<u8>)
    ensures
        match paths::parent(path) {
            Some(outer) => paths::components(path).len() > 0 && paths::components(outer)
                == paths::components(path).drop_last(),
            None => paths::components(path).len() == 0 || paths::components(path) == seq![
                seq![paths::SLASH],
            ],
        },
    decreases path.len(),
{
    paths::lemma_last_slash(path);
    let i = paths::last_slash(path);
    let parts = paths::components(path);
    if i < 0 {
        if path.len() > 0 {
            assert(parts.drop_last() =~= seq![]);
        }
    } else if paths::names_nothing(path.skip(i + 1)) {
        if i > 0 {
            law_parent_drops_last(path.take(i));
        }
    } else if i == 0 {
        let root = seq![paths::SLASH];
        lemma_last_slash_at(root, 0);
        assert(root.skip(1) =~= seq![]);
        assert(parts.drop_last() =~= seq![root]);
    } else {
        law_tail_does_not_count(path.take(i));
        assert(parts.drop_last() =~= paths::components(path.take(i)));
    }
}

/// The components that a relative path adds to the one that it is joined to: all but a leading dot.
pub open spec fn added(tail: Seq<u8>) -> Seq<Seq<u8>> {
    let parts = paths::components(tail);
    if parts.len() > 0 && parts[0] == seq![paths::DOT] {
        parts.drop_first()
    } else {
        parts
    }
}

/// A path that ends in a slash has the components of what stands before the slash.
pub proof fn lemma_trailing_slash(head: Seq<u8>)
    requires
        head.len() > 0,
    ensures
        paths::components(head.push(paths::SLASH)) == paths::components(head),
{
    let path = head.push(paths::SLASH);
    lemma_last_slash_at(path, head.len() as int);
    assert(path.skip(head.len() as int + 1) =~= seq![]);
    assert(path.take(head.len() as int) =~= head);
}

/// Joining a relative path to another adds its components.
pub proof fn law_join_adds_components(base: Seq<u8>, tail: Seq<u8>)
    requires
        base.len() > 0,
        tail.len() > 0,
        tail[0] != paths::SLASH,
    ensures
        paths::components(paths::joined(base, tail)) == paths::components(base) + added(tail),
    decreases tail.len(),
{
    let pre = if base.last() != paths::SLASH {
        base.push(paths::SLASH)
    } else {
        base
    };
    let path = paths::joined(base, tail);
    assert(path =~= pre + tail);
    paths::lemma_last_slash(tail);
    let i = paths::last_slash(tail);
    let p = pre.len() as int;
    if i < 0 {
        assert(path[p - 1] == paths::SLASH);
        assert forall|k: int| p - 1 < k < path.len() implies #[trigger] path[k] != paths::SLASH by {
            assert(path[k] == tail[k - p]);
        }
        lemma_last_slash_at(path, p - 1);
        assert(path.skip(p) =~= tail);
        let outer = path.take(p - 1);
        if base.last() != paths::SLASH {
            assert(outer =~= base);
        } else if p - 1 > 0 {
            assert(base =~= outer.push(paths::SLASH));
            lemma_trailing_slash(outer);
        } else {
            assert(base =~= seq![paths::SLASH]);
            lemma_last_slash_at(base, 0);
            assert(base.skip(1) =~= seq![]);
        }
        if tail == seq![paths::DOT] {
            assert(added(tail) =~= seq![]);
            assert(paths::components(base) + added(tail) =~= paths::components(base));
        } else {
            assert(paths::components(tail) =~= seq![tail]);
            assert(paths::components(base) + added(tail) =~= paths::components(base).push(tail));
        }
    } else {
        assert(i > 0);
        let head = tail.take(i);
        law_join_adds_components(base, head);
        assert(path[p + i] == paths::SLASH);
        assert forall|k: int| p + i < k < path.len() implies #[trigger] path[k] != paths::SLASH by {
            assert(path[k] == tail[k - p]);
        }
        lemma_last_slash_at(path, p + i);
        assert(path.take(p + i) =~= pre + head);
        assert(paths::joined(base, head) =~= pre + head);
        assert(path.skip(p + i + 1) =~= tail.skip(i + 1));
        lemma_component_shapes(head);
        let inner = paths::components(head);
        let piece = tail.skip(i + 1);
        if !paths::names_nothing(piece) {
            assert(paths::components(tail) =~= inner.push(piece));
            assert(inner.push(piece).drop_first() =~= inner.drop_first().push(piece));
            assert(added(tail) =~= added(head).push(piece));
            assert((paths::components(base) + added(head)).push(piece) =~= paths::components(base)
                + added(head).push(piece));
        }
    }
}

/// A name joined to a directory lies in it, under that name.
pub proof fn law_join_goes_one_deeper(base: Seq<u8>, name: Seq<u8>)
    requires
        base.len() > 0,
        is_name(name),
    ensures
        paths::components(paths::joined(base, name)) == paths::components(base).push(name),
        paths::lies_under(paths::joined(base, name), base),
        paths::parent(paths::joined(base, name)) matches Some(outer) && paths::components(outer)
            == paths::components(base),
        name != seq![paths::DOT, paths::DOT] ==> paths::file_name(paths::joined(base, name))
            == Some(name),
{
    let path = paths::joined(base, name);
    let parts = paths::components(base);
    assert(name[0] != paths::SLASH);
    law_join_adds_components(base, name);
    lemma_no_slash(name);
    assert(added(name) =~= seq![name]);
    assert(paths::components(path) =~= parts.push(name));
    assert(paths::components(path).take(parts.len() as int) =~= parts);
    law_parent_drops_last(path);
    assert(paths::components(path).drop_last() =~= parts);
    lemma_component_shapes(base);
    if paths::parent(path) is None {
        assert(paths::components(path).len() >= 2);
    }
    if name == seq![paths::SLASH] {
        assert(name[0] == paths::SLASH);
    }
}

/// From some place on a name comes before another: there it ends, or has the lesser byte.
pub open spec fn name_splits(a: Seq<u8>, b: Seq<u8>, p: int) -> bool {
    &&& 0 <= p <= a.len()
    &&& p < b.len()
    &&& a.take(p) == b.take(p)
    &&& p == a.len() || a[p] < b[p]
}

/// A name comes before another.
pub open spec fn name_before(a: Seq<u8>, b: Seq<u8>) -> bool {
    exists|p: int| #[trigger] name_splits(a, b, p)
}

/// From some component on a path comes before another: there it ends, or has the earlier name.
pub open spec fn path_splits(a: Seq<Seq<u8>>, b: Seq<Seq<u8>>, p: int) -> bool {
    let dots = seq![paths::DOT, paths::DOT];
    &&& 0 <= p <= a.len()
    &&& p < b.len()
    &&& a.take(p) == b.take(p)
    &&& p == a.len() || is_name(a[p]) && is_name(b[p]) && a[p] != dots && b[p] != dots
        && name_before(a[p], b[p])
}

/// A path comes before another.
pub open spec fn path_before(a: Seq<u8>, b: Seq<u8>) -> bool {
    exists|p: int| #[trigger] path_splits(paths::components(a), paths::components(b), p)
}

proof fn lemma_name_before(a: Seq<u8>, b: Seq<u8>)
    requires
        name_before(a, b),
    ensures
        a != b,
        !order::lex_le(order::byte_order(), b, a),
{
    let p = choose|p: int| #[trigger] name_splits(a, b, p);
    order::lemma_lex_skip(order::byte_order(), b, a, p);
    if p < a.len() {
        assert(a.skip(p)[0] == a[p]);
        assert(b.skip(p)[0] == b[p]);
    }
}

/// Paths are ordered component by component, and names byte by byte.
pub proof fn law_paths_are_ordered_by_components(a: Seq<u8>, b: Seq<u8>)
    requires
        path_before(a, b),
    ensures
        paths::components(a) != paths::components(b),
        paths::components_order()(paths::components(a), paths::components(b)),
        !paths::components_order()(paths::components(b), paths::components(a)),
{
    let (x, y) = (paths::components(a), paths::components(b));
    let p = choose|p: int| #[trigger] path_splits(x, y, p);
    let le = paths::components_order();
    order::lemma_lex_skip(paths::component_order(), y, x, p);
    paths::lemma_components_order_total();
    if p < x.len() {
        assert(x.skip(p)[0] == x[p]);
        assert(y.skip(p)[0] == y[p]);
        lemma_name_before(x[p], y[p]);
        if x[p] == seq![paths::SLASH] || y[p] == seq![paths::SLASH] {
            assert(x[p][0] == paths::SLASH || y[p][0] == paths::SLASH);
        }
    }
    assert(!le(y, x));
    assert(le(x, y) || le(y, x));
    if x == y {
        assert(le(y, x));
    }
}

/// A name alone is its only component, and so is the root.
pub proof fn law_name_is_one_component(name: Seq<u8>)
    requires
        is_name(name),
    ensures
        paths::components(name) == seq![name],
        paths::components(seq![paths::SLASH]) == seq![seq![paths::SLASH]],
{
    let root = seq![paths::SLASH];
    lemma_no_slash(name);
    lemma_last_slash_at(root, 0);
    assert(root.skip(1) =~= Seq::<u8>::empty());
}

/// What lies under a directory lies under whatever that one lies under; and every path lies under
/// itself.
pub proof fn law_lies_under_is_transitive(path: Seq<u8>, dir: Seq<u8>, root: Seq<u8>)
    requires
        paths::lies_under(path, dir),
        paths::lies_under(dir, root),
    ensures
        paths::lies_under(path, root),
        paths::lies_under(path, path),
{
    let n = paths::components(root).len() as int;
    let m = paths::components(dir).len() as int;
    assert(paths::components(path).take(n) =~= paths::components(path).take(m).take(n));
    assert(paths::components(path).take(paths::components(path).len() as int)
        =~= paths::components(path));
}

proof fn lemma_without_tail_fits(path: Seq<u8>)
    ensures
        paths::without_tail(path).len() <= path.len(),
        path.len() > 0 ==> paths::without_tail(path).len() > 0,
        path.len() > 0 ==> path[0] == paths::without_tail(path)[0],
    decreases path.len(),
{
    paths::lemma_last_slash(path);
    let i = paths::last_slash(path);
    if i > 0 && paths::names_nothing(path.skip(i + 1)) {
        lemma_without_tail_fits(path.take(i));
    }
}

/// Leaving out the beginning of a path and leaving out what names nothing at its end do not
/// interfere.
proof fn lemma_tail_after_skip(path: Seq<u8>, from: int)
    requires
        0 < from < paths::without_tail(path).len(),
    ensures
        paths::without_tail(path.skip(from)) == paths::without_tail(path).skip(from),
    decreases path.len(),
{
    paths::lemma_last_slash(path);
    lemma_without_tail_fits(path);
    let i = paths::last_slash(path);
    let rest = path.skip(from);
    if i >= 0 && paths::names_nothing(path.skip(i + 1)) {
        assert(i > 0);
        let head = path.take(i);
        lemma_without_tail_fits(head);
        lemma_tail_after_skip(head, from);
        lemma_slash_after_skip(path, from);
        assert(rest.take(i - from) =~= head.skip(from));
        assert(rest.skip(i - from + 1) =~= path.skip(i + 1));
    } else if i >= from {
        lemma_slash_after_skip(path, from);
        assert(rest.skip(i - from + 1) =~= path.skip(i + 1));
    } else {
        assert forall|k: int| 0 <= k < rest.len() implies #[trigger] rest[k] != paths::SLASH by {
            assert(rest[k] == path[from + k]);
        }
        lemma_no_slash(rest);
    }
}

proof fn lemma_slash_after_skip(path: Seq<u8>, from: int)
    requires
        0 <= from <= paths::last_slash(path),
    ensures
        paths::last_slash(path.skip(from)) == paths::last_slash(path) - from,
{
    paths::lemma_last_slash(path);
    let i = paths::last_slash(path);
    let rest = path.skip(from);
    assert(rest[i - from] == path[i]);
    assert forall|k: int| i - from < k < rest.len() implies #[trigger] rest[k] != paths::SLASH by {
        assert(rest[k] == path[from + k]);
    }
    lemma_last_slash_at(rest, i - from);
}

/// From the beginning of a component on, a path has the components from that one on.
proof fn lemma_components_from(path: Seq<u8>, n: int)
    requires
        0 < n < paths::components(path).len(),
    ensures
        ({
            let from = paths::component_start(path, n);
            let kept = paths::without_tail(path);
            &&& 0 < from < kept.len()
            &&& paths::components(kept.skip(from)) == paths::components(path).skip(n)
        }),
    decreases path.len(),
{
    paths::lemma_last_slash(path);
    let i = paths::last_slash(path);
    let parts = paths::components(path);
    let from = paths::component_start(path, n);
    assert(i >= 0);
    let piece = path.skip(i + 1);
    if i == 0 {
        assert forall|k: int| 0 <= k < piece.len() implies #[trigger] piece[k] != paths::SLASH by {
            assert(piece[k] == path[1 + k]);
        }
        lemma_no_slash(piece);
        assert(parts.skip(1) =~= seq![piece]);
    } else {
        let head = path.take(i);
        let inner = paths::components(head);
        if paths::names_nothing(piece) {
            lemma_components_from(head, n);
        } else if n == parts.len() - 1 {
            assert forall|k: int| 0 <= k < piece.len() implies #[trigger] piece[k]
                != paths::SLASH by {
                assert(piece[k] == path[i + 1 + k]);
            }
            lemma_no_slash(piece);
            assert(parts.skip(n) =~= seq![piece]);
        } else {
            lemma_components_from(head, n);
            lemma_without_tail_fits(head);
            let rest = path.skip(from);
            lemma_slash_after_skip(path, from);
            assert(rest.take(i - from) =~= head.skip(from));
            assert(rest.skip(i - from + 1) =~= piece);
            lemma_tail_after_skip(head, from);
            law_tail_does_not_count(head.skip(from));
            assert(paths::components(head.skip(from)) == inner.skip(n));
            assert(parts.skip(n) =~= inner.skip(n).push(piece));
        }
    }
}

/// The first component of a path stands at its beginning.
pub proof fn lemma_first_starts_at_zero(path: Seq<u8>)
    ensures
        paths::component_start(path, 0) == 0 || paths::components(path).len() == 0,
    decreases path.len(),
{
    paths::lemma_last_slash(path);
    let i = paths::last_slash(path);
    if i > 0 {
        lemma_first_starts_at_zero(path.take(i));
        lemma_component_shapes(path.take(i));
    }
}

/// What is left of a path after its first components has the other components.
pub proof fn law_rest_has_the_other_components(path: Seq<u8>, n: int)
    requires
        0 <= n <= paths::components(path).len(),
    ensures
        paths::components(paths::after_components(path, n)) == paths::components(path).skip(n),
{
    let parts = paths::components(path);
    if n == parts.len() {
        assert(parts.skip(n) =~= seq![]);
    } else if n == 0 {
        lemma_first_starts_at_zero(path);
        law_tail_does_not_count(path);
        assert(paths::without_tail(path).skip(0) =~= paths::without_tail(path));
        assert(parts.skip(0) =~= parts);
    } else {
        lemma_components_from(path, n);
    }
}

/// Joining a directory and what is left of a path in it gives the path again.
pub proof fn law_join_undoes_stripping(path: Seq<u8>, root: Seq<u8>)
    requires
        root.len() > 0,
        paths::lies_under(path, root),
        paths::components(path) != paths::components(root),
    ensures
        ({
            let rest = paths::after_components(path, paths::components(root).len() as int);
            &&& rest.len() > 0
            &&& rest[0] != paths::SLASH
            &&& paths::components(paths::joined(root, rest)) == paths::components(path)
        }),
{
    let parts = paths::components(path);
    let n = paths::components(root).len() as int;
    let rest = paths::after_components(path, n);
    lemma_component_shapes(root);
    lemma_component_shapes(path);
    assert(n < parts.len()) by {
        if n == parts.len() {
            assert(parts.take(n) =~= parts);
        }
    }
    law_rest_has_the_other_components(path, n);
    let others = paths::components(rest);
    assert(others[0] == parts[n]);
    assert(is_name(parts[n]));
    lemma_component_shapes(rest);
    assert(parts[n][0] != paths::SLASH);
    law_join_adds_components(root, rest);
    assert(added(rest) == others);
    assert(parts.take(n) + parts.skip(n) =~= parts);
}

}
