//! Where an entry of an archive is written: its recorded path without the
//! input root, below the destination directory, and never outside it.
//!
//! Paths are compared component by component. Empty components and `.` do
//! not count, except a `.` that a relative path begins with. Recorded paths
//! come from the archive and are not trusted: one that is absolute, or that
//! climbs above its starting point through `..`, is refused.

use vstd::prelude::*;
use vstd::slice::slice_subrange;
use vstd::slice::slice_to_vec;
use crate::bytes::{equal, find_byte, join, join_with, split, views};

verus! {

/// The byte `/` that separates the components of a path.
pub const SEPARATOR: u8 = 0x2f;

/// The byte `.`.
pub const DOT: u8 = 0x2e;

/// The component `.`, which stands for the directory itself.
pub open spec fn current_dir() -> Seq<u8> {
    seq![DOT]
}

/// The component `..`, which stands for the parent directory.
pub open spec fn parent_dir() -> Seq<u8> {
    seq![DOT, DOT]
}

/// Whether a path begins at the root of the file system.
pub open spec fn is_absolute(path: Seq<u8>) -> bool {
    path.len() > 0 && path[0] == SEPARATOR
}

/// The byte strings between the separators of a path.
pub open spec fn segments(path: Seq<u8>) -> Seq<Seq<u8>> {
    split(path, SEPARATOR)
}

/// Whether a segment counts as a component wherever it stands: it is
/// neither empty nor `.`.
pub open spec fn is_named(segment: Seq<u8>) -> bool {
    segment.len() > 0 && segment != current_dir()
}

/// The segments that count as components wherever they stand.
pub open spec fn named(segments: Seq<Seq<u8>>) -> Seq<Seq<u8>>
    decreases segments.len(),
{
    if segments.len() == 0 {
        Seq::empty()
    } else if is_named(segments[0]) {
        seq![segments[0]] + named(segments.drop_first())
    } else {
        named(segments.drop_first())
    }
}

/// The components of a path.
pub open spec fn components(path: Seq<u8>) -> Seq<Seq<u8>> {
    let parts = segments(path);
    if parts[0] == current_dir() {
        seq![current_dir()] + named(parts)
    } else {
        named(parts)
    }
}

/// Whether `root` is a prefix of `path`, component by component.
pub open spec fn begins_with_root(path: Seq<u8>, root: Seq<u8>) -> bool {
    is_absolute(path) == is_absolute(root) && components(root).is_prefix_of(components(path))
}

/// The components of `path` that follow `root`, or all of them if the path
/// does not begin with the root.
pub open spec fn below_root(path: Seq<u8>, root: Seq<u8>) -> Seq<Seq<u8>> {
    if begins_with_root(path, root) {
        components(path).skip(components(root).len() as int)
    } else {
        components(path)
    }
}

/// By how much a component changes the depth below the starting point.
pub open spec fn depth_change(component: Seq<u8>) -> int {
    if component == parent_dir() {
        -1
    } else if component == current_dir() {
        0
    } else {
        1
    }
}

/// How deep below its starting point a sequence of components ends.
pub open spec fn depth(components: Seq<Seq<u8>>) -> int
    decreases components.len(),
{
    if components.len() == 0 {
        0
    } else {
        depth(components.drop_last()) + depth_change(components.last())
    }
}

/// Whether a sequence of components never climbs above its starting point.
pub open spec fn stays_inside(components: Seq<Seq<u8>>) -> bool {
    forall|k: int| 0 <= k <= components.len() ==> depth(#[trigger] components.take(k)) >= 0
}

/// The path `relative` below the directory `root`.
pub open spec fn under(root: Seq<u8>, relative: Seq<u8>) -> Seq<u8> {
    if root.len() == 0 || root.last() == SEPARATOR {
        root + relative
    } else {
        root + seq![SEPARATOR] + relative
    }
}

/// Whether the entry recorded under `recorded` may be written: what is left
/// of the path without the input root is relative and stays inside.
pub open spec fn is_contained(input_root: Seq<u8>, recorded: Seq<u8>) -> bool {
    (begins_with_root(recorded, input_root) || !is_absolute(recorded)) && stays_inside(
        below_root(recorded, input_root),
    )
}

/// The path at which the entry recorded under `recorded` is written.
pub open spec fn destination(
    destination_root: Seq<u8>,
    input_root: Seq<u8>,
    recorded: Seq<u8>,
) -> Seq<u8> {
    under(destination_root, join(below_root(recorded, input_root), SEPARATOR))
}

/// The recorded path leads out of the destination directory.
#[derive(Clone, Copy, Debug, PartialEq, Eq, Structural)]
pub struct ContainmentViolation;

/// Splits a path into its components.
pub fn split_components(path: &[u8]) -> (parts: Vec<Vec<u8>>)
    ensures
        views(parts@) == components(path@),
{
    let mut parts: Vec<Vec<u8>> = Vec::new();
    let first_end = find_byte(path, 0, SEPARATOR);
    proof {
        assert(path@.skip(0) =~= path@);
        assert(segments(path@)[0] =~= path@.take(first_end as int));
        assert(views(parts@) =~= Seq::<Seq<u8>>::empty());
    }
    if first_end == 1 && path[0] == DOT {
        assert(path@.take(1) =~= current_dir());
        parts.push(slice_to_vec(slice_subrange(path, 0, 1)));
        assert(views(parts@) =~= seq![current_dir()]);
    } else {
        assert(!(path@.take(first_end as int) =~= current_dir()));
        assert(Seq::<Seq<u8>>::empty() + named(segments(path@)) =~= named(segments(path@)));
    }
    let mut start: usize = 0;
    let mut done = false;
    while !done
        invariant
            start <= path@.len(),
            !done ==> views(parts@) + named(segments(path@.skip(start as int))) == components(
                path@,
            ),
            done ==> views(parts@) == components(path@),
        decreases path@.len() - start + if done { 0int } else { 1int },
    {
        let end = find_byte(path, start, SEPARATOR);
        let segment = slice_subrange(path, start, end);
        let ghost rest = path@.skip(start as int);
        let ghost before = views(parts@);
        proof {
            assert(rest.take(end - start) =~= segment@);
            if end < path@.len() {
                assert(rest.skip(end - start + 1) =~= path@.skip(end + 1));
                assert(segments(rest).drop_first() =~= segments(path@.skip(end + 1)));
            } else {
                assert(rest.take(end - start) =~= rest);
                assert(segments(rest).drop_first() =~= Seq::<Seq<u8>>::empty());
            }
            assert(segments(rest)[0] == segment@);
        }
        let dot = segment.len() == 1 && segment[0] == DOT;
        assert(dot == (segment@ =~= current_dir()));
        if segment.len() > 0 && !dot {
            parts.push(slice_to_vec(segment));
            proof {
                assert(views(parts@) =~= before.push(segment@));
                let tail = named(segments(rest).drop_first());
                assert(before.push(segment@) + tail =~= before + (seq![segment@] + tail));
            }
        }
        if end < path.len() {
            start = end + 1;
        } else {
            proof {
                assert(named(segments(rest).drop_first()) =~= Seq::<Seq<u8>>::empty());
                assert(views(parts@) + Seq::<Seq<u8>>::empty() =~= views(parts@));
            }
            done = true;
        }
    }
    parts
}

/// Whether `prefix` is a prefix of `parts`, component by component.
pub fn has_prefix(parts: &[Vec<u8>], prefix: &[Vec<u8>]) -> (found: bool)
    ensures
        found == views(prefix@).is_prefix_of(views(parts@)),
{
    if prefix.len() > parts.len() {
        return false;
    }
    let mut i: usize = 0;
    while i < prefix.len()
        invariant
            i <= prefix@.len() <= parts@.len(),
            forall|j: int| 0 <= j < i ==> prefix@[j]@ == parts@[j]@,
        decreases prefix@.len() - i,
    {
        if !equal(prefix[i].as_slice(), parts[i].as_slice()) {
            let ghost head = views(parts@).subrange(0, prefix@.len() as int);
            assert(views(prefix@)[i as int] != head[i as int]);
            return false;
        }
        i = i + 1;
    }
    assert(views(prefix@) =~= views(parts@).subrange(0, prefix@.len() as int));
    true
}

/// Whether the components never climb above their starting point.
pub fn never_climbs_out(parts: &[Vec<u8>]) -> (inside: bool)
    ensures
        inside == stays_inside(views(parts@)),
{
    let ghost all = views(parts@);
    let mut level: usize = 0;
    let mut i: usize = 0;
    assert(all.take(0) =~= Seq::<Seq<u8>>::empty());
    while i < parts.len()
        invariant
            i <= parts@.len(),
            all == views(parts@),
            level == depth(all.take(i as int)),
            level <= i,
            forall|k: int| 0 <= k <= i ==> depth(#[trigger] all.take(k)) >= 0,
        decreases parts@.len() - i,
    {
        let part = parts[i].as_slice();
        proof {
            assert(all.take(i + 1).drop_last() =~= all.take(i as int));
            assert(all.take(i + 1).last() == part@);
        }
        let is_parent = part.len() == 2 && part[0] == DOT && part[1] == DOT;
        let is_current = part.len() == 1 && part[0] == DOT;
        assert(is_parent == (part@ =~= parent_dir()));
        assert(is_current == (part@ =~= current_dir()));
        if is_parent {
            if level == 0 {
                assert(depth(all.take(i + 1)) < 0);
                return false;
            }
            level = level - 1;
        } else if !is_current {
            level = level + 1;
        }
        i = i + 1;
    }
    true
}

/// Computes where an entry is written.
///
/// The recorded path loses the input root, if it begins with it, and what
/// is left is put below the destination root. A recorded path that would
/// lead out of the destination root is refused: one that is still absolute
/// without the input root, or that climbs above its starting point.
pub fn resolve_destination(
    destination_root: &[u8],
    input_root: &[u8],
    recorded: &[u8],
) -> (target: Result<Vec<u8>, ContainmentViolation>)
    ensures
        target is Ok <==> is_contained(input_root@, recorded@),
        target matches Ok(path) ==> path@ == destination(
            destination_root@,
            input_root@,
            recorded@,
        ),
{
    let parts = split_components(recorded);
    let root = split_components(input_root);
    let recorded_absolute = recorded.len() > 0 && recorded[0] == SEPARATOR;
    let root_absolute = input_root.len() > 0 && input_root[0] == SEPARATOR;
    let stripped = recorded_absolute == root_absolute && has_prefix(
        parts.as_slice(),
        root.as_slice(),
    );
    if recorded_absolute && !stripped {
        return Err(ContainmentViolation);
    }
    let skip = if stripped {
        root.len()
    } else {
        0
    };
    let rest = slice_subrange(parts.as_slice(), skip, parts.len());
    proof {
        assert(views(rest@) =~= below_root(recorded@, input_root@));
    }
    if !never_climbs_out(rest) {
        return Err(ContainmentViolation);
    }
    let relative = join_with(rest, SEPARATOR);
    let mut path: Vec<u8> = slice_to_vec(destination_root);
    if destination_root.len() > 0 && destination_root[destination_root.len() - 1] != SEPARATOR {
        path.push(SEPARATOR);
    }
    path.extend_from_slice(relative.as_slice());
    assert(path@ =~= destination(destination_root@, input_root@, recorded@));
    Ok(path)
}

} // verus!
