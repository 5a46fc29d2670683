//! Turning an untrusted entry name into a path below the destination root.
use vstd::prelude::*;
use vstd::string::StringSliceAdditionalSpecFns;

verus! {

/// The byte that separates the segments of an entry name.
pub const SEP: u8 = 47;

/// The byte `.`.
pub const DOT: u8 = 46;

/// Whether an entry stands for a directory or a regular file.
#[derive(PartialEq, Eq, Structural, Debug, Clone, Copy)]
pub enum EntryKind {
    Directory,
    File,
}

/// The segments of `s` between separators, in order; `s` with `k`
/// separators has `k + 1` segments, some of which may be empty.
pub open spec fn segments(s: Seq<u8>) -> Seq<Seq<u8>>
    decreases s.len(),
{
    if s.len() == 0 {
        seq![Seq::<u8>::empty()]
    } else {
        let prev = segments(s.drop_last());
        if s.last() == SEP {
            prev.push(Seq::<u8>::empty())
        } else {
            prev.update(prev.len() - 1, prev.last().push(s.last()))
        }
    }
}

pub open spec fn is_current(g: Seq<u8>) -> bool {
    g.len() == 1 && g[0] == DOT
}

pub open spec fn is_parent(g: Seq<u8>) -> bool {
    g.len() == 2 && g[0] == DOT && g[1] == DOT
}

/// A segment that names a child: not empty, not `.` and not `..`.
pub open spec fn is_normal(g: Seq<u8>) -> bool {
    g.len() > 0 && !is_current(g) && !is_parent(g)
}

/// One segment applied to the components reached so far: empty and `.`
/// segments change nothing, `..` steps back out (and fails at the root),
/// any other segment steps in.
pub open spec fn step(st: Option<Seq<Seq<u8>>>, g: Seq<u8>) -> Option<Seq<Seq<u8>>> {
    match st {
        None => None,
        Some(c) => if !is_normal(g) && !is_parent(g) {
            Some(c)
        } else if is_parent(g) {
            if c.len() == 0 {
                None
            } else {
                Some(c.drop_last())
            }
        } else {
            Some(c.push(g))
        },
    }
}

/// The components that a sequence of segments leads to from the root,
/// or `None` where a `..` would leave the root.
pub open spec fn normalize(segs: Seq<Seq<u8>>) -> Option<Seq<Seq<u8>>>
    decreases segs.len(),
{
    if segs.len() == 0 {
        Some(Seq::<Seq<u8>>::empty())
    } else {
        step(normalize(segs.drop_last()), segs.last())
    }
}

/// The components joined by separators.
pub open spec fn flatten(c: Seq<Seq<u8>>) -> Seq<u8>
    decreases c.len(),
{
    if c.len() == 0 {
        Seq::<u8>::empty()
    } else if c.len() == 1 {
        c[0]
    } else {
        flatten(c.drop_last()).push(SEP) + c.last()
    }
}

/// The path of the components `c` below `root`.
pub open spec fn under(root: Seq<u8>, c: Seq<Seq<u8>>) -> Seq<u8> {
    if c.len() == 0 {
        root
    } else if root.len() == 0 {
        flatten(c)
    } else if root.last() == SEP {
        root + flatten(c)
    } else {
        root.push(SEP) + flatten(c)
    }
}

/// A name that cannot be rooted below the destination: empty, absolute, or
/// holding a NUL byte.
pub open spec fn unrootable(name: Seq<u8>) -> bool {
    name.len() == 0 || name[0] == SEP || name.contains(0u8)
}

/// The components below the root that a name designates, where it designates any.
pub open spec fn resolved_components(name: Seq<u8>) -> Option<Seq<Seq<u8>>> {
    if unrootable(name) {
        None
    } else {
        match normalize(segments(name)) {
            None => None,
            Some(c) => if c.len() == 0 {
                None
            } else {
                Some(c)
            },
        }
    }
}

pub open spec fn kind_of(name: Seq<u8>) -> EntryKind {
    if name.len() > 0 && name.last() == SEP {
        EntryKind::Directory
    } else {
        EntryKind::File
    }
}

/// What a resolved name stands for: its components below the root, the
/// path they give, the path of the directory that holds it, and its kind.
pub struct Target {
    pub components: Seq<Seq<u8>>,
    pub path: Seq<u8>,
    pub parent: Seq<u8>,
    pub kind: EntryKind,
}

pub open spec fn spec_resolve(name: Seq<u8>, root: Seq<u8>) -> Option<Target> {
    match resolved_components(name) {
        None => None,
        Some(c) => Some(
            Target {
                components: c,
                path: under(root, c),
                parent: under(root, c.drop_last()),
                kind: kind_of(name),
            },
        ),
    }
}

/// No byte of `g` is `b`.
pub open spec fn free_of(g: Seq<u8>, b: u8) -> bool {
    forall|j: int| 0 <= j < g.len() ==> g[j] != b
}

/// The segments that name children, in order.
pub open spec fn normal_only(segs: Seq<Seq<u8>>) -> Seq<Seq<u8>>
    decreases segs.len(),
{
    if segs.len() == 0 {
        Seq::<Seq<u8>>::empty()
    } else if is_normal(segs.last()) {
        normal_only(segs.drop_last()).push(segs.last())
    } else {
        normal_only(segs.drop_last())
    }
}

proof fn segments_free_of_sep(s: Seq<u8>)
    ensures
        segments(s).len() >= 1,
        forall|i: int| 0 <= i < segments(s).len() ==> free_of(#[trigger] segments(s)[i], SEP),
    decreases s.len(),
{
    if s.len() > 0 {
        segments_free_of_sep(s.drop_last());
        let prev = segments(s.drop_last());
        if s.last() != SEP {
            let g = prev.last().push(s.last());
            assert(free_of(prev[prev.len() - 1], SEP));
            assert(free_of(g, SEP));
            assert forall|i: int| 0 <= i < segments(s).len() implies free_of(
                #[trigger] segments(s)[i],
                SEP,
            ) by {
                if i < prev.len() - 1 {
                    assert(segments(s)[i] == prev[i]);
                }
            }
        } else {
            assert forall|i: int| 0 <= i < segments(s).len() implies free_of(
                #[trigger] segments(s)[i],
                SEP,
            ) by {
                if i < prev.len() {
                    assert(segments(s)[i] == prev[i]);
                }
            }
        }
    }
}

proof fn normalize_keeps_normal(segs: Seq<Seq<u8>>)
    requires
        forall|i: int| 0 <= i < segs.len() ==> free_of(#[trigger] segs[i], SEP),
    ensures
        normalize(segs) matches Some(c) ==> forall|i: int|
            0 <= i < c.len() ==> is_normal(#[trigger] c[i]) && free_of(c[i], SEP),
    decreases segs.len(),
{
    if segs.len() > 0 {
        let prev = segs.drop_last();
        assert forall|i: int| 0 <= i < prev.len() implies free_of(#[trigger] prev[i], SEP) by {
            assert(prev[i] == segs[i]);
        }
        normalize_keeps_normal(prev);
        assert(free_of(segs[segs.len() - 1], SEP));
    }
}

proof fn normalize_without_parents(segs: Seq<Seq<u8>>)
    requires
        forall|i: int| 0 <= i < segs.len() ==> !is_parent(#[trigger] segs[i]),
    ensures
        normalize(segs) == Some(normal_only(segs)),
    decreases segs.len(),
{
    if segs.len() > 0 {
        let prev = segs.drop_last();
        assert forall|i: int| 0 <= i < prev.len() implies !is_parent(#[trigger] prev[i]) by {
            assert(prev[i] == segs[i]);
        }
        normalize_without_parents(prev);
        assert(!is_parent(segs[segs.len() - 1]));
    }
}

proof fn normal_only_nonempty(segs: Seq<Seq<u8>>, i: int)
    requires
        0 <= i < segs.len(),
        is_normal(segs[i]),
    ensures
        normal_only(segs).len() > 0,
    decreases segs.len(),
{
    if i < segs.len() - 1 {
        assert(segs.drop_last()[i] == segs[i]);
        normal_only_nonempty(segs.drop_last(), i);
    } else {
        assert(segs.last() == segs[i]);
    }
}

/// A name that can be rooted and holds no `..` segment resolves to the
/// root joined with its normal segments, as long as it has one; it is a
/// directory exactly when it ends with a separator.
pub proof fn plain_name_resolves(name: Seq<u8>, root: Seq<u8>)
    requires
        !unrootable(name),
        forall|i: int| 0 <= i < segments(name).len() ==> !is_parent(#[trigger] segments(name)[i]),
        exists|i: int| 0 <= i < segments(name).len() && is_normal(#[trigger] segments(name)[i]),
    ensures
        spec_resolve(name, root) matches Some(t) && t.components == normal_only(segments(name))
            && t.path == under(root, normal_only(segments(name))) && (t.kind
            == EntryKind::Directory <==> name.last() == SEP),
{
    let segs = segments(name);
    normalize_without_parents(segs);
    let i = choose|i: int| 0 <= i < segs.len() && is_normal(#[trigger] segs[i]);
    normal_only_nonempty(segs, i);
}

/// A resolved name never leaves the root: its path is the root joined with
/// at least one component, and every component is a plain child name with
/// no separator in it.
pub proof fn resolved_path_stays_below(name: Seq<u8>, root: Seq<u8>)
    requires
        spec_resolve(name, root) is Some,
    ensures
        spec_resolve(name, root) matches Some(t) && t.components.len() > 0 && t.path == under(
            root,
            t.components,
        ) && forall|i: int|
            0 <= i < t.components.len() ==> is_normal(#[trigger] t.components[i]) && free_of(
                t.components[i],
                SEP,
            ),
{
    segments_free_of_sep(name);
    normalize_keeps_normal(segments(name));
}

/// A name whose `..` segments climb above the root has no target.
pub proof fn escaping_name_has_no_target(name: Seq<u8>, root: Seq<u8>)
    requires
        normalize(segments(name)) is None,
    ensures
        spec_resolve(name, root) is None,
{
}

/// The byte content of each vector, in order.
pub open spec fn views(v: Seq<Vec<u8>>) -> Seq<Seq<u8>> {
    v.map_values(|x: Vec<u8>| x@)
}

/// An entry name resolved to a place below the destination root.
pub struct ResolvedTarget {
    /// Where the entry is written.
    pub output_path: Vec<u8>,
    /// The directory that holds `output_path`, to be created with its
    /// ancestors before a file is written.
    pub parent_dir: Vec<u8>,
    pub kind: EntryKind,
    /// The components of `output_path` below the root.
    pub components: Ghost<Seq<Seq<u8>>>,
}

impl View for ResolvedTarget {
    type V = Target;

    open spec fn view(&self) -> Target {
        Target {
            components: self.components@,
            path: self.output_path@,
            parent: self.parent_dir@,
            kind: self.kind,
        }
    }
}

fn push_all(out: &mut Vec<u8>, src: &[u8])
    ensures
        final(out)@ == old(out)@ + src@,
{
    let mut i: usize = 0;
    while i < src.len()
        invariant
            i <= src@.len(),
            out@ == old(out)@ + src@.take(i as int),
        decreases src@.len() - i,
    {
        out.push(src[i]);
        i = i + 1;
        assert(src@.take(i as int) == src@.take(i - 1).push(src@[i - 1]));
    }
    assert(src@.take(src@.len() as int) == src@);
}

/// The path below `root` of the first `upto` components of `comps`.
fn path_under(root: &[u8], comps: &Vec<Vec<u8>>, upto: usize) -> (r: Vec<u8>)
    requires
        upto <= comps@.len(),
    ensures
        r@ == under(root@, views(comps@).take(upto as int)),
{
    let ghost c = views(comps@);
    let mut out: Vec<u8> = Vec::new();
    push_all(&mut out, root);
    if upto == 0 {
        assert(out@ == root@);
        return out;
    }
    if root.len() > 0 && root[root.len() - 1] != SEP {
        out.push(SEP);
    }
    let ghost prefix = out@;
    let mut k: usize = 0;
    while k < upto
        invariant
            k <= upto <= comps@.len(),
            c == views(comps@),
            k == 0 ==> out@ == prefix,
            k > 0 ==> out@ == prefix + flatten(c.take(k as int)),
        decreases upto - k,
    {
        let ghost before = out@;
        if k > 0 {
            out.push(SEP);
        }
        push_all(&mut out, comps[k].as_slice());
        proof {
            let t = c.take(k + 1);
            assert(t.drop_last() == c.take(k as int));
            assert(t.last() == comps@[k as int]@);
            if k == 0 {
                assert(flatten(t) == t[0]);
            } else {
                assert(out@ == prefix + (flatten(c.take(k as int)).push(SEP) + c[k as int]));
            }
        }
        k = k + 1;
    }
    proof {
        let t = c.take(upto as int);
        if root@.len() == 0 {
            assert(prefix == Seq::<u8>::empty());
            assert(out@ == flatten(t));
        } else if root@.last() == SEP {
            assert(prefix == root@);
        } else {
            assert(prefix == root@.push(SEP));
        }
    }
    out
}

/// Applies one segment of a name to the components reached so far, as
/// `step` says; `false` where the segment would leave the root.
fn apply_segment(comps: &mut Vec<Vec<u8>>, g: Vec<u8>) -> (ok: bool)
    ensures
        ok == step(Some(views(old(comps)@)), g@) is Some,
        ok ==> step(Some(views(old(comps)@)), g@) == Some(views(final(comps)@)),
{
    let n = g.len();
    let current = n == 1 && g[0] == DOT;
    let parent = n == 2 && g[0] == DOT && g[1] == DOT;
    if n == 0 || current {
        true
    } else if parent {
        if comps.len() == 0 {
            false
        } else {
            comps.pop();
            assert(views(final(comps)@) == views(old(comps)@).drop_last());
            true
        }
    } else {
        comps.push(g);
        assert(views(final(comps)@) == views(old(comps)@).push(g@));
        true
    }
}

/// Resolves `declared_name` to a path below `destination_root`, or to no
/// target where the name is empty, absolute, holds a NUL byte, steps out of
/// the root with `..`, or names the root itself. The kind is `Directory`
/// exactly when the name ends with a separator.
pub fn resolve(declared_name: &str, destination_root: &str) -> (r: Option<ResolvedTarget>)
    ensures
        r matches Some(t) ==> spec_resolve(declared_name.spec_bytes(), destination_root.spec_bytes())
            == Some(t@),
        r is None <==> spec_resolve(declared_name.spec_bytes(), destination_root.spec_bytes())
            is None,
{
    let name = declared_name.as_bytes();
    let root = destination_root.as_bytes();
    let n = name.len();
    if n == 0 || name[0] == SEP {
        return None;
    }
    let mut i: usize = 0;
    while i < n
        invariant
            i <= n == name@.len(),
            name@ == declared_name.spec_bytes(),
            forall|j: int| 0 <= j < i ==> name@[j] != 0u8,
        decreases n - i,
    {
        if name[i] == 0u8 {
            assert(name@[i as int] == 0u8);
            assert(name@.contains(0u8));

            return None;
        }
        i = i + 1;
    }
    assert(!unrootable(name@));
    let mut comps: Vec<Vec<u8>> = Vec::new();
    let mut cur: Vec<u8> = Vec::new();
    let mut escaped = false;
    let mut i: usize = 0;
    assert(name@.take(0) == Seq::<u8>::empty());
    while i < n
        invariant
            i <= n == name@.len(),
            name@ == declared_name.spec_bytes(),
            !escaped ==> normalize(segments(name@.take(i as int)).drop_last()) == Some(
                views(comps@),
            ),
            escaped ==> normalize(segments(name@.take(i as int)).drop_last()) is None,
            segments(name@.take(i as int)).last() == cur@,
            segments(name@.take(i as int)).len() >= 1,
        decreases n - i,
    {
        let ghost s = name@.take(i + 1);
        assert(s.drop_last() == name@.take(i as int));
        assert(s.last() == name@[i as int]);
        let ghost prev = segments(name@.take(i as int));
        if name[i] == SEP {
            let g = cur;
            cur = Vec::new();
            assert(segments(s).drop_last() == prev);
            assert(prev == prev.drop_last().push(prev.last()));
            if !escaped && !apply_segment(&mut comps, g) {
                escaped = true;
            }
        } else {
            cur.push(name[i]);
            assert(segments(s).drop_last() == prev.drop_last());
        }
        i = i + 1;
    }
    assert(name@.take(n as int) == name@);
    let ghost segs = segments(name@);
    assert(segs == segs.drop_last().push(segs.last()));
    if escaped || !apply_segment(&mut comps, cur) {
        return None;
    }
    if comps.len() == 0 {
        return None;
    }
    let kind = if name[n - 1] == SEP {
        EntryKind::Directory
    } else {
        EntryKind::File
    };
    let output_path = path_under(root, &comps, comps.len());
    let parent_dir = path_under(root, &comps, comps.len() - 1);
    proof {
        let c = views(comps@);
        assert(c.take(c.len() as int) == c);
        assert(c.take(c.len() - 1) == c.drop_last());
    }
    Some(ResolvedTarget { output_path, parent_dir, kind, components: Ghost(views(comps@)) })
}

} // verus!
