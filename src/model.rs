//! What a completed run leaves on disk, as a model: the directories and
//! files below the destination root, each named by its components, a file
//! by the archive entry whose contents it holds.
use vstd::prelude::*;
use crate::path::EntryKind;
use crate::plan::Planned;

verus! {

pub struct Disk {
    pub dirs: Set<Seq<Seq<u8>>>,
    pub files: Map<Seq<Seq<u8>>, usize>,
}

/// The first `1..=upto` components of `c`: the directories that creating
/// `c.take(upto)` with its ancestors brings about.
pub open spec fn prefixes(c: Seq<Seq<u8>>, upto: int) -> Set<Seq<Seq<u8>>> {
    Set::new(|q: Seq<Seq<u8>>| exists|k: int| 1 <= k <= upto && q == c.take(k))
}

/// The directories that a planned entry creates: a directory with its
/// ancestors, or the ancestors of a file.
pub open spec fn created_by(p: Planned) -> Set<Seq<Seq<u8>>> {
    let c = p.target.components;
    match p.target.kind {
        EntryKind::Directory => prefixes(c, c.len() as int),
        EntryKind::File => prefixes(c, c.len() - 1),
    }
}

/// One planned entry carried out on `d`.
pub open spec fn apply_entry(d: Disk, p: Planned) -> Disk {
    match p.target.kind {
        EntryKind::Directory => Disk { dirs: d.dirs + created_by(p), files: d.files },
        EntryKind::File => Disk {
            dirs: d.dirs + created_by(p),
            files: d.files.insert(p.target.components, p.index),
        },
    }
}

/// The plan carried out on `d`, entry by entry in order.
pub open spec fn apply_plan(d: Disk, plan: Seq<Planned>) -> Disk
    decreases plan.len(),
{
    if plan.len() == 0 {
        d
    } else {
        apply_entry(apply_plan(d, plan.drop_last()), plan.last())
    }
}

/// Every directory that the plan creates.
pub open spec fn created(plan: Seq<Planned>) -> Set<Seq<Seq<u8>>>
    decreases plan.len(),
{
    if plan.len() == 0 {
        Set::empty()
    } else {
        created(plan.drop_last()) + created_by(plan.last())
    }
}

/// Every file that the plan writes, with the entry written last into it.
pub open spec fn written(plan: Seq<Planned>) -> Map<Seq<Seq<u8>>, usize>
    decreases plan.len(),
{
    if plan.len() == 0 {
        Map::empty()
    } else {
        let p = plan.last();
        match p.target.kind {
            EntryKind::Directory => written(plan.drop_last()),
            EntryKind::File => written(plan.drop_last()).insert(p.target.components, p.index),
        }
    }
}

/// Carrying out a plan adds its directories and overwrites its files,
/// whatever the disk held before.
pub proof fn apply_plan_adds(d: Disk, plan: Seq<Planned>)
    ensures
        apply_plan(d, plan) == (Disk {
            dirs: d.dirs + created(plan),
            files: d.files.union_prefer_right(written(plan)),
        }),
    decreases plan.len(),
{
    if plan.len() > 0 {
        apply_plan_adds(d, plan.drop_last());
        let prev = plan.drop_last();
        assert(d.dirs + created(prev) + created_by(plan.last()) =~= d.dirs + created(plan));
        let p = plan.last();
        match p.target.kind {
            EntryKind::Directory => {},
            EntryKind::File => {
                assert(d.files.union_prefer_right(written(prev)).insert(p.target.components, p.index)
                    =~= d.files.union_prefer_right(written(plan)));
            },
        }
    } else {
        assert(d.dirs + created(plan) =~= d.dirs);
        assert(d.files.union_prefer_right(written(plan)) =~= d.files);
    }
}

/// Running the same plan a second time on what the first run left changes
/// nothing: existing directories are no obstacle and each file is written
/// again with the same entry.
pub proof fn extract_twice_same_disk(d: Disk, plan: Seq<Planned>)
    ensures
        apply_plan(apply_plan(d, plan), plan) == apply_plan(d, plan),
{
    let once = apply_plan(d, plan);
    apply_plan_adds(d, plan);
    apply_plan_adds(once, plan);
    assert(once.dirs + created(plan) =~= once.dirs);
    assert(once.files.union_prefer_right(written(plan)) =~= once.files);
}

/// Where several planned files share a path, the file holds the entry
/// planned last for it.
pub proof fn last_file_wins(d: Disk, plan: Seq<Planned>, k: int)
    requires
        0 <= k < plan.len(),
        plan[k].target.kind == EntryKind::File,
        forall|j: int|
            k < j < plan.len() && #[trigger] plan[j].target.kind == EntryKind::File
                ==> plan[j].target.components != plan[k].target.components,
    ensures
        apply_plan(d, plan).files.contains_key(plan[k].target.components),
        apply_plan(d, plan).files[plan[k].target.components] == plan[k].index,
    decreases plan.len(),
{
    if k < plan.len() - 1 {
        let prev = plan.drop_last();
        assert(prev[k] == plan[k]);
        assert forall|j: int|
            k < j < prev.len() && #[trigger] prev[j].target.kind == EntryKind::File
                implies prev[j].target.components != prev[k].target.components by {
            assert(prev[j] == plan[j]);
        }
        last_file_wins(d, prev, k);
        assert(plan.last() == plan[plan.len() - 1]);
    }
}

/// Writing a file creates all of its ancestors below the root, whether or
/// not the plan names them as directories.
pub proof fn file_ancestors_exist(d: Disk, plan: Seq<Planned>, k: int, m: int)
    requires
        0 <= k < plan.len(),
        plan[k].target.kind == EntryKind::File,
        1 <= m < plan[k].target.components.len(),
    ensures
        apply_plan(d, plan).dirs.contains(plan[k].target.components.take(m)),
    decreases plan.len(),
{
    if k < plan.len() - 1 {
        let prev = plan.drop_last();
        assert(prev[k] == plan[k]);
        file_ancestors_exist(d, prev, k, m);
    } else {
        assert(plan.last() == plan[k]);
        assert(created_by(plan[k]).contains(plan[k].target.components.take(m)));
    }
}

} // verus!
