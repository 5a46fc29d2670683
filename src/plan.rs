//! The extraction plan: the entries of an archive whose names resolve, in
//! archive order, each with its target below the destination root.
use vstd::prelude::*;
use vstd::string::StringSliceAdditionalSpecFns;
use vstd::utf8::encode_utf8;
use crate::path::{resolve, spec_resolve, EntryKind, ResolvedTarget, Target};

verus! {

/// What the archive tells of an entry before its contents are read.
pub struct EntryMeta {
    /// Position of the entry in the archive.
    pub index: usize,
    /// The name stored in the archive, untrusted.
    pub name: String,
    /// The declared size of the contents, advisory only.
    pub size: u64,
}

/// One step of a plan: an archive entry and where it goes.
pub struct PlannedEntry {
    pub index: usize,
    pub target: ResolvedTarget,
}

/// A planned entry as the index of its archive entry and its target.
pub struct Planned {
    pub index: usize,
    pub target: Target,
}

impl View for PlannedEntry {
    type V = Planned;

    open spec fn view(&self) -> Planned {
        Planned { index: self.index, target: self.target@ }
    }
}

pub open spec fn name_bytes(e: EntryMeta) -> Seq<u8> {
    encode_utf8(e.name@)
}

/// The plan for `entries` below `root`: each entry whose name resolves, in
/// order, and no other.
pub open spec fn spec_plan(entries: Seq<EntryMeta>, root: Seq<u8>) -> Seq<Planned>
    decreases entries.len(),
{
    if entries.len() == 0 {
        Seq::<Planned>::empty()
    } else {
        let p = spec_plan(entries.drop_last(), root);
        let e = entries.last();
        match spec_resolve(name_bytes(e), root) {
            Some(t) => p.push(Planned { index: e.index, target: t }),
            None => p,
        }
    }
}

pub open spec fn plan_view(p: Seq<PlannedEntry>) -> Seq<Planned> {
    p.map_values(|e: PlannedEntry| e@)
}

/// Builds the plan: every entry is resolved against `destination_root`,
/// the ones that do not resolve are left out, the others kept in order.
pub fn build_plan(entries: &Vec<EntryMeta>, destination_root: &str) -> (r: Vec<PlannedEntry>)
    ensures
        plan_view(r@) == spec_plan(entries@, destination_root.spec_bytes()),
{
    let mut out: Vec<PlannedEntry> = Vec::new();
    let mut i: usize = 0;
    while i < entries.len()
        invariant
            i <= entries@.len(),
            plan_view(out@) == spec_plan(entries@.take(i as int), destination_root.spec_bytes()),
        decreases entries@.len() - i,
    {
        let e = &entries[i];
        let ghost before = out@;
        assert(entries@.take(i + 1).drop_last() == entries@.take(i as int));
        match resolve(e.name.as_str(), destination_root) {
            Some(t) => {
                out.push(PlannedEntry { index: e.index, target: t });
                assert(plan_view(out@) == plan_view(before).push(out@.last()@));
            },
            None => {},
        }
        i = i + 1;
    }
    assert(entries@.take(entries@.len() as int) == entries@);
    out
}

/// An entry whose name does not resolve has no part in the plan: where
/// indices are distinct, no planned step carries its index.
pub proof fn unresolved_entries_are_not_planned(entries: Seq<EntryMeta>, root: Seq<u8>, j: int)
    requires
        0 <= j < entries.len(),
        spec_resolve(name_bytes(entries[j]), root) is None,
        forall|a: int, b: int|
            0 <= a < b < entries.len() ==> entries[a].index != entries[b].index,
    ensures
        forall|k: int|
            0 <= k < spec_plan(entries, root).len() ==> spec_plan(entries, root)[k].index
                != entries[j].index,
    decreases entries.len(),
{
    planned_indices_come_from_entries(entries, root);
}

proof fn planned_indices_come_from_entries(entries: Seq<EntryMeta>, root: Seq<u8>)
    ensures
        forall|k: int|
            0 <= k < spec_plan(entries, root).len() ==> exists|a: int|
                0 <= a < entries.len() && #[trigger] entries[a].index == (#[trigger] spec_plan(
                    entries,
                    root,
                )[k]).index
                    && spec_resolve(name_bytes(entries[a]), root) is Some,
    decreases entries.len(),
{
    if entries.len() > 0 {
        let prev = entries.drop_last();
        planned_indices_come_from_entries(prev, root);
        assert forall|k: int| 0 <= k < spec_plan(entries, root).len() implies exists|a: int|
            0 <= a < entries.len() && #[trigger] entries[a].index == (#[trigger] spec_plan(
                entries,
                root,
            )[k]).index
                && spec_resolve(name_bytes(entries[a]), root) is Some by {
            if k < spec_plan(prev, root).len() {
                let a = choose|a: int|
                    0 <= a < prev.len() && prev[a].index == spec_plan(prev, root)[k].index
                        && spec_resolve(name_bytes(prev[a]), root) is Some;
                assert(entries[a] == prev[a]);
            } else {
                assert(entries[entries.len() - 1] == entries.last());
            }
        }
    }
}

} // verus!
