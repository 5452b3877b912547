use vstd::prelude::*;

verus! {

/// What a click can select.
#[derive(Clone, Copy, Debug, PartialEq, Eq, Structural)]
pub enum SelectedTarget {
    Blueprint(u64),
    Building(u64),
    Colonist(u64),
    Resource(u64),
}

impl SelectedTarget {
    pub open spec fn spec_entity(self) -> u64 {
        match self {
            SelectedTarget::Blueprint(entity) => entity,
            SelectedTarget::Building(entity) => entity,
            SelectedTarget::Colonist(entity) => entity,
            SelectedTarget::Resource(entity) => entity,
        }
    }

    pub fn entity(self) -> (entity: u64)
        ensures
            entity == self.spec_entity(),
    {
        match self {
            SelectedTarget::Blueprint(entity) => entity,
            SelectedTarget::Building(entity) => entity,
            SelectedTarget::Colonist(entity) => entity,
            SelectedTarget::Resource(entity) => entity,
        }
    }
}

/// The current selection.
#[derive(Clone, Copy, Debug)]
pub struct SelectionState {
    pub selected: Option<SelectedTarget>,
}

impl Default for SelectionState {
    fn default() -> (state: SelectionState)
        ensures
            state.selected == None::<SelectedTarget>,
    {
        SelectionState { selected: None }
    }
}

/// Something under the cursor. A lower priority wins; `distance_key` orders hits
/// by their distance from the cursor.
#[derive(Clone, Copy, Debug, PartialEq, Eq, Structural)]
pub struct HitCandidate {
    pub target: SelectedTarget,
    pub distance_key: u32,
    pub priority: u8,
}

/// `a` wins over `b`: by priority, then distance, then the smaller entity id.
pub open spec fn hit_before(a: HitCandidate, b: HitCandidate) -> bool {
    a.priority < b.priority || (a.priority == b.priority && (a.distance_key < b.distance_key || (
    a.distance_key == b.distance_key && a.target.spec_entity() < b.target.spec_entity())))
}

/// The candidate at `index` wins: none beats it, and it beats every one listed
/// before it.
pub open spec fn is_best_hit(candidates: Seq<HitCandidate>, index: int) -> bool {
    &&& 0 <= index < candidates.len()
    &&& forall|j: int|
        0 <= j < candidates.len() ==> !hit_before(#[trigger] candidates[j], candidates[index]) && (j
            < index ==> hit_before(candidates[index], candidates[j]))
}

/// The hit a click selects, if anything was hit.
pub fn best_hit(candidates: &[HitCandidate]) -> (best: Option<HitCandidate>)
    ensures
        match best {
            Some(hit) => exists|index: int| is_best_hit(candidates@, index) && candidates@[index] == hit,
            None => candidates@.len() == 0,
        },
{
    if candidates.len() == 0 {
        return None;
    }
    let mut best: usize = 0;
    let mut index: usize = 1;
    while index < candidates.len()
        invariant
            1 <= index <= candidates@.len(),
            best < index,
            is_best_hit(candidates@.take(index as int), best as int),
        decreases candidates@.len() - index,
    {
        let hit = candidates[index];
        let current = candidates[best];
        let ghost seen = candidates@.take(index + 1);
        assert forall|j: int| 0 <= j < index implies seen[j] == candidates@.take(index as int)[j] by {}
        assert(seen[index as int] == hit);
        assert(current == candidates@.take(index as int)[best as int]);
        let wins = hit.priority < current.priority || (hit.priority == current.priority && (
        hit.distance_key < current.distance_key || (hit.distance_key == current.distance_key
            && hit.target.entity() < current.target.entity())));
        if wins {
            best = index;
        }
        index = index + 1;
    }
    assert(candidates@.take(index as int) =~= candidates@);
    Some(candidates[best])
}

} // verus!
