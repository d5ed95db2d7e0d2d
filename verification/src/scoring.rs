use vstd::prelude::*;
use crate::actions::Action;
use crate::world::World;

verus! {

/// Index `i` holds the highest-utility candidate, and every earlier
/// candidate scores strictly lower: the first-seen maximum.
pub open spec fn is_first_max(w: World, s: Seq<Action>, i: int) -> bool {
    &&& 0 <= i < s.len()
    &&& forall|j: int| 0 <= j < s.len() ==> (#[trigger] s[j]).spec_score(w) <= s[i].spec_score(w)
    &&& forall|j: int| 0 <= j < i ==> (#[trigger] s[j]).spec_score(w) < s[i].spec_score(w)
}

/// Pick the best candidate for a non-player actor: the maximum utility,
/// ties broken in favour of the first-generated candidate. Scoring never
/// mutates the world.
pub fn select_action(world: &World, candidates: &Vec<Action>) -> (r: Option<usize>)
    requires
        forall|k: int| 0 <= k < candidates@.len() ==> (#[trigger] candidates@[k]).wf(),
    ensures
        r is None <==> candidates@.len() == 0,
        r matches Some(i) ==> is_first_max(*world, candidates@, i as int),
{
    if candidates.len() == 0 {
        return None;
    }
    let mut best: usize = 0;
    let mut best_score: i64 = candidates[0].score(world);
    let mut j: usize = 1;
    while j < candidates.len()
        invariant
            forall|k: int| 0 <= k < candidates@.len() ==> (#[trigger] candidates@[k]).wf(),
            0 < j <= candidates@.len(),
            0 <= best < j,
            best_score == candidates@[best as int].spec_score(*world),
            forall|k: int|
                0 <= k < j ==> (#[trigger] candidates@[k]).spec_score(*world) <= best_score,
            forall|k: int|
                0 <= k < best ==> (#[trigger] candidates@[k]).spec_score(*world) < best_score,
        decreases candidates@.len() - j,
    {
        let s = candidates[j].score(world);
        if s > best_score {
            best = j;
            best_score = s;
        }
        j += 1;
    }
    Some(best)
}

/// Scoring selection is deterministic: over one world and one candidate
/// list there is exactly one first-seen maximum, so equal-scoring
/// candidates always resolve to the first-generated one.
pub proof fn lemma_selection_deterministic(w: World, s: Seq<Action>, i1: int, i2: int)
    requires
        is_first_max(w, s, i1),
        is_first_max(w, s, i2),
    ensures
        i1 == i2,
{
    if i1 < i2 {
        assert(s[i1].spec_score(w) < s[i2].spec_score(w));
        assert(s[i2].spec_score(w) <= s[i1].spec_score(w));
    }
    if i2 < i1 {
        assert(s[i2].spec_score(w) < s[i1].spec_score(w));
        assert(s[i1].spec_score(w) <= s[i2].spec_score(w));
    }
}

} // verus!
