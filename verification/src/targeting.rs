//! Nearest-rival selection over a snapshot of the population.

use vstd::prelude::*;

use crate::combatant::{beats, win_rules, Combatant};
use crate::math::sq_dist;

verus! {

/// Squared distance between two combatants' positions.
pub open spec fn dist_between(a: Combatant, b: Combatant) -> int {
    sq_dist(a.x as int, a.y as int, b.x as int, b.y as int)
}

/// Whether the snapshot entry at `i` is a target the actor could defeat.
pub open spec fn eligible(actor: Combatant, others: Seq<Combatant>, i: int) -> bool {
    0 <= i < others.len() && beats(actor.kind, others[i].kind)
}

/// Whether `j` is the index targeting selects for the actor: an eligible
/// entry at minimal squared distance, and the first one in snapshot order to
/// reach that minimum.
pub open spec fn is_chosen_target(actor: Combatant, others: Seq<Combatant>, j: int) -> bool {
    &&& eligible(actor, others, j)
    &&& forall|i: int|
        #[trigger] eligible(actor, others, i) ==> dist_between(
            actor,
            others[j],
        ) <= dist_between(actor, others[i])
    &&& forall|i: int|
        #[trigger] eligible(actor, others, i) && i < j ==> dist_between(actor, others[i])
            > dist_between(actor, others[j])
}

/// The target selection itself: the chosen index if an eligible entry
/// exists, and nothing otherwise.
pub open spec fn target_choice(actor: Combatant, others: Seq<Combatant>) -> Option<int> {
    if exists|j: int| #[trigger] is_chosen_target(actor, others, j) {
        Some(choose|j: int| #[trigger] is_chosen_target(actor, others, j))
    } else {
        None
    }
}

/// At most one index can be the chosen target: selection is deterministic,
/// and on a distance tie the entry met first in snapshot order wins.
pub proof fn lemma_chosen_unique(actor: Combatant, others: Seq<Combatant>, j1: int, j2: int)
    requires
        is_chosen_target(actor, others, j1),
        is_chosen_target(actor, others, j2),
    ensures
        j1 == j2,
{
    if j1 < j2 {
        assert(eligible(actor, others, j1));
    } else if j2 < j1 {
        assert(eligible(actor, others, j2));
    }
}

/// On an exact distance tie between two eligible entries, the later one is
/// never selected.
pub proof fn lemma_tie_break_first(actor: Combatant, others: Seq<Combatant>, i: int, j: int)
    requires
        eligible(actor, others, i),
        eligible(actor, others, j),
        i < j,
        dist_between(actor, others[i]) == dist_between(actor, others[j]),
    ensures
        !is_chosen_target(actor, others, j),
{
}

/// A chosen target is never of the actor's own type, and never the actor
/// itself.
pub proof fn lemma_target_never_own_type(actor: Combatant, others: Seq<Combatant>, j: int)
    requires
        is_chosen_target(actor, others, j),
    ensures
        others[j].kind != actor.kind,
        others[j] != actor,
{
    crate::combatant::lemma_beats_irreflexive(actor.kind, others[j].kind);
}

/// Selects the nearest combatant in the snapshot that the actor is capable
/// of defeating; squared distance orders candidates and the first entry at
/// the minimum wins ties.  Returns nothing when no defeatable entry exists.
pub fn nearest_target(actor: &Combatant, others: &Vec<Combatant>) -> (t: Option<usize>)
    requires
        actor.wf(),
        forall|i: int| 0 <= i < others@.len() ==> (#[trigger] others@[i]).wf(),
    ensures
        match t {
            None => target_choice(*actor, others@) is None,
            Some(j) => j < others@.len() && is_chosen_target(*actor, others@, j as int)
                && target_choice(*actor, others@) == Some(j as int) && others@[j as int].kind
                != actor.kind && others@[j as int] != *actor,
        },
{
    let mut best: Option<usize> = None;
    let mut best_d: u64 = 0;
    let n = others.len();
    for i in 0..n
        invariant
            n == others@.len(),
            actor.wf(),
            forall|k: int| 0 <= k < others@.len() ==> (#[trigger] others@[k]).wf(),
            match best {
                None => forall|k: int| 0 <= k < i ==> !eligible(*actor, others@, k),
                Some(j) => {
                    &&& j < i
                    &&& eligible(*actor, others@, j as int)
                    &&& best_d == dist_between(*actor, others@[j as int])
                    &&& forall|k: int|
                        #[trigger] eligible(*actor, others@, k) && k < i ==> dist_between(
                            *actor,
                            others@[k],
                        ) >= best_d
                    &&& forall|k: int|
                        #[trigger] eligible(*actor, others@, k) && k < j ==> dist_between(
                            *actor,
                            others@[k],
                        ) > best_d
                },
            },
    {
        let cand = &others[i];
        if win_rules(actor.kind, cand.kind) {
            let d = crate::math::sq_dist_exec(actor.x, actor.y, cand.x, cand.y);
            let take = match best {
                None => true,
                Some(_) => d < best_d,
            };
            if take {
                best = Some(i);
                best_d = d;
            }
        }
    }
    proof {
        if let Some(j) = best {
            assert(is_chosen_target(*actor, others@, j as int));
            let w = choose|j: int| #[trigger] is_chosen_target(*actor, others@, j);
            lemma_chosen_unique(*actor, others@, j as int, w);
            lemma_target_never_own_type(*actor, others@, j as int);
        }
    }
    best
}

} // verus!
