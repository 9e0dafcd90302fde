//! The per-tick simulation step, win-condition aggregation and population
//! generation.

use vstd::prelude::*;

use crate::combatant::{
    Combatant, CombatantType, COORD_LIMIT, SCALE_INIT, SCALE_LIMIT, SCALE_STEP, SPEED_MAX,
    SPEED_MIN, SPEED_STEP,
};
use crate::motion::{moved_pos, overlaps};
use crate::rng::SimRng;
use crate::targeting::{eligible, is_chosen_target, target_choice};

verus! {

/// A well-formed population: every combatant in range, and no two sharing an
/// identifier.
pub open spec fn wf_population(s: Seq<Combatant>) -> bool {
    &&& forall|i: int| 0 <= i < s.len() ==> (#[trigger] s[i]).wf()
    &&& forall|i: int, j: int| 0 <= i < j < s.len() ==> s[i].id != s[j].id
}

/// The escalation reward for a win: speed drops by a fixed decrement
/// (stopping at zero) and the visual scale grows by a fixed increment
/// (saturating at its cap).
pub open spec fn credit_win(c: Combatant) -> Combatant {
    Combatant {
        speed: if c.speed >= SPEED_STEP {
            (c.speed - SPEED_STEP) as i64
        } else {
            0
        },
        scale: if c.scale + SCALE_STEP <= SCALE_LIMIT {
            (c.scale + SCALE_STEP) as i64
        } else {
            SCALE_LIMIT
        },
        ..c
    }
}

/// What acting combatant `k` does to the tick state: if it was already
/// defeated this tick it sits out; otherwise it moves toward its chosen
/// target from the start-of-tick snapshot `s0`, and on contact records a hit
/// against the target and takes the escalation reward.
pub open spec fn tick_acted(
    s0: Seq<Combatant>,
    cur: Seq<Combatant>,
    hits: Set<usize>,
    k: int,
) -> (Seq<Combatant>, Set<usize>) {
    let c = s0[k];
    if hits.contains(c.id) {
        (cur, hits)
    } else {
        match target_choice(c, s0) {
            Option::None => (cur, hits),
            Option::Some(j) => {
                let t = s0[j];
                let p = moved_pos(c.x as int, c.y as int, t.x as int, t.y as int, c.speed as int);
                let m = Combatant { x: p.0 as i64, y: p.1 as i64, ..c };
                if overlaps(m, t) {
                    (cur.update(k, credit_win(m)), hits.insert(t.id))
                } else {
                    (cur.update(k, m), hits)
                }
            },
        }
    }
}

/// The tick state after the first `k` combatants have acted, starting from
/// the snapshot `s0` with no hits recorded.
pub open spec fn tick_upto(s0: Seq<Combatant>, k: int) -> (Seq<Combatant>, Set<usize>)
    decreases k,
{
    if k <= 0 {
        (s0, Set::empty())
    } else {
        let prev = tick_upto(s0, k - 1);
        tick_acted(s0, prev.0, prev.1, k - 1)
    }
}

/// The tick state once every combatant has acted.
pub open spec fn tick_result(s0: Seq<Combatant>) -> (Seq<Combatant>, Set<usize>) {
    tick_upto(s0, s0.len() as int)
}

/// Keep a combatant when its id is not in the defeated set.
pub open spec fn not_defeated(hits: Set<usize>) -> spec_fn(Combatant) -> bool {
    |c: Combatant| !hits.contains(c.id)
}

/// The population a tick leaves behind: everyone has acted, and the
/// combatants defeated during the tick are compacted away in one pass.
pub open spec fn tick_survivors(s0: Seq<Combatant>) -> Seq<Combatant> {
    tick_result(s0).0.filter(not_defeated(tick_result(s0).1))
}

/// Throughout a tick: the acting sequence keeps its length, every slot keeps
/// its id and type and stays well formed, slots that have not acted yet are
/// untouched, and every recorded hit names an id from the snapshot.
pub proof fn lemma_tick_frame(s0: Seq<Combatant>, k: int)
    requires
        wf_population(s0),
        0 <= k <= s0.len(),
    ensures
        tick_upto(s0, k).0.len() == s0.len(),
        forall|i: int|
            0 <= i < s0.len() ==> {
                let c = #[trigger] tick_upto(s0, k).0[i];
                c.id == s0[i].id && c.kind == s0[i].kind && c.wf()
            },
        forall|i: int| k <= i < s0.len() ==> #[trigger] tick_upto(s0, k).0[i] == s0[i],
        forall|id: usize|
            tick_upto(s0, k).1.contains(id) ==> exists|i: int|
                0 <= i < s0.len() && (#[trigger] s0[i]).id == id,
    decreases k,
{
    if k > 0 {
        lemma_tick_frame(s0, k - 1);
        let prev = tick_upto(s0, k - 1);
        let c = s0[k - 1];
        if !prev.1.contains(c.id) {
            match target_choice(c, s0) {
                Option::None => {},
                Option::Some(j) => {
                    assert(is_chosen_target(c, s0, j));
                    let t = s0[j];
                    crate::motion::lemma_moved_pos_between(
                        c.x as int,
                        c.y as int,
                        t.x as int,
                        t.y as int,
                        c.speed as int,
                    );
                },
            }
        }
    }
}

/// The unanimity check: the surviving type if every combatant shares it, and
/// no decision otherwise (an empty population reports no decision).
pub open spec fn unanimous_of(s: Seq<Combatant>) -> Option<CombatantType> {
    if s.len() > 0 && (forall|i: int| 0 <= i < s.len() ==> (#[trigger] s[i]).kind == s[0].kind) {
        Some(s[0].kind)
    } else {
        None
    }
}

/// Reports whether a single type remains: the winning type if all surviving
/// combatants share it, and nothing on a mixed or empty population.
pub fn check_unanimous(store: &Vec<Combatant>) -> (winner: Option<CombatantType>)
    ensures
        winner == unanimous_of(store@),
        match winner {
            Some(t) => store@.len() > 0 && forall|i: int|
                0 <= i < store@.len() ==> (#[trigger] store@[i]).kind == t,
            None => store@.len() == 0 || exists|i: int|
                0 <= i < store@.len() && (#[trigger] store@[i]).kind != store@[0].kind,
        },
{
    if store.len() == 0 {
        return None;
    }
    let first = store[0].kind;
    let n = store.len();
    for i in 0..n
        invariant
            n == store@.len(),
            n > 0,
            first == store@[0].kind,
            forall|k: int| 0 <= k < i ==> (#[trigger] store@[k]).kind == first,
    {
        if !kind_eq(store[i].kind, first) {
            return None;
        }
    }
    Some(first)
}

/// Type equality test used by the unanimity scan.
fn kind_eq(a: CombatantType, b: CombatantType) -> (r: bool)
    ensures
        r == (a == b),
{
    a == b
}

/// A population that is entirely of one type is unanimous as it stands, with
/// no tick executed.
pub proof fn lemma_uniform_population_unanimous(s: Seq<Combatant>, t: CombatantType)
    requires
        s.len() > 0,
        forall|i: int| 0 <= i < s.len() ==> (#[trigger] s[i]).kind == t,
    ensures
        unanimous_of(s) == Some(t),
{
    assert(s[0].kind == t);
}

/// The spawn area: positions are drawn from `[0, width) x [0, height)`
/// (degenerate extents collapse spawns onto the axis).
#[derive(Clone, Copy, PartialEq, Eq, Structural, Debug)]
pub struct Bounds {
    pub width: i64,
    pub height: i64,
}

impl Bounds {
    /// Extents are nonnegative and within the fixed-point coordinate range.
    pub open spec fn wf(self) -> bool {
        0 <= self.width <= COORD_LIMIT && 0 <= self.height <= COORD_LIMIT
    }
}

/// Generates `count` combatants with sequential ids, positions drawn
/// uniformly inside `bounds`, speeds drawn from the fixed spawn range and
/// types drawn uniformly from the three-value enumeration, all from the
/// injected seed.
pub fn generate_population(count: usize, bounds: Bounds, seed: u64) -> (pop: Vec<Combatant>)
    requires
        bounds.wf(),
    ensures
        pop@.len() == count,
        forall|i: int| 0 <= i < count ==> (#[trigger] pop@[i]).id == i,
        forall|i: int|
            0 <= i < count ==> {
                let c = #[trigger] pop@[i];
                &&& 0 <= c.x <= bounds.width
                &&& 0 <= c.y <= bounds.height
                &&& (bounds.width > 0 ==> c.x < bounds.width)
                &&& (bounds.height > 0 ==> c.y < bounds.height)
                &&& SPEED_MIN <= c.speed <= SPEED_MAX
                &&& c.scale == SCALE_INIT
                &&& c.wf()
            },
        wf_population(pop@),
{
    let mut rng = SimRng::from_seed(seed);
    let mut pop: Vec<Combatant> = Vec::new();
    for i in 0..count
        invariant
            bounds.wf(),
            pop@.len() == i,
            forall|k: int| 0 <= k < i ==> (#[trigger] pop@[k]).id == k,
            forall|k: int|
                0 <= k < i ==> {
                    let c = #[trigger] pop@[k];
                    &&& 0 <= c.x <= bounds.width
                    &&& 0 <= c.y <= bounds.height
                    &&& (bounds.width > 0 ==> c.x < bounds.width)
                    &&& (bounds.height > 0 ==> c.y < bounds.height)
                    &&& SPEED_MIN <= c.speed <= SPEED_MAX
                    &&& c.scale == SCALE_INIT
                    &&& c.wf()
                },
    {
        let x = if bounds.width > 0 {
            rng.gen_range_i64(0, bounds.width)
        } else {
            0
        };
        let y = if bounds.height > 0 {
            rng.gen_range_i64(0, bounds.height)
        } else {
            0
        };
        let speed = rng.gen_range_i64(SPEED_MIN, SPEED_MAX + 1);
        let kind = match rng.gen_range_i64(0, 3) {
            0 => CombatantType::Rock,
            1 => CombatantType::Paper,
            _ => CombatantType::Scissors,
        };
        pop.push(Combatant::new(x, y, speed, kind, i));
    }
    pop
}

/// Tests whether an id is among those recorded this tick.
fn contains_id(ids: &Vec<usize>, id: usize) -> (found: bool)
    ensures
        found == ids@.contains(id),
{
    let n = ids.len();
    for i in 0..n
        invariant
            n == ids@.len(),
            forall|k: int| 0 <= k < i ==> ids@[k] != id,
    {
        if ids[i] == id {
            return true;
        }
    }
    false
}

/// Applies the escalation reward to a winner.
fn apply_win(c: &mut Combatant)
    requires
        old(c).wf(),
    ensures
        *final(c) == credit_win(*old(c)),
        final(c).wf(),
{
    if c.speed >= SPEED_STEP {
        c.speed = c.speed - SPEED_STEP;
    } else {
        c.speed = 0;
    }
    if c.scale <= SCALE_LIMIT - SCALE_STEP {
        c.scale = c.scale + SCALE_STEP;
    } else {
        c.scale = SCALE_LIMIT;
    }
}

/// Every entry the compaction pass keeps occurs in its source sequence.
proof fn lemma_filter_keeps(s: Seq<Combatant>, pred: spec_fn(Combatant) -> bool)
    ensures
        forall|x: Combatant| #[trigger] s.filter(pred).contains(x) ==> s.contains(x),
    decreases s.len(),
{
    reveal(Seq::filter);
    if s.len() > 0 {
        let d = s.drop_last();
        lemma_filter_keeps(d, pred);
        let f = s.filter(pred);
        let fd = d.filter(pred);
        assert forall|x: Combatant| #[trigger] f.contains(x) implies s.contains(x) by {
            let i = choose|i: int| 0 <= i < f.len() && f[i] == x;
            if pred(s.last()) {
                if i < fd.len() {
                    assert(fd.contains(x));
                    let a = choose|a: int| 0 <= a < d.len() && d[a] == x;
                    assert(s[a] == x);
                } else {
                    assert(s[s.len() - 1] == x);
                }
            } else {
                assert(fd.contains(x));
                let a = choose|a: int| 0 <= a < d.len() && d[a] == x;
                assert(s[a] == x);
            }
        }
    }
}

/// Compaction of a population with pairwise-distinct ids never yields two
/// entries with the same id.
proof fn lemma_filter_distinct_ids(s: Seq<Combatant>, pred: spec_fn(Combatant) -> bool)
    requires
        forall|i: int, j: int| 0 <= i < j < s.len() ==> s[i].id != s[j].id,
    ensures
        forall|i: int, j: int|
            0 <= i < j < s.filter(pred).len() ==> s.filter(pred)[i].id != s.filter(pred)[j].id,
    decreases s.len(),
{
    reveal(Seq::filter);
    if s.len() > 0 {
        let d = s.drop_last();
        lemma_filter_distinct_ids(d, pred);
        lemma_filter_keeps(d, pred);
        let f = s.filter(pred);
        let fd = d.filter(pred);
        assert forall|i: int, j: int| 0 <= i < j < f.len() implies f[i].id != f[j].id by {
            if pred(s.last()) && j == f.len() - 1 {
                assert(f[j] == s.last());
                assert(fd.contains(fd[i]));
                let a = choose|a: int| 0 <= a < d.len() && d[a] == fd[i];
                assert(s[a] == fd[i]);
                assert(s[a].id != s[s.len() - 1].id);
            }
        }
    }
}

/// Two predicates that agree on every entry filter a sequence identically.
proof fn lemma_filter_congruent(
    s: Seq<Combatant>,
    p1: spec_fn(Combatant) -> bool,
    p2: spec_fn(Combatant) -> bool,
)
    requires
        forall|i: int| 0 <= i < s.len() ==> p1(#[trigger] s[i]) == p2(s[i]),
    ensures
        s.filter(p1) == s.filter(p2),
    decreases s.len(),
{
    reveal(Seq::filter);
    if s.len() > 0 {
        lemma_filter_congruent(s.drop_last(), p1, p2);
    }
}

/// Compacting away a set of ids that all occur in a population with
/// pairwise-distinct ids removes exactly one combatant per id.
proof fn lemma_defeated_count(s: Seq<Combatant>, h: Set<usize>)
    requires
        forall|i: int, j: int| 0 <= i < j < s.len() ==> s[i].id != s[j].id,
        h.finite(),
        forall|id: usize|
            h.contains(id) ==> exists|i: int| 0 <= i < s.len() && (#[trigger] s[i]).id == id,
    ensures
        s.filter(not_defeated(h)).len() + h.len() == s.len(),
    decreases s.len(),
{
    broadcast use vstd::set::group_set_axioms;

    reveal(Seq::filter);
    if s.len() == 0 {
        assert(h =~= Set::empty());
    } else {
        let d = s.drop_last();
        let last = s.last();
        if h.contains(last.id) {
            let h2 = h.remove(last.id);
            assert forall|id: usize| h2.contains(id) implies exists|i: int|
                0 <= i < d.len() && (#[trigger] d[i]).id == id by {
                assert(h.contains(id));
                let i = choose|i: int| 0 <= i < s.len() && (#[trigger] s[i]).id == id;
                assert(i < s.len() - 1);
                assert(d[i] == s[i]);
            }
            lemma_defeated_count(d, h2);
            lemma_filter_congruent(d, not_defeated(h), not_defeated(h2));
        } else {
            assert forall|id: usize| h.contains(id) implies exists|i: int|
                0 <= i < d.len() && (#[trigger] d[i]).id == id by {
                let i = choose|i: int| 0 <= i < s.len() && (#[trigger] s[i]).id == id;
                assert(i < s.len() - 1);
                assert(d[i] == s[i]);
            }
            lemma_defeated_count(d, h);
        }
    }
}

/// Advances the simulation one tick.  Every live combatant, in store order,
/// seeks its nearest defeatable rival in the start-of-tick snapshot, moves
/// one step toward it, and on contact defeats it and takes the escalation
/// reward; a combatant defeated earlier in the tick no longer acts as a
/// mover.  Defeated combatants are then compacted away in a single pass, and
/// their ids are returned.
pub fn step(store: &mut Vec<Combatant>) -> (removed: Vec<usize>)
    requires
        wf_population(old(store)@),
    ensures
        final(store)@ == tick_survivors(old(store)@),
        removed@.to_set() == tick_result(old(store)@).1,
        removed@.no_duplicates(),
        forall|id: usize|
            removed@.contains(id) ==> exists|i: int|
                0 <= i < old(store)@.len() && (#[trigger] old(store)@[i]).id == id,
        final(store)@.len() + removed@.len() == old(store)@.len(),
        wf_population(final(store)@),
{
    let ghost s0 = store@;
    let n = store.len();
    let mut snapshot: Vec<Combatant> = Vec::new();
    for i in 0..n
        invariant
            n == store@.len(),
            store@ == s0,
            snapshot@ == s0.subrange(0, i as int),
    {
        snapshot.push(store[i]);
        proof {
            assert(s0.subrange(0, i as int).push(s0[i as int]) =~= s0.subrange(0, i as int + 1));
        }
    }
    proof {
        assert(s0.subrange(0, n as int) =~= s0);
    }
    let mut hits: Vec<usize> = Vec::new();
    proof {
        assert(Seq::<usize>::empty().to_set() =~= Set::<usize>::empty());
    }
    for k in 0..n
        invariant
            n == s0.len(),
            n == store@.len(),
            snapshot@ == s0,
            wf_population(s0),
            store@ == tick_upto(s0, k as int).0,
            hits@.to_set() == tick_upto(s0, k as int).1,
            hits@.no_duplicates(),
    {
        proof {
            lemma_tick_frame(s0, k as int);
        }
        let c = store[k];
        let ghost pre = tick_upto(s0, k as int);
        let ghost post = tick_upto(s0, k as int + 1);
        assert(c == s0[k as int]);
        assert(post == tick_acted(s0, pre.0, pre.1, k as int));
        if !contains_id(&hits, c.id) {
            match crate::targeting::nearest_target(&c, &snapshot) {
                Option::None => {
                    assert(post == pre);
                },
                Option::Some(j) => {
                    let t = snapshot[j];
                    let mut m = c;
                    m.move_toward(t.x, t.y);
                    proof {
                        let p = moved_pos(
                            c.x as int,
                            c.y as int,
                            t.x as int,
                            t.y as int,
                            c.speed as int,
                        );
                        assert(m == (Combatant { x: p.0 as i64, y: p.1 as i64, ..c }));
                    }
                    if crate::motion::collision_detection(&m, &t) {
                        apply_win(&mut m);
                        store.set(k, m);
                        if !contains_id(&hits, t.id) {
                            proof {
                                hits@.lemma_push_to_set_commute(t.id);
                                let h2 = hits@.push(t.id);
                                assert forall|a: int, b: int|
                                    0 <= a < h2.len() && 0 <= b < h2.len() && a != b implies h2[a]
                                    != h2[b] by {
                                    if b == h2.len() - 1 {
                                        assert(hits@[a] != t.id);
                                    } else if a == h2.len() - 1 {
                                        assert(hits@[b] != t.id);
                                    }
                                }
                            }
                            hits.push(t.id);
                        } else {
                            proof {
                                assert(pre.1.insert(t.id) =~= pre.1);
                            }
                        }
                    } else {
                        store.set(k, m);
                    }
                },
            }
        }
    }
    let ghost fin = tick_result(s0);
    proof {
        assert(fin == tick_upto(s0, n as int));
        lemma_tick_frame(s0, n as int);
    }
    let mut out: Vec<Combatant> = Vec::new();
    proof {
        reveal_with_fuel(Seq::filter, 1);
        assert(fin.0.subrange(0, 0).filter(not_defeated(fin.1)) =~= Seq::<Combatant>::empty());
    }
    for i in 0..n
        invariant
            n == s0.len(),
            n == store@.len(),
            store@ == fin.0,
            fin == tick_result(s0),
            hits@.to_set() == fin.1,
            out@ == fin.0.subrange(0, i as int).filter(not_defeated(fin.1)),
    {
        let c = store[i];
        let keep = !contains_id(&hits, c.id);
        proof {
            let pred = not_defeated(fin.1);
            let prefix = fin.0.subrange(0, i as int);
            let single = seq![c];
            assert(fin.0.subrange(0, i as int + 1) =~= prefix + single);
            Seq::<Combatant>::filter_distributes_over_add(prefix, single, pred);
            reveal_with_fuel(Seq::filter, 2);
            assert(single.drop_last() =~= Seq::<Combatant>::empty());
            assert(single.filter(pred) == if pred(c) {
                Seq::<Combatant>::empty().push(c)
            } else {
                Seq::<Combatant>::empty()
            });
            if pred(c) {
                assert(prefix.filter(pred).push(c) =~= prefix.filter(pred) + single.filter(pred));
            } else {
                assert(prefix.filter(pred) =~= prefix.filter(pred) + single.filter(pred));
            }
        }
        if keep {
            out.push(c);
        }
    }
    proof {
        assert(fin.0.subrange(0, n as int) =~= fin.0);
        lemma_tick_frame(s0, n as int);
        let pred = not_defeated(fin.1);
        let f = fin.0.filter(pred);
        assert(forall|i: int, j: int| 0 <= i < j < fin.0.len() ==> fin.0[i].id != fin.0[j].id);
        lemma_filter_keeps(fin.0, pred);
        lemma_filter_distinct_ids(fin.0, pred);
        assert forall|i: int| 0 <= i < f.len() implies (#[trigger] f[i]).wf() by {
            assert(f.contains(f[i]));
            let a = choose|a: int| 0 <= a < fin.0.len() && fin.0[a] == f[i];
        }
        assert forall|id: usize| #[trigger] hits@.contains(id) implies exists|i: int|
            0 <= i < old(store)@.len() && (#[trigger] old(store)@[i]).id == id by {
            assert(hits@.to_set().contains(id));
            assert(tick_upto(s0, n as int).1.contains(id));
            let i = choose|i: int| 0 <= i < s0.len() && (#[trigger] s0[i]).id == id;
            assert(old(store)@[i].id == id);
        }
        hits@.unique_seq_to_set();
        vstd::seq_lib::seq_to_set_is_finite::<usize>(hits@);
        assert forall|id: usize| fin.1.contains(id) implies exists|i: int|
            0 <= i < fin.0.len() && (#[trigger] fin.0[i]).id == id by {
            assert(tick_upto(s0, n as int).1.contains(id));
            let i = choose|i: int| 0 <= i < s0.len() && (#[trigger] s0[i]).id == id;
            assert(fin.0[i].id == s0[i].id);
        }
        lemma_defeated_count(fin.0, fin.1);
    }
    *store = out;
    hits
}

/// A filter whose predicate holds of every entry keeps the sequence as it
/// is.
proof fn lemma_filter_all(s: Seq<Combatant>, pred: spec_fn(Combatant) -> bool)
    requires
        forall|i: int| 0 <= i < s.len() ==> pred(#[trigger] s[i]),
    ensures
        s.filter(pred) == s,
    decreases s.len(),
{
    reveal(Seq::filter);
    if s.len() > 0 {
        lemma_filter_all(s.drop_last(), pred);
        assert(s.drop_last().push(s.last()) =~= s);
    }
}

/// While every combatant shares one type, no actor ever has a target.
proof fn lemma_tick_stuck_upto(s: Seq<Combatant>, k: int)
    requires
        0 <= k <= s.len(),
        forall|i: int, j: int|
            0 <= i < s.len() && 0 <= j < s.len() ==> (#[trigger] s[i]).kind == (#[trigger] s[j]).kind,
    ensures
        tick_upto(s, k).0 == s,
        tick_upto(s, k).1 == Set::<usize>::empty(),
    decreases k,
{
    if k > 0 {
        lemma_tick_stuck_upto(s, k - 1);
        let c = s[k - 1];
        assert forall|j: int| !(#[trigger] is_chosen_target(c, s, j)) by {
            if is_chosen_target(c, s, j) {
                assert(eligible(c, s, j));
                crate::combatant::lemma_beats_irreflexive(c.kind, s[j].kind);
            }
        }
        assert(target_choice(c, s) is None);
    }
}

/// A tick on a population that has already converged to one type is a
/// no-op: no combatant finds an eligible target, so nobody moves, nobody is
/// defeated and the population survives unchanged.
pub proof fn lemma_converged_stable(s: Seq<Combatant>)
    requires
        forall|i: int, j: int|
            0 <= i < s.len() && 0 <= j < s.len() ==> (#[trigger] s[i]).kind == (#[trigger] s[j]).kind,
    ensures
        tick_result(s).1 == Set::<usize>::empty(),
        tick_survivors(s) == s,
{
    lemma_tick_stuck_upto(s, s.len() as int);
    lemma_filter_all(s, not_defeated(tick_result(s).1));
}

/// Replaces the store's contents wholesale with a freshly generated
/// population; previous combatants (and their ids) are discarded.
pub fn reset(store: &mut Vec<Combatant>, count: usize, bounds: Bounds, seed: u64)
    requires
        bounds.wf(),
    ensures
        final(store)@.len() == count,
        forall|i: int| 0 <= i < count ==> (#[trigger] final(store)@[i]).id == i,
        wf_population(final(store)@),
{
    *store = generate_population(count, bounds, seed);
}

} // verus!
