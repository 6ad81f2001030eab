use vstd::prelude::*;

use crate::draws::Variates;
use crate::grain::{fall_step, roll_move, Grain, GrainState};
use crate::pile::{impacted, lemma_same_cells_settle, roll_effect, step, Sandpile};

verus! {

/// The grains set in motion by one deposit, including every cascade it triggers.
pub struct Avalanche {
    pub id: u32,
    /// Grains currently in motion, in the order they joined.
    pub grainIds: Vec<u32>,
    /// Every distinct grain that ever joined.
    pub involvedIds: Vec<u32>,
    /// Ids of the cells that toppled, each once.
    pub locationIds: Vec<u32>,
    /// Number of distinct grains that ever joined.
    pub totalGrainsInvolved: usize,
    /// Number of relocation events (one level of free fall, one roll), saturating.
    pub totalMovement: usize,
}

/// Whether `v` holds `x`.
pub fn contains_id(v: &Vec<u32>, x: u32) -> (r: bool)
    ensures
        r == v@.contains(x),
{
    let mut i: usize = 0;
    while i < v.len()
        invariant
            i <= v@.len(),
            forall|j: int| 0 <= j < i ==> v@[j] != x,
        decreases v@.len() - i,
    {
        if v[i] == x {
            return true;
        }
        i = i + 1;
    }
    false
}

/// A copy of `v`.
pub fn copy_ids(v: &Vec<u32>) -> (r: Vec<u32>)
    ensures
        r@ == v@,
{
    let mut r: Vec<u32> = Vec::new();
    let mut i: usize = 0;
    while i < v.len()
        invariant
            i <= v@.len(),
            r@ == v@.subrange(0, i as int),
        decreases v@.len() - i,
    {
        r.push(v[i]);
        i = i + 1;
        assert(r@ =~= v@.subrange(0, i as int));
    }
    assert(v@.subrange(0, v@.len() as int) =~= v@);
    r
}

pub proof fn lemma_push_contains(s: Seq<u32>, a: u32, x: u32)
    ensures
        s.push(a).contains(x) <==> (s.contains(x) || x == a),
{
    if s.contains(x) {
        let j = choose|j: int| 0 <= j < s.len() && s[j] == x;
        assert(s.push(a)[j] == x);
    }
    if x == a {
        assert(s.push(a)[s.len() as int] == x);
    }
    if s.push(a).contains(x) {
        let j = choose|j: int| 0 <= j < s.len() + 1 && s.push(a)[j] == x;
        if j < s.len() {
            assert(s[j] == x);
        }
    }
}

pub proof fn lemma_push_no_duplicates(s: Seq<u32>, a: u32)
    requires
        s.no_duplicates(),
        !s.contains(a),
    ensures
        s.push(a).no_duplicates(),
{
    assert forall|i: int, j: int| 0 <= i < s.len() + 1 && 0 <= j < s.len() + 1 && i != j implies s.push(a)[i]
        != s.push(a)[j] by {
        if i == s.len() {
            assert(s[j] == s.push(a)[j]);
        } else if j == s.len() {
            assert(s[i] == s.push(a)[i]);
        }
    }
}

/// The involved grains of `a2` are those of `a` plus the grains that joined
/// the motion between `a` and `a2`.
pub open spec fn joined(a: Avalanche, a2: Avalanche) -> bool {
    forall|x: u32| #[trigger]
        a2.involvedIds@.contains(x) <==> a.involvedIds@.contains(x) || (a2.grainIds@.contains(x)
            && !a.grainIds@.contains(x))
}

/// Whether a grain's position differs between two records.
pub open spec fn relocated(a: Grain, b: Grain) -> bool {
    a.x != b.x || a.y != b.y || a.z != b.z
}

impl Avalanche {
    pub open spec fn wf(&self) -> bool {
        &&& self.grainIds@.no_duplicates()
        &&& self.involvedIds@.no_duplicates()
        &&& forall|x: u32| #[trigger] self.grainIds@.contains(x) ==> self.involvedIds@.contains(x)
        &&& self.totalGrainsInvolved == self.involvedIds@.len()
    }

    /// A new avalanche with no grain in it.
    pub fn new(id: u32) -> (r: Avalanche)
        ensures
            r.wf(),
            r.id == id,
            r.grainIds@.len() == 0,
            r.involvedIds@.len() == 0,
            r.locationIds@.len() == 0,
            r.totalGrainsInvolved == 0,
            r.totalMovement == 0,
    {
        Avalanche {
            id,
            grainIds: Vec::new(),
            involvedIds: Vec::new(),
            locationIds: Vec::new(),
            totalGrainsInvolved: 0,
            totalMovement: 0,
        }
    }

    /// Put a grain in motion in this avalanche; a grain already in motion is not
    /// added twice, and a grain counts once among the involved.
    pub fn addGrain(&mut self, grainId: u32)
        requires
            old(self).wf(),
        ensures
            final(self).wf(),
            final(self).grainIds@ == if old(self).grainIds@.contains(grainId) {
                old(self).grainIds@
            } else {
                old(self).grainIds@.push(grainId)
            },
            final(self).involvedIds@ == if old(self).involvedIds@.contains(grainId) {
                old(self).involvedIds@
            } else {
                old(self).involvedIds@.push(grainId)
            },
            final(self).id == old(self).id,
            final(self).locationIds@ == old(self).locationIds@,
            final(self).totalMovement == old(self).totalMovement,
    {
        let ghost moving = self.grainIds@;
        let ghost involved = self.involvedIds@;
        if !contains_id(&self.grainIds, grainId) {
            proof {
                lemma_push_no_duplicates(self.grainIds@, grainId);
            }
            self.grainIds.push(grainId);
        }
        if !contains_id(&self.involvedIds, grainId) {
            proof {
                lemma_push_no_duplicates(self.involvedIds@, grainId);
            }
            self.involvedIds.push(grainId);
            self.totalGrainsInvolved = self.involvedIds.len();
        }
        proof {
            assert forall|x: u32| #[trigger] self.grainIds@.contains(x) implies self.involvedIds@.contains(x) by {
                lemma_push_contains(moving, grainId, x);
                lemma_push_contains(involved, grainId, x);
            }
        }
    }

    /// Take a grain out of motion.
    pub fn removeGrain(&mut self, grainId: u32)
        requires
            old(self).wf(),
            old(self).grainIds@.contains(grainId),
        ensures
            final(self).wf(),
            final(self).grainIds@.len() == old(self).grainIds@.len() - 1,
            !final(self).grainIds@.contains(grainId),
            forall|g: u32| #[trigger]
                final(self).grainIds@.contains(g) <==> old(self).grainIds@.contains(g) && g != grainId,
            final(self).id == old(self).id,
            final(self).involvedIds@ == old(self).involvedIds@,
            final(self).locationIds@ == old(self).locationIds@,
            final(self).totalMovement == old(self).totalMovement,
    {
        let ghost before = self.grainIds@;
        let mut i: usize = 0;
        while i < self.grainIds.len() && self.grainIds[i] != grainId
            invariant
                self.grainIds@ == before,
                before.contains(grainId),
                i <= before.len(),
                forall|j: int| 0 <= j < i ==> before[j] != grainId,
            decreases before.len() - i,
        {
            i = i + 1;
        }
        proof {
            if i == before.len() {
                let j = choose|j: int| 0 <= j < before.len() && before[j] == grainId;
            }
            assert(before[i as int] == grainId);
        }
        self.grainIds.remove(i);
        proof {
            let after = self.grainIds@;
            assert(after =~= before.remove(i as int));
            assert forall|g: u32| before.contains(g) && g != grainId implies #[trigger] after.contains(g) by {
                let j = choose|j: int| 0 <= j < before.len() && before[j] == g;
                if j < i {
                    assert(after[j] == g);
                } else {
                    assert(after[j - 1] == g);
                }
            }
            assert forall|g: u32| #[trigger] after.contains(g) implies before.contains(g) && g != grainId by {
                let j = choose|j: int| 0 <= j < after.len() && after[j] == g;
                if j < i {
                    assert(before[j] == g);
                } else {
                    assert(before[j + 1] == g);
                }
            }
            assert(after.no_duplicates()) by {
                assert forall|a: int, b: int| 0 <= a < after.len() && 0 <= b < after.len() && a != b implies after[a]
                    != after[b] by {
                    let a2 = if a < i { a } else { a + 1 };
                    let b2 = if b < i { b } else { b + 1 };
                    assert(after[a] == before[a2]);
                    assert(after[b] == before[b2]);
                }
            }
        }
    }
}

impl Avalanche {
    /// Advance grain `grainId` of this avalanche by one transition of its
    /// state machine: `Unknown` starts falling; `Falling` falls one level or
    /// reaches `Impact`; `Impact` lands or rolls on, then perturbs the cell;
    /// `Rolling` follows the roll rule. A grain that comes to rest or escapes
    /// leaves the avalanche; grains a perturbation sheds join it. The effect is
    /// the `step` relation; the counters move as `advance` states. Every grain
    /// of the avalanche is in motion (the pile invariant), so a stationary
    /// member cannot occur: a grain leaves the avalanche in the same call that
    /// brings it to rest.
    pub fn update<R: Variates>(&mut self, pile: &mut Sandpile, grainId: u32, rng: &mut R)
        requires
            old(pile).inv(old(self).grainIds@, Seq::empty()),
            old(self).wf(),
            old(self).grainIds@.contains(grainId),
        ensures
            final(pile).inv(final(self).grainIds@, Seq::empty()),
            final(self).wf(),
            final(pile).keeps_frame(*old(pile)),
            final(pile).escaped >= old(pile).escaped,
            final(pile).stranded == old(pile).stranded,
            final(self).id == old(self).id,
            final(self).totalGrainsInvolved >= old(self).totalGrainsInvolved,
            old(pile).grain(grainId).state == GrainState::Unknown ==> {
                &&& final(pile).grain(grainId) == (Grain {
                    state: GrainState::Falling,
                    ..old(pile).grain(grainId)
                })
                &&& final(self).grainIds@ == old(self).grainIds@
            },
            old(pile).grain(grainId).state == GrainState::Falling ==> {
                &&& final(pile).grain(grainId) == fall_step(old(pile).lattice, old(pile).grain(grainId))
                &&& final(self).grainIds@ == old(self).grainIds@
                &&& final(self).totalMovement == crate::draws::sat_add(
                    old(self).totalMovement as int,
                    if old(pile).lattice.falls_through(
                        old(pile).grain(grainId).x as int,
                        old(pile).grain(grainId).y as int,
                        old(pile).grain(grainId).z as int,
                    ) {
                        1
                    } else {
                        0
                    },
                )
            },
            step(*old(pile), old(self).grainIds@, *final(pile), final(self).grainIds@, grainId),
            joined(*old(self), *final(self)),
            final(self).totalMovement == if relocated(old(pile).grain(grainId), final(pile).grain(grainId)) {
                crate::draws::sat_add(old(self).totalMovement as int, 1) as usize
            } else {
                old(self).totalMovement
            },
            old(pile).grain(grainId).state == GrainState::Impact ==> final(pile).escaped == old(pile).escaped,
            old(pile).grain(grainId).state == GrainState::Impact ==> impacted(
                *old(pile),
                old(self).grainIds@,
                *final(pile),
                final(self).grainIds@,
                grainId,
            ),
            old(pile).grain(grainId).state == GrainState::Rolling ==> exists|choice: usize|
                roll_effect(
                    *old(pile),
                    *final(pile),
                    old(self).grainIds@,
                    final(self).grainIds@,
                    grainId,
                    #[trigger] roll_move(old(pile).lattice, old(pile).grain(grainId), choice),
                ),
    {
        let mut grain = pile.registry.grains[grainId as usize];
        proof {
            assert(old(pile).moving_ok(grainId));
        }
        proof {
            reveal(step);
        }
        match grain.state {
            GrainState::Unknown => {
                grain.state = GrainState::Falling;
                pile.record_moving(grain, Ghost(self.grainIds@));
            },
            GrainState::Falling => {
                let moved = grain.fall(&pile.lattice);
                pile.record_moving(grain, Ghost(self.grainIds@));
                if moved {
                    self.totalMovement = self.totalMovement.saturating_add(1);
                }
            },
            GrainState::Impact => {
                pile.impact_step(self, grainId, rng);
            },
            GrainState::Rolling => {
                pile.roll_step(self, grainId, rng);
            },
            GrainState::Stationary => {},
        }
        proof {
            lemma_same_cells_settle(*old(pile), *pile);
        }
    }
}

} // verus!
