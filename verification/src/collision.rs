//! Pairwise collision between a group of projectiles and a group of targets.
use vstd::prelude::*;
use crate::bullet::{Bullet, Vector};
use crate::despawn::{lemma_requested_contains, DespawnQueue};
use crate::scalar::{clamp, lemma_clamp_sub_step, sat_sub};

verus! {

/// An axis-aligned box: a centre and the distance from it to each side. The
/// sides belong to the box. An entity's orientation does not turn its box.
#[derive(Clone, Copy, Debug, PartialEq, Eq, Structural)]
pub struct Bounds {
    pub center: Vector,
    pub half_extent: Vector,
}

/// An entity of the attacking group.
#[derive(Clone, Copy, Debug, PartialEq, Eq, Structural)]
pub struct Projectile {
    pub id: u64,
    pub bounds: Bounds,
}

/// An entity of the defending group, with the hits it can still take.
#[derive(Clone, Copy, Debug, PartialEq, Eq, Structural)]
pub struct Target {
    pub id: u64,
    pub bounds: Bounds,
    pub health: i64,
}

impl Bounds {
    /// Whether the two boxes share a point: their extents meet on both axes.
    pub open spec fn overlaps(self, other: Bounds) -> bool {
        &&& self.center.x - self.half_extent.x <= other.center.x + other.half_extent.x
        &&& other.center.x - other.half_extent.x <= self.center.x + self.half_extent.x
        &&& self.center.y - self.half_extent.y <= other.center.y + other.half_extent.y
        &&& other.center.y - other.half_extent.y <= self.center.y + self.half_extent.y
    }

    /// Tests the two boxes for overlap.
    pub fn intersects(&self, other: &Bounds) -> (r: bool)
        ensures
            r == self.overlaps(*other),
    {
        let ax: i128 = self.center.x as i128;
        let ahx: i128 = self.half_extent.x as i128;
        let ay: i128 = self.center.y as i128;
        let ahy: i128 = self.half_extent.y as i128;
        let bx: i128 = other.center.x as i128;
        let bhx: i128 = other.half_extent.x as i128;
        let by: i128 = other.center.y as i128;
        let bhy: i128 = other.half_extent.y as i128;
        ax - ahx <= bx + bhx && bx - bhx <= ax + ahx && ay - ahy <= by + bhy && by - bhy <= ay
            + ahy
    }
}

impl Projectile {
    /// The collision shape of `bullet`: a box of the bullet's own
    /// half-extents around its position, whatever its orientation.
    pub fn of(bullet: &Bullet) -> (p: Projectile)
        ensures
            p == (Projectile {
                id: bullet.id,
                bounds: Bounds { center: bullet.position, half_extent: bullet.half_extent },
            }),
    {
        Projectile {
            id: bullet.id,
            bounds: Bounds { center: bullet.position, half_extent: bullet.half_extent },
        }
    }
}

/// The number of `projectiles` whose box overlaps `target`.
pub open spec fn hits(projectiles: Seq<Projectile>, target: Bounds) -> nat
    decreases projectiles.len(),
{
    if projectiles.len() == 0 {
        0
    } else {
        hits(projectiles.drop_last(), target) + if projectiles.last().bounds.overlaps(target) {
            1nat
        } else {
            0nat
        }
    }
}

/// `target` after a pass against `projectiles`: one point of health less for
/// each projectile that overlaps it, with no floor at zero.
pub open spec fn damaged(projectiles: Seq<Projectile>, target: Target) -> Target {
    Target { health: clamp(target.health - hits(projectiles, target.bounds)), ..target }
}

/// Whether a pass against `projectiles` removes `target`: it was hit, and its
/// health is then zero or less.
pub open spec fn destroyed(projectiles: Seq<Projectile>, target: Target) -> bool {
    hits(projectiles, target.bounds) > 0 && damaged(projectiles, target).health <= 0
}

/// Whether projectile `i` overlaps target `j`.
pub open spec fn struck(
    projectiles: Seq<Projectile>,
    targets: Seq<Target>,
    i: int,
    j: int,
) -> bool {
    &&& 0 <= i < projectiles.len()
    &&& 0 <= j < targets.len()
    &&& projectiles[i].bounds.overlaps(targets[j].bounds)
}

/// Whether one of the first `upto` projectiles overlaps target `j` and has the
/// identifier `id`.
pub open spec fn row_struck(
    projectiles: Seq<Projectile>,
    targets: Seq<Target>,
    upto: int,
    j: int,
    id: u64,
) -> bool {
    exists|k: int|
        k < upto && #[trigger] struck(projectiles, targets, k, j) && projectiles[k].id == id
}

/// Whether a pass over the first `rows` targets asks for the removal of `id`:
/// as a projectile that overlaps one of them, or as one of them destroyed.
pub open spec fn removed_within(
    projectiles: Seq<Projectile>,
    targets: Seq<Target>,
    rows: int,
    id: u64,
) -> bool {
    ||| exists|i: int, j: int|
        j < rows && #[trigger] struck(projectiles, targets, i, j) && projectiles[i].id == id
    ||| exists|j: int|
        0 <= j < rows && j < targets.len() && targets[j].id == id && #[trigger] destroyed(
            projectiles,
            targets[j],
        )
}

/// Whether a pass of `projectiles` against `targets` asks for the removal of
/// `id`.
pub open spec fn removed(projectiles: Seq<Projectile>, targets: Seq<Target>, id: u64) -> bool {
    removed_within(projectiles, targets, targets.len() as int, id)
}

/// Taking one more projectile into account adds its own overlap, nothing else.
proof fn lemma_row_step(
    projectiles: Seq<Projectile>,
    targets: Seq<Target>,
    i: int,
    j: int,
    id: u64,
)
    ensures
        row_struck(projectiles, targets, i + 1, j, id) <==> row_struck(
            projectiles,
            targets,
            i,
            j,
            id,
        ) || (struck(projectiles, targets, i, j) && projectiles[i].id == id),
{
    if row_struck(projectiles, targets, i + 1, j, id) {
        let k = choose|k: int|
            k < i + 1 && #[trigger] struck(projectiles, targets, k, j) && projectiles[k].id == id;
        if k < i {
            assert(row_struck(projectiles, targets, i, j, id));
        }
    }
    if row_struck(projectiles, targets, i, j, id) {
        let k = choose|k: int|
            k < i && #[trigger] struck(projectiles, targets, k, j) && projectiles[k].id == id;
        assert(k < i + 1 && struck(projectiles, targets, k, j));
    }
}

/// Taking one more target into account adds the projectiles that overlap it
/// and, where it is destroyed, the target itself.
proof fn lemma_rows_step(projectiles: Seq<Projectile>, targets: Seq<Target>, j: int, id: u64)
    requires
        0 <= j < targets.len(),
    ensures
        removed_within(projectiles, targets, j + 1, id) <==> removed_within(
            projectiles,
            targets,
            j,
            id,
        ) || row_struck(projectiles, targets, projectiles.len() as int, j, id) || (targets[j].id
            == id && destroyed(projectiles, targets[j])),
{
    let n = projectiles.len() as int;
    if removed_within(projectiles, targets, j + 1, id) {
        if exists|a: int, b: int|
            b < j + 1 && #[trigger] struck(projectiles, targets, a, b) && projectiles[a].id == id {
            let (a, b) = choose|a: int, b: int|
                b < j + 1 && #[trigger] struck(projectiles, targets, a, b) && projectiles[a].id
                    == id;
            if b < j {
                assert(removed_within(projectiles, targets, j, id));
            } else {
                assert(a < n && struck(projectiles, targets, a, j));
                assert(row_struck(projectiles, targets, n, j, id));
            }
        } else {
            let b = choose|b: int|
                0 <= b < j + 1 && b < targets.len() && targets[b].id == id && #[trigger] destroyed(
                    projectiles,
                    targets[b],
                );
            if b < j {
                assert(removed_within(projectiles, targets, j, id));
            }
        }
    }
    if removed_within(projectiles, targets, j, id) {
        if exists|a: int, b: int|
            b < j && #[trigger] struck(projectiles, targets, a, b) && projectiles[a].id == id {
            let (a, b) = choose|a: int, b: int|
                b < j && #[trigger] struck(projectiles, targets, a, b) && projectiles[a].id == id;
            assert(b < j + 1 && struck(projectiles, targets, a, b));
        } else {
            let b = choose|b: int|
                0 <= b < j && b < targets.len() && targets[b].id == id && #[trigger] destroyed(
                    projectiles,
                    targets[b],
                );
            assert(0 <= b < j + 1 && destroyed(projectiles, targets[b]));
        }
        assert(removed_within(projectiles, targets, j + 1, id));
    }
    if row_struck(projectiles, targets, n, j, id) {
        let k = choose|k: int|
            k < n && #[trigger] struck(projectiles, targets, k, j) && projectiles[k].id == id;
        assert(j < j + 1 && struck(projectiles, targets, k, j));
        assert(removed_within(projectiles, targets, j + 1, id));
    }
    if targets[j].id == id && destroyed(projectiles, targets[j]) {
        assert(removed_within(projectiles, targets, j + 1, id));
    }
}

/// Projectiles that overlap nothing take no health.
pub proof fn lemma_no_overlap_no_hits(projectiles: Seq<Projectile>, target: Bounds)
    requires
        forall|i: int| 0 <= i < projectiles.len() ==> !(#[trigger] projectiles[i]).bounds.overlaps(target),
    ensures
        hits(projectiles, target) == 0,
    decreases projectiles.len(),
{
    if projectiles.len() > 0 {
        let front = projectiles.drop_last();
        assert forall|i: int| 0 <= i < front.len() implies !(#[trigger] front[i]).bounds.overlaps(
            target,
        ) by {
            assert(front[i] == projectiles[i]);
        }
        lemma_no_overlap_no_hits(front, target);
        assert(projectiles.last() == projectiles[projectiles.len() - 1]);
    }
}

/// A pass in which no projectile overlaps any target changes no health and
/// asks for no removal.
pub proof fn lemma_miss_changes_nothing(projectiles: Seq<Projectile>, targets: Seq<Target>)
    requires
        forall|i: int, j: int| !#[trigger] struck(projectiles, targets, i, j),
    ensures
        forall|j: int|
            0 <= j < targets.len() ==> damaged(projectiles, #[trigger] targets[j]) == targets[j],
        forall|id: u64| !removed(projectiles, targets, id),
{
    assert forall|j: int| 0 <= j < targets.len() implies hits(
        projectiles,
        (#[trigger] targets[j]).bounds,
    ) == 0 by {
        assert forall|i: int| 0 <= i < projectiles.len() implies !(#[trigger] projectiles[i]).bounds.overlaps(
            targets[j].bounds,
        ) by {
            assert(!struck(projectiles, targets, i, j));
        }
        lemma_no_overlap_no_hits(projectiles, targets[j].bounds);
    }
}

/// One pass of the resolver. Every projectile is tested against every target.
/// Each overlap asks for the projectile's removal and takes one point of
/// health from the target; a target whose health is then zero or less is
/// asked to be removed too. Nothing is removed during the pass, so a
/// projectile hits every target it overlaps.
pub fn resolve_collisions(
    projectiles: &Vec<Projectile>,
    targets: &mut Vec<Target>,
    despawns: &mut DespawnQueue,
)
    requires
        old(despawns).wf(),
    ensures
        final(despawns).wf(),
        final(targets).len() == old(targets).len(),
        forall|j: int|
            0 <= j < old(targets).len() ==> #[trigger] final(targets)[j] == damaged(
                projectiles@,
                old(targets)[j],
            ),
        forall|id: u64|
            #[trigger] final(despawns)@.contains(id) <==> old(despawns)@.contains(id) || removed(
                projectiles@,
                old(targets)@,
                id,
            ),
{
    let m: usize = targets.len();
    let n: usize = projectiles.len();
    let mut j: usize = 0;
    while j < m
        invariant
            j <= m,
            m == targets.len(),
            m == old(targets).len(),
            n == projectiles.len(),
            despawns.wf(),
            forall|k: int| j <= k < m ==> targets[k] == old(targets)[k],
            forall|k: int|
                0 <= k < j ==> #[trigger] targets[k] == damaged(projectiles@, old(targets)[k]),
            forall|id: u64|
                #[trigger] despawns@.contains(id) <==> old(despawns)@.contains(id)
                    || removed_within(projectiles@, old(targets)@, j as int, id),
        decreases m - j,
    {
        let mut target: Target = targets[j];
        let ghost before = target;
        let ghost queue_before = despawns@;
        let mut count: usize = 0;
        let mut i: usize = 0;
        while i < n
            invariant
                i <= n,
                n == projectiles.len(),
                j < m,
                m == old(targets).len(),
                before == old(targets)[j as int],
                despawns.wf(),
                count <= i,
                count == hits(projectiles@.take(i as int), before.bounds),
                target == (Target { health: clamp(before.health - count), ..before }),
                forall|id: u64|
                    #[trigger] despawns@.contains(id) <==> queue_before.contains(id) || row_struck(
                        projectiles@,
                        old(targets)@,
                        i as int,
                        j as int,
                        id,
                    ),
            decreases n - i,
        {
            let ghost queue_now = despawns@;
            assert(projectiles@.take(i + 1).drop_last() =~= projectiles@.take(i as int));
            let hit: bool = projectiles[i].bounds.intersects(&target.bounds);
            if hit {
                despawns.request(projectiles[i].id);
                proof {
                    lemma_clamp_sub_step(before.health, count as nat);
                }
                target.health = sat_sub(target.health, 1);
                count += 1;
            }
            proof {
                assert(hit == struck(projectiles@, old(targets)@, i as int, j as int));
                assert forall|id: u64|
                    #[trigger] despawns@.contains(id) <==> queue_before.contains(id) || row_struck(
                        projectiles@,
                        old(targets)@,
                        i + 1,
                        j as int,
                        id,
                    ) by {
                    lemma_requested_contains(queue_now, projectiles[i as int].id, id);
                    lemma_row_step(projectiles@, old(targets)@, i as int, j as int, id);
                    assert(queue_now.contains(id) <==> queue_before.contains(id) || row_struck(
                        projectiles@,
                        old(targets)@,
                        i as int,
                        j as int,
                        id,
                    ));
                }
            }
            i += 1;
        }
        assert(projectiles@.take(n as int) =~= projectiles@);
        targets.set(j, target);
        let ghost queue_now = despawns@;
        if count > 0 && target.health <= 0 {
            despawns.request(target.id);
        }
        proof {
            assert(target == damaged(projectiles@, before));
            assert forall|id: u64|
                #[trigger] despawns@.contains(id) <==> old(despawns)@.contains(id)
                    || removed_within(projectiles@, old(targets)@, j + 1, id) by {
                lemma_requested_contains(queue_now, target.id, id);
                lemma_rows_step(projectiles@, old(targets)@, j as int, id);
                let was = removed_within(projectiles@, old(targets)@, j as int, id);
                let row = row_struck(projectiles@, old(targets)@, n as int, j as int, id);
                let gone = before.id == id && destroyed(projectiles@, before);
                assert(queue_before.contains(id) <==> old(despawns)@.contains(id) || was);
                assert(queue_now.contains(id) <==> old(despawns)@.contains(id) || was || row);
                assert(despawns@.contains(id) <==> queue_now.contains(id) || gone);
                assert(removed_within(projectiles@, old(targets)@, j + 1, id) <==> was || row
                    || gone);
            }
        }
        j += 1;
    }
}

} // verus!
