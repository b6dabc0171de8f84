//! The live entities and the tick that steps them all.
use vstd::prelude::*;
use crate::actions::{
    asks_removal, bullet_actions, spawn_bullet, BulletAction, BulletActions, Program,
};
use crate::bullet::{integrated, move_bullets, Bullet, Vector};
use crate::collision::{damaged, removed, resolve_collisions, Bounds, Projectile, Target};
use crate::commit::{
    bullet_ids, commit, kept, lemma_kept_bullet_ids, lemma_kept_from, lemma_kept_no_duplicates,
    retain_live,
};
use crate::despawn::DespawnQueue;

verus! {

/// The live entities of a simulation. `programs[i]` belongs to `bullets[i]`;
/// `targets` is the group that the bullets can hit.
pub struct World {
    pub bullets: Vec<Bullet>,
    pub programs: Vec<BulletActions>,
    pub targets: Vec<Target>,
    pub despawns: DespawnQueue,
}

/// The collision shapes of `bullets`: around each its own box.
pub open spec fn shapes(bullets: Seq<Bullet>) -> Seq<Projectile> {
    Seq::new(
        bullets.len(),
        |i: int|
            Projectile {
                id: bullets[i].id,
                bounds: Bounds { center: bullets[i].position, half_extent: bullets[i].half_extent },
            },
    )
}

/// The identifiers of `targets`, in order.
pub open spec fn target_ids(targets: Seq<Target>) -> Seq<u64> {
    Seq::new(targets.len(), |j: int| targets[j].id)
}

/// The stages of one tick, in their order.
pub struct Stages {
    /// The bullets after the integrator.
    pub moved: Seq<Bullet>,
    /// The bullets after the scheduler.
    pub acted: Seq<Bullet>,
    /// The programs after the scheduler.
    pub programs: Seq<BulletActions>,
    /// The targets after the resolver.
    pub hurt: Seq<Target>,
}

impl World {
    /// Every bullet has its program, every program is well formed, no
    /// removal is queued twice, and no two entities share an identifier.
    pub open spec fn wf(&self) -> bool {
        &&& self.bullets.len() == self.programs.len()
        &&& forall|i: int| 0 <= i < self.programs.len() ==> (#[trigger] self.programs[i])@.wf()
        &&& self.despawns.wf()
        &&& bullet_ids(self.bullets@).no_duplicates()
        &&& target_ids(self.targets@).no_duplicates()
        &&& forall|id: u64|
            !(bullet_ids(self.bullets@).contains(id) && #[trigger] target_ids(
                self.targets@,
            ).contains(id))
    }

    /// Whether a bullet or a target has the identifier `id`.
    pub open spec fn has_id(&self, id: u64) -> bool {
        bullet_ids(self.bullets@).contains(id) || target_ids(self.targets@).contains(id)
    }

    /// Whether `s` holds the stages of a tick of `dt` on `before`: the
    /// integrator runs first, the scheduler on what it left, the resolver on
    /// what the scheduler left.
    pub open spec fn staged<F: Fn(i64) -> Vector>(
        before: World,
        dt: i64,
        forward: F,
        s: Stages,
    ) -> bool {
        &&& s.moved.len() == before.bullets.len()
        &&& s.acted.len() == before.bullets.len()
        &&& s.programs.len() == before.programs.len()
        &&& s.hurt.len() == before.targets.len()
        &&& forall|i: int|
            0 <= i < s.moved.len() ==> #[trigger] integrated(
                forward,
                before.bullets[i],
                s.moved[i],
                dt,
            )
        &&& forall|i: int|
            0 <= i < s.acted.len() ==> #[trigger] s.acted[i] == s.moved[i].applied_if(
                before.programs[i]@.fires(dt),
            )
        &&& forall|i: int|
            0 <= i < s.programs.len() ==> (#[trigger] s.programs[i])@
                == before.programs[i]@.after_tick(dt)
        &&& forall|j: int|
            0 <= j < s.hurt.len() ==> #[trigger] s.hurt[j] == damaged(
                shapes(s.acted),
                before.targets[j],
            )
    }

    /// Whether `gone` holds the removals of a tick with the stages `s`:
    /// every entity whose removal was asked for before the tick, by the
    /// scheduler or by the resolver, each once.
    pub open spec fn asked(
        before: World,
        dt: i64,
        s: Stages,
        gone: Seq<u64>,
    ) -> bool {
        &&& gone.no_duplicates()
        &&& forall|id: u64|
            #[trigger] gone.contains(id) <==> {
                ||| before.despawns@.contains(id)
                ||| exists|i: int| #[trigger] asks_removal(s.moved, before.programs@, dt, i, id)
                ||| removed(shapes(s.acted), before.targets@, id)
            }
    }

    /// Whether `after` is what the commit point leaves of the stages `s` when
    /// the entities in `gone` are removed.
    pub open spec fn committed(s: Stages, gone: Seq<u64>, after: World) -> bool {
        &&& after.bullets@ == kept(s.acted, bullet_ids(s.acted), gone)
        &&& after.programs@ == kept(s.programs, bullet_ids(s.acted), gone)
        &&& after.targets@ == kept(s.hurt, target_ids(s.hurt), gone)
        &&& after.despawns@ == Seq::<u64>::empty()
    }

    /// Whether `after` and `gone` are what one tick of `dt` makes of
    /// `before`, by way of the stages `s`. Nothing is removed before all
    /// three passes are done.
    pub open spec fn ticked<F: Fn(i64) -> Vector>(
        before: World,
        after: World,
        gone: Seq<u64>,
        dt: i64,
        forward: F,
        s: Stages,
    ) -> bool {
        &&& World::staged(before, dt, forward, s)
        &&& World::asked(before, dt, s, gone)
        &&& World::committed(s, gone, after)
    }

    /// A world without entities.
    pub fn new() -> (w: World)
        ensures
            w.wf(),
            w.bullets@ == Seq::<Bullet>::empty(),
            w.programs@ == Seq::<BulletActions>::empty(),
            w.targets@ == Seq::<Target>::empty(),
            w.despawns@ == Seq::<u64>::empty(),
    {
        World {
            bullets: Vec::new(),
            programs: Vec::new(),
            targets: Vec::new(),
            despawns: DespawnQueue::new(),
        }
    }

    /// Tells whether a bullet or a target has the identifier `id`.
    pub fn contains_id(&self, id: u64) -> (found: bool)
        ensures
            found == self.has_id(id),
    {
        let mut i: usize = 0;
        while i < self.bullets.len()
            invariant
                i <= self.bullets.len(),
                forall|k: int| 0 <= k < i ==> self.bullets[k].id != id,
            decreases self.bullets.len() - i,
        {
            if self.bullets[i].id == id {
                assert(bullet_ids(self.bullets@)[i as int] == id);
                return true;
            }
            i += 1;
        }
        let mut j: usize = 0;
        while j < self.targets.len()
            invariant
                j <= self.targets.len(),
                forall|k: int| 0 <= k < self.bullets.len() ==> self.bullets[k].id != id,
                forall|k: int| 0 <= k < j ==> self.targets[k].id != id,
            decreases self.targets.len() - j,
        {
            if self.targets[j].id == id {
                assert(target_ids(self.targets@)[j as int] == id);
                return true;
            }
            j += 1;
        }
        false
    }

    /// Adds a bullet with a program that waits on the first of `actions`.
    /// The bullet's identifier is one that no entity has yet.
    pub fn spawn_bullet(&mut self, bullet: Bullet, actions: Vec<BulletAction>, repeat: bool)
        requires
            old(self).wf(),
            !old(self).has_id(bullet.id),
            actions.len() > 0,
        ensures
            final(self).wf(),
            final(self).bullets@ == old(self).bullets@.push(bullet),
            final(self).programs@.len() == old(self).programs@.len() + 1,
            final(self).programs@.drop_last() == old(self).programs@,
            final(self).programs@.last()@ == Program::fresh(actions@, repeat),
            final(self).targets == old(self).targets,
            final(self).despawns == old(self).despawns,
    {
        spawn_bullet(&mut self.bullets, &mut self.programs, bullet, actions, repeat);
        assert forall|i: int| 0 <= i < self.programs.len() implies (#[trigger] self.programs[i])@.wf() by {
            if i < old(self).programs.len() {
                assert(self.programs[i] == self.programs@.drop_last()[i]);
            } else {
                assert(self.programs[i] == self.programs@.last());
            }
        }
        proof {
            lemma_push_id(bullet_ids(old(self).bullets@), bullet.id);
            assert(bullet_ids(self.bullets@) =~= bullet_ids(old(self).bullets@).push(bullet.id));
        }
    }

    /// Adds a target. Its identifier is one that no entity has yet.
    pub fn spawn_target(&mut self, target: Target)
        requires
            old(self).wf(),
            !old(self).has_id(target.id),
        ensures
            final(self).wf(),
            final(self).targets@ == old(self).targets@.push(target),
            final(self).bullets == old(self).bullets,
            final(self).programs == old(self).programs,
            final(self).despawns == old(self).despawns,
    {
        self.targets.push(target);
        proof {
            lemma_push_id(target_ids(old(self).targets@), target.id);
            assert(target_ids(self.targets@) =~= target_ids(old(self).targets@).push(target.id));
        }
    }

    /// The collision shapes of the bullets as they are now.
    pub fn projectiles(&self) -> (out: Vec<Projectile>)
        ensures
            out@ == shapes(self.bullets@),
    {
        let mut out: Vec<Projectile> = Vec::new();
        let mut i: usize = 0;
        while i < self.bullets.len()
            invariant
                i <= self.bullets.len(),
                out.len() == i,
                forall|k: int| 0 <= k < i ==> out[k] == shapes(self.bullets@)[k],
            decreases self.bullets.len() - i,
        {
            out.push(Projectile::of(&self.bullets[i]));
            i += 1;
        }
        assert(out@ =~= shapes(self.bullets@));
        out
    }

    /// One tick of `dt`: the integrator, then the scheduler, then the
    /// resolver, then the commit point. Returns the entities that were
    /// removed.
    pub fn tick<F: Fn(i64) -> Vector>(
        &mut self,
        dt: i64,
        forward: F,
    ) -> (gone: Vec<u64>)
        requires
            old(self).wf(),
            forall|o: i64| call_requires(forward, (o,)),
        ensures
            final(self).wf(),
            exists|s: Stages| #[trigger]
                World::ticked(*old(self), *final(self), gone@, dt, forward, s),
    {
        move_bullets(&mut self.bullets, dt, forward);
        let ghost moved = self.bullets@;
        bullet_actions(&mut self.bullets, &mut self.programs, dt, &mut self.despawns);
        let ghost acted = self.bullets@;
        let ghost programs = self.programs@;
        let projectiles = self.projectiles();
        resolve_collisions(&projectiles, &mut self.targets, &mut self.despawns);
        let ghost hurt = self.targets@;
        let mut ids: Vec<u64> = Vec::new();
        let mut j: usize = 0;
        while j < self.targets.len()
            invariant
                j <= self.targets.len(),
                ids.len() == j,
                forall|k: int| 0 <= k < j ==> ids[k] == self.targets[k].id,
            decreases self.targets.len() - j,
        {
            ids.push(self.targets[j].id);
            j += 1;
        }
        assert(ids@ =~= target_ids(hurt));
        retain_live(&mut self.targets, &ids, &self.despawns);
        let gone = commit(&mut self.bullets, &mut self.programs, &mut self.despawns);
        proof {
            lemma_kept_from(programs, bullet_ids(acted), gone@);
            assert forall|i: int| 0 <= i < self.programs.len() implies (#[trigger] self.programs[i])@.wf() by {
                assert(programs.contains(self.programs@[i]));
            }
            let s = Stages { moved, acted, programs, hurt };
            assert(bullet_ids(acted) =~= bullet_ids(old(self).bullets@)) by {
                assert forall|i: int| 0 <= i < acted.len() implies acted[i].id == old(
                    self,
                ).bullets[i].id by {
                    assert(integrated(forward, old(self).bullets[i], moved[i], dt));
                }
            }
            assert(target_ids(hurt) =~= target_ids(old(self).targets@));
            lemma_kept_bullet_ids(acted, bullet_ids(acted), gone@);
            lemma_kept_no_duplicates(bullet_ids(acted), bullet_ids(acted), gone@);
            lemma_kept_from(bullet_ids(acted), bullet_ids(acted), gone@);
            lemma_kept_target_ids(hurt, target_ids(hurt), gone@);
            lemma_kept_no_duplicates(target_ids(hurt), target_ids(hurt), gone@);
            lemma_kept_from(target_ids(hurt), target_ids(hurt), gone@);
            assert forall|id: u64|
                !(bullet_ids(self.bullets@).contains(id) && #[trigger] target_ids(
                    self.targets@,
                ).contains(id)) by {
                if bullet_ids(self.bullets@).contains(id) && target_ids(self.targets@).contains(
                    id,
                ) {
                    let a = choose|a: int|
                        0 <= a < self.bullets@.len() && bullet_ids(self.bullets@)[a] == id;
                    let b = choose|b: int|
                        0 <= b < self.targets@.len() && target_ids(self.targets@)[b] == id;
                    assert(bullet_ids(acted).contains(
                        kept(bullet_ids(acted), bullet_ids(acted), gone@)[a],
                    ));
                    assert(target_ids(hurt).contains(
                        kept(target_ids(hurt), target_ids(hurt), gone@)[b],
                    ));
                    assert(target_ids(old(self).targets@).contains(id));
                }
            }
            assert(World::staged(*old(self), dt, forward, s));
            assert(World::asked(*old(self), dt, s, gone@));
            assert(World::committed(s, gone@, *self));
            assert(World::ticked(*old(self), *self, gone@, dt, forward, s));
        }
        gone
    }
}

/// The identifiers of the targets that stay are the identifiers that stay.
pub proof fn lemma_kept_target_ids(targets: Seq<Target>, ids: Seq<u64>, gone: Seq<u64>)
    ensures
        target_ids(kept(targets, ids, gone)) == kept(target_ids(targets), ids, gone),
    decreases targets.len(),
{
    if targets.len() > 0 {
        lemma_kept_target_ids(targets.drop_last(), ids.drop_last(), gone);
        assert(target_ids(targets).drop_last() =~= target_ids(targets.drop_last()));
    }
    assert(target_ids(kept(targets, ids, gone)) =~= kept(target_ids(targets), ids, gone));
}

/// A new identifier joins distinct ones without standing twice, and the
/// identifiers are then the old ones and the new one.
pub proof fn lemma_push_id(ids: Seq<u64>, id: u64)
    requires
        ids.no_duplicates(),
        !ids.contains(id),
    ensures
        ids.push(id).no_duplicates(),
        forall|other: u64| #[trigger] ids.push(id).contains(other) <==> ids.contains(other) || other == id,
{
    let p = ids.push(id);
    assert forall|i: int, j: int| 0 <= i < p.len() && 0 <= j < p.len() && i != j implies p[i]
        != p[j] by {
        if i < ids.len() {
            assert(ids.contains(p[i]));
        }
        if j < ids.len() {
            assert(ids.contains(p[j]));
        }
    }
    assert forall|other: u64| #[trigger] p.contains(other) <==> ids.contains(other) || other == id by {
        assert(p[ids.len() as int] == id);
        if ids.contains(other) {
            let k = choose|k: int| 0 <= k < ids.len() && ids[k] == other;
            assert(p[k] == other);
        }
    }
}

} // verus!
