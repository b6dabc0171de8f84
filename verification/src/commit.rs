//! The commit point at the end of a tick, where queued removals are carried
//! out.
use vstd::prelude::*;
use crate::actions::BulletActions;
use crate::bullet::Bullet;
use crate::despawn::DespawnQueue;

verus! {

/// What is left of `items` when every item whose identifier is in `gone` is
/// taken out. `ids[i]` is the identifier of `items[i]`; the items that stay
/// keep their order.
pub open spec fn kept<T>(items: Seq<T>, ids: Seq<u64>, gone: Seq<u64>) -> Seq<T>
    recommends
        items.len() == ids.len(),
    decreases items.len(),
{
    if items.len() == 0 {
        Seq::empty()
    } else {
        let rest = kept(items.drop_last(), ids.drop_last(), gone);
        if gone.contains(ids.last()) {
            rest
        } else {
            rest.push(items.last())
        }
    }
}

/// The identifiers of `bullets`, in order.
pub open spec fn bullet_ids(bullets: Seq<Bullet>) -> Seq<u64> {
    Seq::new(bullets.len(), |i: int| bullets[i].id)
}

/// Takes out of `items` every item whose identifier is queued in `gone`.
pub fn retain_live<T>(items: &mut Vec<T>, ids: &Vec<u64>, gone: &DespawnQueue)
    requires
        old(items).len() == ids.len(),
    ensures
        final(items)@ == kept(old(items)@, ids@, gone@),
{
    let n: usize = ids.len();
    let mut i: usize = 0;
    let mut w: usize = 0;
    assert(old(items)@.take(0) =~= Seq::<T>::empty());
    while i < n
        invariant
            w <= i <= n,
            n == ids.len(),
            n == old(items).len(),
            w == kept(old(items)@.take(i as int), ids@.take(i as int), gone@).len(),
            items@ == kept(old(items)@.take(i as int), ids@.take(i as int), gone@) + old(
                items,
            )@.skip(i as int),
        decreases n - i,
    {
        proof {
            assert(old(items)@.take(i + 1).drop_last() =~= old(items)@.take(i as int));
            assert(ids@.take(i + 1).drop_last() =~= ids@.take(i as int));
            assert(old(items)@.skip(i as int).skip(1) =~= old(items)@.skip(i + 1));
        }
        let ghost head = kept(old(items)@.take(i as int), ids@.take(i as int), gone@);
        let ghost tail = old(items)@.skip(i as int);
        if gone.contains(ids[i]) {
            items.remove(w);
            assert(items@ =~= head + tail.skip(1));
        } else {
            assert(items@ =~= head.push(tail[0]) + tail.skip(1));
            w += 1;
        }
        i += 1;
    }
    assert(old(items)@.take(n as int) =~= old(items)@);
    assert(ids@.take(n as int) =~= ids@);
    assert(items@ =~= kept(old(items)@, ids@, gone@));
}

/// Ends a tick: removes every projectile whose removal was asked for,
/// together with its program, empties the queue, and returns the identifiers
/// that stood in it, each once.
pub fn commit(
    bullets: &mut Vec<Bullet>,
    programs: &mut Vec<BulletActions>,
    despawns: &mut DespawnQueue,
) -> (removed: Vec<u64>)
    requires
        old(bullets).len() == old(programs).len(),
    ensures
        final(bullets)@ == kept(old(bullets)@, bullet_ids(old(bullets)@), old(despawns)@),
        final(programs)@ == kept(old(programs)@, bullet_ids(old(bullets)@), old(despawns)@),
        final(bullets).len() == final(programs).len(),
        removed@ == old(despawns)@,
        final(despawns)@ == Seq::<u64>::empty(),
        final(despawns).wf(),
{
    let mut ids: Vec<u64> = Vec::new();
    let mut i: usize = 0;
    while i < bullets.len()
        invariant
            i <= bullets.len(),
            ids.len() == i,
            forall|k: int| 0 <= k < i ==> ids[k] == bullets[k].id,
        decreases bullets.len() - i,
    {
        ids.push(bullets[i].id);
        i += 1;
    }
    assert(ids@ =~= bullet_ids(bullets@));
    proof {
        lemma_kept_len(bullets@, programs@, ids@, despawns@);
    }
    retain_live(bullets, &ids, despawns);
    retain_live(programs, &ids, despawns);
    despawns.drain()
}

/// How many items stay depends on the identifiers alone.
pub proof fn lemma_kept_len<A, B>(a: Seq<A>, b: Seq<B>, ids: Seq<u64>, gone: Seq<u64>)
    requires
        a.len() == b.len(),
    ensures
        kept(a, ids, gone).len() == kept(b, ids, gone).len(),
    decreases a.len(),
{
    if a.len() > 0 {
        lemma_kept_len(a.drop_last(), b.drop_last(), ids.drop_last(), gone);
    }
}

/// Whatever stays after the commit point was there before it.
pub proof fn lemma_kept_from<T>(items: Seq<T>, ids: Seq<u64>, gone: Seq<u64>)
    ensures
        forall|k: int|
            0 <= k < kept(items, ids, gone).len() ==> items.contains(
                #[trigger] kept(items, ids, gone)[k],
            ),
    decreases items.len(),
{
    if items.len() > 0 {
        let front = items.drop_last();
        lemma_kept_from(front, ids.drop_last(), gone);
        let rest = kept(front, ids.drop_last(), gone);
        assert forall|k: int| 0 <= k < kept(items, ids, gone).len() implies items.contains(
            #[trigger] kept(items, ids, gone)[k],
        ) by {
            if k < rest.len() {
                assert(front.contains(rest[k]));
                let i = choose|i: int| 0 <= i < front.len() && front[i] == rest[k];
                assert(items[i] == rest[k]);
            } else {
                assert(items[items.len() - 1] == items.last());
            }
        }
    }
}

/// Where no item stands twice before the commit point, none does after it.
pub proof fn lemma_kept_no_duplicates<T>(items: Seq<T>, ids: Seq<u64>, gone: Seq<u64>)
    requires
        items.no_duplicates(),
    ensures
        kept(items, ids, gone).no_duplicates(),
    decreases items.len(),
{
    if items.len() > 0 {
        let front = items.drop_last();
        let rest = kept(front, ids.drop_last(), gone);
        lemma_kept_no_duplicates(front, ids.drop_last(), gone);
        lemma_kept_from(front, ids.drop_last(), gone);
        assert forall|k: int| 0 <= k < rest.len() implies rest[k] != items.last() by {
            assert(front.contains(rest[k]));
            let i = choose|i: int| 0 <= i < front.len() && front[i] == rest[k];
            assert(items[i] == front[i]);
        }
    }
}

/// The identifiers of the bullets that stay are the identifiers that stay.
pub proof fn lemma_kept_bullet_ids(bullets: Seq<Bullet>, ids: Seq<u64>, gone: Seq<u64>)
    ensures
        bullet_ids(kept(bullets, ids, gone)) == kept(bullet_ids(bullets), ids, gone),
    decreases bullets.len(),
{
    if bullets.len() > 0 {
        lemma_kept_bullet_ids(bullets.drop_last(), ids.drop_last(), gone);
        assert(bullet_ids(bullets).drop_last() =~= bullet_ids(bullets.drop_last()));
    }
    assert(bullet_ids(kept(bullets, ids, gone)) =~= kept(bullet_ids(bullets), ids, gone));
}

} // verus!
