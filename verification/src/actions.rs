//! The timed action program of a projectile and the scheduler that runs it.
use vstd::prelude::*;
use crate::bullet::{
    Acceleration, AngularAcceleration, AngularVelocity, Bullet, Vector, Velocity,
};
use crate::despawn::{lemma_requested_contains, DespawnQueue};
use crate::scalar::{clamp, sat_add, sat_sub};

verus! {

/// What a step does to its projectile when its timer runs out.
#[derive(Clone, Copy, Debug, PartialEq, Eq, Structural)]
pub enum BulletActionType {
    SetVelocity(i64),
    SetAcceleration(i64),
    SetAngularVelocity(i64),
    SetAngularAcceleration(i64),
    ChangeVelocity(i64),
    ChangeAcceleration(i64),
    ChangeAngularVelocity(i64),
    ChangeAngularAcceleration(i64),
    Rotate(i64),
    Move(Vector),
    Despawn,
}

/// One step of a program: an effect and the time to wait before it.
#[derive(Clone, Copy, Debug, PartialEq, Eq, Structural)]
pub struct BulletAction(pub BulletActionType, pub i64);

/// A program as contracts see it.
pub struct Program {
    /// The steps, fixed when the program is made.
    pub steps: Seq<BulletAction>,
    /// The step that is waiting.
    pub cursor: int,
    /// The time left before the waiting step fires: its duration less the time
    /// that has passed since the cursor came to stand on it.
    pub remaining: i64,
    /// Whether the cursor goes back to the first step after the last.
    pub repeat: bool,
    /// Whether the program has asked for its projectile's removal. A stopped
    /// program does nothing more.
    pub stopped: bool,
}

impl Program {
    /// There is at least one step, and the cursor stands on a step for as
    /// long as the program runs.
    pub open spec fn wf(self) -> bool {
        &&& self.steps.len() > 0
        &&& 0 <= self.cursor <= self.steps.len()
        &&& (self.cursor < self.steps.len() || self.stopped)
    }

    /// The program as it is made from `steps`: the cursor on the first step,
    /// with that step's whole duration to wait.
    pub open spec fn fresh(steps: Seq<BulletAction>, repeat: bool) -> Program {
        Program { steps, cursor: 0, remaining: steps[0].1, repeat, stopped: false }
    }

    /// Whether a tick of `dt` takes the waiting step's timer below zero.
    pub open spec fn expires(self, dt: i64) -> bool {
        !self.stopped && clamp(self.remaining - dt) < 0
    }

    /// The effect that a tick of `dt` applies, if any.
    pub open spec fn fires(self, dt: i64) -> Option<BulletActionType> {
        if self.expires(dt) {
            Some(self.steps[self.cursor].0)
        } else {
            None
        }
    }

    /// Where the cursor stands after the waiting step has fired.
    pub open spec fn next_cursor(self) -> int {
        if self.cursor + 1 == self.steps.len() && self.repeat {
            0
        } else {
            self.cursor + 1
        }
    }

    /// The program after a tick of `dt`. The timer goes down by `dt`. If that
    /// takes it below zero the waiting step fires and the cursor moves on by
    /// one step, never more. The step it comes to stand on, the first one
    /// again after the last of a repeating program, gets its whole duration
    /// to wait: what the timer overshot is not taken off. After its last step
    /// a program that does not repeat stops. A `Despawn` effect stops the
    /// program too.
    pub open spec fn after_tick(self, dt: i64) -> Program {
        if self.stopped {
            self
        } else {
            let left = clamp(self.remaining - dt);
            if left < 0 {
                let next = self.next_cursor();
                Program {
                    cursor: next,
                    remaining: if next < self.steps.len() {
                        self.steps[next].1
                    } else {
                        left
                    },
                    stopped: self.steps[self.cursor].0 == BulletActionType::Despawn || (self.cursor
                        + 1 == self.steps.len() && !self.repeat),
                    ..self
                }
            } else {
                Program { remaining: left, ..self }
            }
        }
    }

    /// Whether a tick of `dt` makes the program ask for its projectile's
    /// removal.
    pub open spec fn despawns(self, dt: i64) -> bool {
        !self.stopped && self.after_tick(dt).stopped
    }
}

/// The action program attached to a projectile.
#[derive(Debug)]
pub struct BulletActions {
    actions: Vec<BulletAction>,
    action_index: usize,
    remaining: i64,
    repeat: bool,
    stopped: bool,
}

impl View for BulletActions {
    type V = Program;

    closed spec fn view(&self) -> Program {
        Program {
            steps: self.actions@,
            cursor: self.action_index as int,
            remaining: self.remaining,
            repeat: self.repeat,
            stopped: self.stopped,
        }
    }
}

impl BulletActions {
    /// A program that waits on the first of `actions`.
    pub fn new(actions: Vec<BulletAction>, repeat: bool) -> (program: BulletActions)
        requires
            actions.len() > 0,
        ensures
            program@ == Program::fresh(actions@, repeat),
            program@.wf(),
    {
        let remaining: i64 = actions[0].1;
        BulletActions { actions, action_index: 0, remaining, repeat, stopped: false }
    }

    /// The index of the waiting step.
    pub fn action_index(&self) -> (i: usize)
        ensures
            i == self@.cursor,
    {
        self.action_index
    }

    /// The number of steps.
    pub fn len(&self) -> (n: usize)
        ensures
            n == self@.steps.len(),
    {
        self.actions.len()
    }

    /// Whether the program starts over after its last step.
    pub fn repeat(&self) -> (r: bool)
        ensures
            r == self@.repeat,
    {
        self.repeat
    }

    /// Whether the program has asked for its projectile's removal.
    pub fn stopped(&self) -> (r: bool)
        ensures
            r == self@.stopped,
    {
        self.stopped
    }

    /// The time left on the waiting step, or `None` once the program has
    /// stopped.
    pub fn remaining(&self) -> (r: Option<i64>)
        ensures
            r == if self@.stopped { None } else { Some(self@.remaining) },
    {
        if self.stopped {
            None
        } else {
            Some(self.remaining)
        }
    }

    /// Runs the program for one tick of `dt` and returns the effect that
    /// fired, if one did.
    pub fn tick(&mut self, dt: i64) -> (fired: Option<BulletActionType>)
        requires
            old(self)@.wf(),
        ensures
            final(self)@ == old(self)@.after_tick(dt),
            final(self)@.wf(),
            fired == old(self)@.fires(dt),
    {
        if self.stopped {
            return None;
        }
        let idx: usize = self.action_index;
        assert(idx < self.actions.len());
        let left: i64 = sat_sub(self.remaining, dt);
        self.remaining = left;
        if left < 0 {
            let effect: BulletActionType = self.actions[idx].0;
            let last: bool = idx + 1 == self.actions.len();
            let next: usize = if last && self.repeat { 0 } else { idx + 1 };
            if next < self.actions.len() {
                self.remaining = self.actions[next].1;
            }
            self.action_index = next;
            self.stopped = match effect {
                BulletActionType::Despawn => true,
                _ => last && !self.repeat,
            };
            Some(effect)
        } else {
            None
        }
    }
}

impl Bullet {
    /// This projectile after `effect`. `Despawn` leaves the state as it is:
    /// removal is the caller's to carry out.
    pub open spec fn applied(self, effect: BulletActionType) -> Bullet {
        match effect {
            BulletActionType::SetVelocity(v) => Bullet { velocity: Velocity(v), ..self },
            BulletActionType::SetAcceleration(a) => Bullet {
                acceleration: Acceleration(a),
                ..self
            },
            BulletActionType::SetAngularVelocity(v) => Bullet {
                angular_velocity: AngularVelocity(v),
                ..self
            },
            BulletActionType::SetAngularAcceleration(a) => Bullet {
                angular_acceleration: AngularAcceleration(a),
                ..self
            },
            BulletActionType::ChangeVelocity(v) => Bullet {
                velocity: Velocity(clamp(self.velocity.0 + v)),
                ..self
            },
            BulletActionType::ChangeAcceleration(a) => Bullet {
                acceleration: Acceleration(clamp(self.acceleration.0 + a)),
                ..self
            },
            BulletActionType::ChangeAngularVelocity(v) => Bullet {
                angular_velocity: AngularVelocity(clamp(self.angular_velocity.0 + v)),
                ..self
            },
            BulletActionType::ChangeAngularAcceleration(a) => Bullet {
                angular_acceleration: AngularAcceleration(clamp(self.angular_acceleration.0 + a)),
                ..self
            },
            BulletActionType::Rotate(r) => Bullet {
                orientation: clamp(self.orientation + r),
                ..self
            },
            BulletActionType::Move(m) => Bullet { position: self.position.plus(m), ..self },
            BulletActionType::Despawn => self,
        }
    }

    /// This projectile after what a tick may have fired.
    pub open spec fn applied_if(self, fired: Option<BulletActionType>) -> Bullet {
        match fired {
            Some(effect) => self.applied(effect),
            None => self,
        }
    }

    /// Applies `effect` once.
    pub fn apply(&mut self, effect: BulletActionType)
        ensures
            *final(self) == old(self).applied(effect),
    {
        match effect {
            BulletActionType::SetVelocity(v) => {
                self.velocity = Velocity(v);
            },
            BulletActionType::SetAcceleration(a) => {
                self.acceleration = Acceleration(a);
            },
            BulletActionType::SetAngularVelocity(v) => {
                self.angular_velocity = AngularVelocity(v);
            },
            BulletActionType::SetAngularAcceleration(a) => {
                self.angular_acceleration = AngularAcceleration(a);
            },
            BulletActionType::ChangeVelocity(v) => {
                self.velocity = Velocity(sat_add(self.velocity.0, v));
            },
            BulletActionType::ChangeAcceleration(a) => {
                self.acceleration = Acceleration(sat_add(self.acceleration.0, a));
            },
            BulletActionType::ChangeAngularVelocity(v) => {
                self.angular_velocity = AngularVelocity(sat_add(self.angular_velocity.0, v));
            },
            BulletActionType::ChangeAngularAcceleration(a) => {
                self.angular_acceleration = AngularAcceleration(
                    sat_add(self.angular_acceleration.0, a),
                );
            },
            BulletActionType::Rotate(r) => {
                self.orientation = sat_add(self.orientation, r);
            },
            BulletActionType::Move(m) => {
                self.position = self.position.translate(m);
            },
            BulletActionType::Despawn => {},
        }
    }
}


/// Whether the program of entity `i` asks for the removal of `id` in a tick
/// of `dt`.
pub open spec fn asks_removal(
    bullets: Seq<Bullet>,
    programs: Seq<BulletActions>,
    dt: i64,
    i: int,
    id: u64,
) -> bool {
    &&& 0 <= i < bullets.len()
    &&& i < programs.len()
    &&& bullets[i].id == id
    &&& programs[i]@.despawns(dt)
}

/// Adds a projectile and its program to the live entities. The program waits
/// on its first step.
pub fn spawn_bullet(
    bullets: &mut Vec<Bullet>,
    programs: &mut Vec<BulletActions>,
    bullet: Bullet,
    actions: Vec<BulletAction>,
    repeat: bool,
)
    requires
        actions.len() > 0,
    ensures
        final(bullets)@ == old(bullets)@.push(bullet),
        final(programs)@.len() == old(programs)@.len() + 1,
        final(programs)@.drop_last() == old(programs)@,
        final(programs)@.last()@ == Program::fresh(actions@, repeat),
        final(programs)@.last()@.wf(),
{
    let program = BulletActions::new(actions, repeat);
    bullets.push(bullet);
    programs.push(program);
    assert(programs@.drop_last() =~= old(programs)@);
}

/// One pass of the scheduler: every program runs for one tick of `dt`, the
/// effect that fires is applied to the program's projectile, and a program
/// that stops in this tick asks for its projectile's removal. `programs[i]`
/// belongs to `bullets[i]`.
pub fn bullet_actions(
    bullets: &mut Vec<Bullet>,
    programs: &mut Vec<BulletActions>,
    dt: i64,
    despawns: &mut DespawnQueue,
)
    requires
        old(bullets).len() == old(programs).len(),
        forall|i: int| 0 <= i < old(programs).len() ==> (#[trigger] old(programs)[i])@.wf(),
        old(despawns).wf(),
    ensures
        final(bullets).len() == old(bullets).len(),
        final(programs).len() == old(programs).len(),
        final(despawns).wf(),
        forall|i: int|
            0 <= i < old(programs).len() ==> {
                &&& (#[trigger] final(programs)[i])@ == old(programs)[i]@.after_tick(dt)
                &&& final(programs)[i]@.wf()
            },
        forall|i: int|
            0 <= i < old(bullets).len() ==> #[trigger] final(bullets)[i] == old(
                bullets,
            )[i].applied_if(old(programs)[i]@.fires(dt)),
        forall|id: u64|
            #[trigger] final(despawns)@.contains(id) <==> old(despawns)@.contains(id) || exists|
                i: int,
            | #[trigger] asks_removal(old(bullets)@, old(programs)@, dt, i, id),
{
    let n: usize = bullets.len();
    let mut k: usize = 0;
    while k < n
        invariant
            k <= n,
            n == bullets.len(),
            n == programs.len(),
            n == old(bullets).len(),
            n == old(programs).len(),
            despawns.wf(),
            forall|i: int| k <= i < n ==> bullets[i] == old(bullets)[i],
            forall|i: int| k <= i < n ==> programs[i] == old(programs)[i],
            forall|i: int| 0 <= i < n ==> (#[trigger] old(programs)[i])@.wf(),
            forall|i: int|
                0 <= i < k ==> {
                    &&& (#[trigger] programs[i])@ == old(programs)[i]@.after_tick(dt)
                    &&& programs[i]@.wf()
                },
            forall|i: int|
                0 <= i < k ==> #[trigger] bullets[i] == old(bullets)[i].applied_if(
                    old(programs)[i]@.fires(dt),
                ),
            forall|id: u64|
                #[trigger] despawns@.contains(id) <==> old(despawns)@.contains(id) || exists|
                    i: int,
                | i < k && #[trigger] asks_removal(old(bullets)@, old(programs)@, dt, i, id),
        decreases n - k,
    {
        let ghost queue_now = despawns@;
        let mut bullet: Bullet = bullets[k];
        let was_stopped: bool = programs[k].stopped();
        let fired: Option<BulletActionType> = programs[k].tick(dt);
        match fired {
            Some(effect) => {
                bullet.apply(effect);
                bullets.set(k, bullet);
            },
            None => {},
        }
        let asks: bool = !was_stopped && programs[k].stopped();
        if asks {
            despawns.request(bullet.id);
        }
        proof {
            assert(asks == asks_removal(old(bullets)@, old(programs)@, dt, k as int, bullet.id));
            assert forall|id: u64|
                #[trigger] despawns@.contains(id) <==> old(despawns)@.contains(id) || exists|i: int|
                    i < k + 1 && #[trigger] asks_removal(
                        old(bullets)@,
                        old(programs)@,
                        dt,
                        i,
                        id,
                    ) by {
                lemma_requested_contains(queue_now, bullet.id, id);
                assert(queue_now.contains(id) <==> old(despawns)@.contains(id) || exists|i: int|
                    i < k && #[trigger] asks_removal(old(bullets)@, old(programs)@, dt, i, id));
            }
        }
        k += 1;
    }
}

/// A tick moves the cursor by one step at most, however long it is.
pub proof fn lemma_single_step(p: Program, dt: i64)
    requires
        p.wf(),
    ensures
        p.after_tick(dt).wf(),
        p.after_tick(dt).cursor == p.cursor || p.after_tick(dt).cursor == p.next_cursor(),
        p.after_tick(dt).cursor != p.cursor ==> p.fires(dt).is_some(),
        p.after_tick(dt).steps == p.steps,
        p.after_tick(dt).repeat == p.repeat,
{
}

/// A repeating program starts over after its last step and goes on: unless
/// the step that fired was a `Despawn`, its cursor stands on a step again and
/// it has not stopped.
pub proof fn lemma_repeat_wraps(p: Program, dt: i64)
    requires
        p.wf(),
        p.repeat,
        !p.stopped,
    ensures
        0 <= p.after_tick(dt).cursor < p.steps.len(),
        p.expires(dt) && p.cursor + 1 == p.steps.len() ==> p.after_tick(dt).cursor == 0,
        p.fires(dt) != Some(BulletActionType::Despawn) ==> !p.after_tick(dt).stopped,
{
}

/// A program that does not repeat asks for its projectile's removal in the
/// tick in which its last step fires, and no tick changes it after that.
pub proof fn lemma_last_step_stops(p: Program, dt: i64, later: i64)
    requires
        p.wf(),
        !p.repeat,
        p.cursor + 1 == p.steps.len(),
        p.expires(dt),
    ensures
        p.despawns(dt),
        p.after_tick(dt).after_tick(later) == p.after_tick(dt),
        p.after_tick(dt).fires(later).is_none(),
        !p.after_tick(dt).despawns(later),
{
}

/// The step on which a repeating program of `len` steps stands when `k`
/// steps have fired since it stood on step `c`.
pub open spec fn step_after(len: int, c: int, k: nat) -> int
    decreases k,
{
    if k == 0 {
        c
    } else {
        step_after(len, if c + 1 == len { 0 } else { c + 1 }, (k - 1) as nat)
    }
}

impl Program {
    /// The program after `n` ticks of `dt` each.
    pub open spec fn after_ticks(self, dt: i64, n: nat) -> Program
        decreases n,
    {
        if n == 0 {
            self
        } else {
            self.after_tick(dt).after_ticks(dt, (n - 1) as nat)
        }
    }

    /// The number of effects that `n` ticks of `dt` each apply.
    pub open spec fn fired(self, dt: i64, n: nat) -> nat
        decreases n,
    {
        if n == 0 {
            0
        } else {
            (if self.expires(dt) { 1nat } else { 0nat }) + self.after_tick(dt).fired(
                dt,
                (n - 1) as nat,
            )
        }
    }

    /// A repeating program that is running and holds no `Despawn` step.
    pub open spec fn runs_forever(self) -> bool {
        &&& self.wf()
        &&& self.repeat
        &&& !self.stopped
        &&& forall|i: int| 0 <= i < self.steps.len() ==> (#[trigger] self.steps[i]).0
            != BulletActionType::Despawn
    }
}

/// Ticks add up: `a + b` ticks are `a` ticks and then `b` more.
pub proof fn lemma_ticks_add(p: Program, dt: i64, a: nat, b: nat)
    ensures
        p.after_ticks(dt, a + b) == p.after_ticks(dt, a).after_ticks(dt, b),
        p.fired(dt, a + b) == p.fired(dt, a) + p.after_ticks(dt, a).fired(dt, b),
    decreases a,
{
    if a > 0 {
        lemma_ticks_add(p.after_tick(dt), dt, (a - 1) as nat, b);
        assert((a - 1) as nat + b == (a + b - 1) as nat);
    }
}

/// A repeating program without a `Despawn` step never stops and never asks
/// for its projectile's removal: after any number of ticks it is running, on
/// the step that the number of effects applied so far leads to.
pub proof fn lemma_repeat_runs_on(p: Program, dt: i64, n: nat)
    requires
        p.runs_forever(),
    ensures
        p.after_ticks(dt, n).runs_forever(),
        p.after_ticks(dt, n).steps == p.steps,
        0 <= p.after_ticks(dt, n).cursor < p.steps.len(),
        p.after_ticks(dt, n).cursor == step_after(p.steps.len() as int, p.cursor, p.fired(dt, n)),
        !p.after_ticks(dt, n).despawns(dt),
    decreases n,
{
    if n > 0 {
        lemma_repeat_runs_on(p.after_tick(dt), dt, (n - 1) as nat);
    }
}

/// With time passing, the waiting step of such a program fires: `t` ticks go
/// by without an effect, and the next tick applies the waiting step's.
pub proof fn lemma_step_fires(p: Program, dt: i64) -> (t: nat)
    requires
        p.runs_forever(),
        dt > 0,
    ensures
        p.fired(dt, t) == 0,
        p.after_ticks(dt, t).cursor == p.cursor,
        p.after_ticks(dt, t).expires(dt),
        p.after_ticks(dt, t).fires(dt) == Some(p.steps[p.cursor].0),
    decreases p.remaining,
{
    if p.expires(dt) {
        0
    } else {
        let t = lemma_step_fires(p.after_tick(dt), dt);
        t + 1
    }
}

/// The effects of such a program form the unending sequence of its steps,
/// from the waiting one on and round again: for every `n` there is a tick,
/// the one after `t` ticks, that applies the effect number `n` of that
/// sequence, `n` effects having been applied before it.
pub proof fn lemma_repeat_is_unending(p: Program, dt: i64, n: nat) -> (t: nat)
    requires
        p.runs_forever(),
        dt > 0,
    ensures
        p.fired(dt, t) == n,
        p.after_ticks(dt, t).cursor == step_after(p.steps.len() as int, p.cursor, n),
        p.after_ticks(dt, t).fires(dt) == Some(
            p.steps[step_after(p.steps.len() as int, p.cursor, n)].0,
        ),
    decreases n,
{
    let t0 = lemma_step_fires(p, dt);
    if n == 0 {
        t0
    } else {
        let q = p.after_ticks(dt, t0);
        lemma_repeat_runs_on(p, dt, t0);
        let r = q.after_tick(dt);
        let t1 = lemma_repeat_is_unending(r, dt, (n - 1) as nat);
        lemma_ticks_add(p, dt, t0, 1);
        assert(q.after_ticks(dt, 1) == r) by {
            assert(r.after_ticks(dt, 0) == r);
        }
        assert(q.fired(dt, 1) == 1) by {
            assert(r.fired(dt, 0) == 0);
        }
        lemma_ticks_add(p, dt, t0 + 1, t1);
        t0 + 1 + t1
    }
}

} // verus!
