//! Cannon aiming and firing, and the projectile resolver: per-tick Euler
//! integration, first-match collision detection against breakable
//! structures, and damage application.

use crate::game::Game;
use crate::grid::boxes_overlap;
use crate::grid::WorldVec;
use crate::player::Player;
use crate::player::PlayerSide;
use crate::structures::damage_seq;
use crate::structures::footprints_disjoint;
use crate::structures::Structure;
use crate::BALL_HALF;
use crate::BASE_SPEED;
use crate::CANNONBALL_COST;
use crate::DESPAWN_LIMIT;
use crate::FULL_POWER_DRAG;
use crate::POWER_MAX;
use crate::POWER_MIN;
use crate::POWER_UNIT;
use vstd::arithmetic::div_mod::lemma_div_by_multiple;
use vstd::arithmetic::div_mod::lemma_div_is_ordered;
use vstd::math::abs;
use vstd::prelude::*;

verus! {

/// A transient kinetic object: exists only between firing and its first
/// collision (or until it leaves the despawn bounds).
#[derive(Clone, Copy, Debug, PartialEq, Eq)]
pub struct Projectile {
    pub side: PlayerSide,
    pub pos: WorldVec,
    pub vel: WorldVec,
}

impl Projectile {
    /// Well-formedness: the position stays within the despawn bounds and
    /// the velocity never exceeds the base speed per axis.
    pub open spec fn wf(self) -> bool {
        &&& -DESPAWN_LIMIT <= self.pos.x <= DESPAWN_LIMIT
        &&& -DESPAWN_LIMIT <= self.pos.y <= DESPAWN_LIMIT
        &&& -BASE_SPEED <= self.vel.x <= BASE_SPEED
        &&& -BASE_SPEED <= self.vel.y <= BASE_SPEED
    }
}

/// The integer square root: the largest `r` with `r * r <= n`, defined
/// recursively; zero for nonpositive arguments.
pub open spec fn isqrt_spec(n: int) -> int
    decreases n,
{
    if n <= 0 {
        0
    } else {
        let p = isqrt_spec(n - 1);
        if (p + 1) * (p + 1) <= n {
            p + 1
        } else {
            p
        }
    }
}

/// The integer square root is characterized by `r * r <= n < (r+1) * (r+1)`.
pub proof fn lemma_isqrt_bounds(n: int)
    requires
        n >= 0,
    ensures
        isqrt_spec(n) >= 0,
        isqrt_spec(n) * isqrt_spec(n) <= n,
        n < (isqrt_spec(n) + 1) * (isqrt_spec(n) + 1),
    decreases n,
{
    if n == 0 {
    } else {
        lemma_isqrt_bounds(n - 1);
        let p = isqrt_spec(n - 1);
        if (p + 1) * (p + 1) <= n {
            assert(n - 1 < (p + 1) * (p + 1));
            assert(n == (p + 1) * (p + 1));
            assert((p + 1) * (p + 1) < (p + 2) * (p + 2)) by (nonlinear_arith)
                requires
                    p >= 0,
            ;
        }
    }
}

/// The characterization pins the square root down: any `r` satisfying it
/// equals `isqrt_spec(n)`.
pub proof fn lemma_isqrt_unique(n: int, r: int)
    requires
        n >= 0,
        r >= 0,
        r * r <= n,
        n < (r + 1) * (r + 1),
    ensures
        r == isqrt_spec(n),
{
    lemma_isqrt_bounds(n);
    let s = isqrt_spec(n);
    if r < s {
        assert((r + 1) * (r + 1) <= s * s) by (nonlinear_arith)
            requires
                0 <= r + 1 <= s,
        ;
    }
    if r > s {
        assert((s + 1) * (s + 1) <= r * r) by (nonlinear_arith)
            requires
                0 <= s + 1 <= r,
        ;
    }
}

/// Integer square root by binary search.
pub fn isqrt(n: u64) -> (r: u64)
    requires
        n <= 4_000_000_000_000_000,
    ensures
        r as int == isqrt_spec(n as int),
        (r as int) * (r as int) <= n as int,
        (n as int) < (r as int + 1) * (r as int + 1),
{
    proof {
        lemma_isqrt_bounds(n as int);
        assert(70_000_000int * 70_000_000int > n as int);
    }
    let mut lo: u64 = 0;
    let mut hi: u64 = 70_000_000;
    while lo + 1 < hi
        invariant
            lo < hi <= 70_000_000,
            (lo as int) * (lo as int) <= n as int,
            (n as int) < (hi as int) * (hi as int),
            n <= 4_000_000_000_000_000,
        decreases hi - lo,
    {
        let mid = lo + (hi - lo) / 2;
        proof {
            assert((mid as int) * (mid as int) <= 70_000_000int * 70_000_000int) by (
            nonlinear_arith)
                requires
                    0 <= mid as int <= 70_000_000int,
            ;
        }
        if mid * mid <= n {
            lo = mid;
        } else {
            hi = mid;
        }
    }
    proof {
        lemma_isqrt_unique(n as int, lo as int);
    }
    lo
}

/// Length of the drag vector, in subunits.
pub open spec fn drag_length(dx: int, dy: int) -> int {
    isqrt_spec(dx * dx + dy * dy)
}

/// Launch power, in thousandths of the base speed: proportional to the drag
/// length, with the floor `POWER_MIN` (a near-zero drag still fires with
/// minimal force) and the ceiling `POWER_MAX` (power never exceeds the base
/// speed).
pub open spec fn launch_power(len: int) -> int {
    let raw = len * POWER_MAX / (FULL_POWER_DRAG as int);
    if raw < POWER_MIN {
        POWER_MIN as int
    } else if raw > POWER_MAX {
        POWER_MAX as int
    } else {
        raw
    }
}

/// One axis of the launch velocity: the drag direction scaled to
/// `BASE_SPEED * power` and negated — the projectile launches away from the
/// drag target, a pull-back slingshot gesture.
pub open spec fn launch_component(d: int, len: int, power: int) -> int {
    let m = abs(d) * BASE_SPEED * power / (len * POWER_UNIT);
    if d >= 0 {
        -m
    } else {
        m
    }
}

/// The launch velocity for a drag vector `(dx, dy)` from the cannon to the
/// release point.
pub open spec fn launch_velocity(dx: int, dy: int) -> WorldVec {
    let len = drag_length(dx, dy);
    let power = launch_power(len);
    WorldVec {
        x: launch_component(dx, len, power) as i64,
        y: launch_component(dy, len, power) as i64,
    }
}

/// Computes the launch velocity of a fired projectile from the drag vector.
pub fn compute_launch_velocity(dx: i64, dy: i64) -> (v: WorldVec)
    requires
        -32_000_000 <= dx <= 32_000_000,
        -32_000_000 <= dy <= 32_000_000,
        !(dx == 0 && dy == 0),
    ensures
        v == launch_velocity(dx as int, dy as int),
        -BASE_SPEED <= v.x <= BASE_SPEED,
        -BASE_SPEED <= v.y <= BASE_SPEED,
{
    let adx: u64 = if dx >= 0 {
        dx as u64
    } else {
        (-dx) as u64
    };
    let ady: u64 = if dy >= 0 {
        dy as u64
    } else {
        (-dy) as u64
    };
    proof {
        assert(adx as int == abs(dx as int));
        assert(ady as int == abs(dy as int));
        assert((adx as int) * (adx as int) <= 32_000_000int * 32_000_000int) by (nonlinear_arith)
            requires
                0 <= adx as int <= 32_000_000int,
        ;
        assert((ady as int) * (ady as int) <= 32_000_000int * 32_000_000int) by (nonlinear_arith)
            requires
                0 <= ady as int <= 32_000_000int,
        ;
        assert((adx as int) * (adx as int) == (dx as int) * (dx as int)) by (nonlinear_arith)
            requires
                adx as int == abs(dx as int),
        ;
        assert((ady as int) * (ady as int) == (dy as int) * (dy as int)) by (nonlinear_arith)
            requires
                ady as int == abs(dy as int),
        ;
        assert(adx >= 1 || ady >= 1);
        assert((adx as int) * (adx as int) + (ady as int) * (ady as int) >= 1) by (nonlinear_arith)
            requires
                0 <= adx,
                0 <= ady,
                adx >= 1 || ady >= 1,
        ;
    }
    let sq: u64 = adx * adx + ady * ady;
    let len: u64 = isqrt(sq);
    proof {
        assert(len as int >= 1) by (nonlinear_arith)
            requires
                (sq as int) < (len as int + 1) * (len as int + 1),
                sq as int >= 1,
                len as int >= 0,
        ;
        assert(len as int <= 46_000_000int) by (nonlinear_arith)
            requires
                (len as int) * (len as int) <= sq as int,
                sq as int <= 2_048_000_000_000_000int,
                len as int >= 0,
        ;
        assert(adx as int <= len as int) by (nonlinear_arith)
            requires
                (adx as int) * (adx as int) <= sq as int,
                (sq as int) < (len as int + 1) * (len as int + 1),
                adx as int >= 0,
                len as int >= 0,
        ;
        assert(ady as int <= len as int) by (nonlinear_arith)
            requires
                (ady as int) * (ady as int) <= sq as int,
                (sq as int) < (len as int + 1) * (len as int + 1),
                ady as int >= 0,
                len as int >= 0,
        ;
    }
    let raw: u64 = (len * (POWER_MAX as u64)) / (FULL_POWER_DRAG as u64);
    let power: u64 = if raw < (POWER_MIN as u64) {
        POWER_MIN as u64
    } else if raw > (POWER_MAX as u64) {
        POWER_MAX as u64
    } else {
        raw
    };
    let den: u64 = len * (POWER_UNIT as u64);
    proof {
        assert(power as int == launch_power(len as int));
        assert((adx as int) * (BASE_SPEED as int) * (power as int) <= (len as int)
            * (BASE_SPEED as int) * 1000) by (nonlinear_arith)
            requires
                0 <= adx as int <= len as int,
                0 <= power as int <= 1000,
        ;
        assert((ady as int) * (BASE_SPEED as int) * (power as int) <= (len as int)
            * (BASE_SPEED as int) * 1000) by (nonlinear_arith)
            requires
                0 <= ady as int <= len as int,
                0 <= power as int <= 1000,
        ;
        assert((len as int) * (BASE_SPEED as int) * 1000 == (den as int) * (BASE_SPEED as int)) by (
        nonlinear_arith)
            requires
                den as int == (len as int) * (POWER_UNIT as int),
        ;
    }
    let mx: u64 = adx * (BASE_SPEED as u64) * power / den;
    let my: u64 = ady * (BASE_SPEED as u64) * power / den;
    proof {
        lemma_div_is_ordered(
            (adx as int) * (BASE_SPEED as int) * (power as int),
            (den as int) * (BASE_SPEED as int),
            den as int,
        );
        lemma_div_is_ordered(
            (ady as int) * (BASE_SPEED as int) * (power as int),
            (den as int) * (BASE_SPEED as int),
            den as int,
        );
        lemma_div_by_multiple(BASE_SPEED as int, den as int);
        assert(mx as int <= BASE_SPEED as int);
        assert(my as int <= BASE_SPEED as int);
    }
    let vx: i64 = if dx >= 0 {
        -(mx as i64)
    } else {
        mx as i64
    };
    let vy: i64 = if dy >= 0 {
        -(my as i64)
    } else {
        my as i64
    };
    WorldVec { x: vx, y: vy }
}

/// Whether a cannon fires on a click release: it is selected, the firing
/// cost is affordable, and the drag is not exactly zero (a zero drag has no
/// direction, so the cannon stays selected and nothing is spent).
pub open spec fn fires(s: Structure, money: u32, target: WorldVec) -> bool {
    &&& s.selected
    &&& money >= CANNONBALL_COST
    &&& target != s.spec_box_center()
}

/// The structure with its selection cleared.
pub open spec fn deselected(s: Structure) -> Structure {
    Structure { selected: false, ..s }
}

/// The projectile a cannon fires toward away-from-`target`: it starts at
/// the cannon's center with the drag-derived launch velocity.
pub open spec fn fired_projectile(s: Structure, target: WorldVec) -> Projectile {
    let c = s.spec_box_center();
    Projectile { side: s.side, pos: c, vel: launch_velocity(target.x - c.x, target.y - c.y) }
}

/// The effect of a click release on the structures from index `i` on, with
/// `money` left to spend: every selected cannon in order fires while the
/// budget lasts; one that cannot afford the shot, or whose drag is zero, is
/// skipped and stays selected. Returns the structures, the money left, and
/// the projectiles spawned, in firing order.
pub open spec fn fire_from(ss: Seq<Structure>, i: int, money: u32, target: WorldVec) -> (
    Seq<Structure>,
    u32,
    Seq<Projectile>,
)
    decreases ss.len() - i,
{
    if i < 0 || i >= ss.len() {
        (ss, money, Seq::empty())
    } else if fires(ss[i], money, target) {
        let rest = fire_from(
            ss.update(i, deselected(ss[i])),
            i + 1,
            (money - CANNONBALL_COST) as u32,
            target,
        );
        (rest.0, rest.1, seq![fired_projectile(ss[i], target)] + rest.2)
    } else {
        fire_from(ss, i + 1, money, target)
    }
}

impl Game {
    /// Handles a click release at `target`: every selected cannon of the
    /// active player with the firing cost still affordable fires one
    /// projectile away from the drag target, is deselected, and the cost is
    /// debited; a selected cannon that cannot afford the shot — or whose
    /// drag is exactly zero — is skipped and stays selected.
    pub fn fire_selected_cannon(&mut self, target: WorldVec)
        requires
            old(self).wf(),
            target.in_world(),
        ensures
            final(self).wf(),
            final(self).turn == old(self).turn,
            final(self).inactive() == old(self).inactive(),
            ({
                let r = fire_from(old(self).structures@, 0, old(self).active().money, target);
                &&& final(self).structures@ == r.0
                &&& final(self).active() == (Player { money: r.1, ..old(self).active() })
                &&& final(self).projectiles@ == old(self).projectiles@ + r.2
            }),
    {
        let mut money = self.read_active_money();
        let mut i: usize = 0;
        while i < self.structures.len()
            invariant
                i <= self.structures@.len(),
                old(self).wf(),
                target.in_world(),
                self.turn == old(self).turn,
                self.top == old(self).top,
                self.bottom == old(self).bottom,
                self.structures@.len() == old(self).structures@.len(),
                forall|k: int|
                    i <= k < self.structures@.len() ==> self.structures@[k] == old(
                        self,
                    ).structures@[k],
                forall|k: int|
                    0 <= k < i ==> (self.structures@[k] == old(self).structures@[k]
                        || self.structures@[k] == deselected(old(self).structures@[k])),
                forall|k: int|
                    0 <= k < self.projectiles@.len() ==> (#[trigger] self.projectiles@[k]).wf(),
                fire_from(self.structures@, i as int, money, target).0 == fire_from(
                    old(self).structures@,
                    0,
                    old(self).active().money,
                    target,
                ).0,
                fire_from(self.structures@, i as int, money, target).1 == fire_from(
                    old(self).structures@,
                    0,
                    old(self).active().money,
                    target,
                ).1,
                self.projectiles@ + fire_from(self.structures@, i as int, money, target).2 == old(
                    self,
                ).projectiles@ + fire_from(
                    old(self).structures@,
                    0,
                    old(self).active().money,
                    target,
                ).2,
            decreases self.structures@.len() - i,
        {
            let ghost prev_ss = self.structures@;
            let ghost prev_ps = self.projectiles@;
            let ghost prev_money = money;
            let s = self.structures[i];
            let mut fired = false;
            if s.selected && money >= CANNONBALL_COST {
                proof {
                    assert(s == old(self).structures@[i as int]);
                    assert(s.wf());
                }
                let center = s.box_center();
                let dx = target.x - center.x;
                let dy = target.y - center.y;
                if !(dx == 0 && dy == 0) {
                    let v = compute_launch_velocity(dx, dy);
                    let np = Projectile { side: s.side, pos: center, vel: v };
                    let mut s2 = s;
                    s2.selected = false;
                    self.structures.set(i, s2);
                    self.projectiles.push(np);
                    money = money - CANNONBALL_COST;
                    fired = true;
                    proof {
                        assert(fires(prev_ss[i as int], prev_money, target));
                        assert(s2 == deselected(prev_ss[i as int]));
                        assert(np == fired_projectile(prev_ss[i as int], target));
                        assert(fire_from(prev_ss, i as int, prev_money, target) == ({
                            let rest = fire_from(
                                prev_ss.update(i as int, deselected(prev_ss[i as int])),
                                i as int + 1,
                                (prev_money - CANNONBALL_COST) as u32,
                                target,
                            );
                            (rest.0, rest.1, seq![fired_projectile(prev_ss[i as int], target)]
                                + rest.2)
                        }));
                        assert(self.structures@ == prev_ss.update(
                            i as int,
                            deselected(prev_ss[i as int]),
                        ));
                        let rest = fire_from(self.structures@, i as int + 1, money, target);
                        assert(prev_ps + (seq![np] + rest.2) =~= (prev_ps.push(np)) + rest.2);
                        assert(self.projectiles@ == prev_ps.push(np));
                    }
                } else {
                    proof {
                        assert(target == s.spec_box_center());
                        assert(!fires(prev_ss[i as int], prev_money, target));
                    }
                }
            } else {
                proof {
                    assert(!fires(prev_ss[i as int], prev_money, target));
                }
            }
            if !fired {
                proof {
                    assert(fire_from(prev_ss, i as int, prev_money, target) == fire_from(
                        prev_ss,
                        i as int + 1,
                        prev_money,
                        target,
                    ));
                }
            }
            i += 1;
        }
        proof {
            assert(fire_from(self.structures@, i as int, money, target) == (
                self.structures@,
                money,
                Seq::<Projectile>::empty(),
            ));
            assert(self.projectiles@ + Seq::<Projectile>::empty() =~= self.projectiles@);
        }
        let state = self.read_active_state();
        self.set_active_player(money, state);
        proof {
            assert forall|a: int, b: int| 0 <= a < b < self.structures@.len() implies
            footprints_disjoint(#[trigger] self.structures@[a], #[trigger] self.structures@[b]) by {
                assert(footprints_disjoint(old(self).structures@[a], old(self).structures@[b]));
            }
        }
    }
}

/// The projectile one tick later: position advanced by the velocity, plain
/// Euler integration with no gravity or drag.
pub open spec fn moved(p: Projectile) -> Projectile {
    Projectile {
        side: p.side,
        pos: WorldVec { x: (p.pos.x + p.vel.x) as i64, y: (p.pos.y + p.vel.y) as i64 },
        vel: p.vel,
    }
}

/// The projectile is still within the despawn bounds.
pub open spec fn in_flight(p: Projectile) -> bool {
    &&& -DESPAWN_LIMIT <= p.pos.x <= DESPAWN_LIMIT
    &&& -DESPAWN_LIMIT <= p.pos.y <= DESPAWN_LIMIT
}

/// One tick of physics integration: every projectile advances by its
/// velocity, and those that left the despawn bounds are removed, in order.
pub open spec fn move_and_cull(ps: Seq<Projectile>) -> Seq<Projectile>
    decreases ps.len(),
{
    if ps.len() == 0 {
        Seq::empty()
    } else {
        let rest = move_and_cull(ps.drop_last());
        let p = moved(ps.last());
        if in_flight(p) {
            rest.push(p)
        } else {
            rest
        }
    }
}

impl Game {
    /// One tick of physics: advances every projectile by its velocity and
    /// despawns those that left the despawn bounds — the cleanup policy for
    /// shots that exit the arena without hitting anything.
    pub fn apply_velocity(&mut self)
        requires
            old(self).wf(),
        ensures
            final(self).wf(),
            final(self).turn == old(self).turn,
            final(self).top == old(self).top,
            final(self).bottom == old(self).bottom,
            final(self).structures@ == old(self).structures@,
            final(self).projectiles@ == move_and_cull(old(self).projectiles@),
    {
        let mut kept: Vec<Projectile> = Vec::new();
        let mut i: usize = 0;
        while i < self.projectiles.len()
            invariant
                i <= self.projectiles@.len(),
                old(self).wf(),
                self.turn == old(self).turn,
                self.top == old(self).top,
                self.bottom == old(self).bottom,
                self.structures@ == old(self).structures@,
                self.projectiles@ == old(self).projectiles@,
                kept@ == move_and_cull(old(self).projectiles@.take(i as int)),
                forall|k: int| 0 <= k < kept@.len() ==> (#[trigger] kept@[k]).wf(),
            decreases self.projectiles@.len() - i,
        {
            let p = self.projectiles[i];
            let np = Projectile {
                side: p.side,
                pos: WorldVec { x: p.pos.x + p.vel.x, y: p.pos.y + p.vel.y },
                vel: p.vel,
            };
            let keep = -DESPAWN_LIMIT <= np.pos.x && np.pos.x <= DESPAWN_LIMIT && -DESPAWN_LIMIT
                <= np.pos.y && np.pos.y <= DESPAWN_LIMIT;
            if keep {
                kept.push(np);
            }
            proof {
                let t1 = old(self).projectiles@.take(i as int + 1);
                assert(t1.drop_last() =~= old(self).projectiles@.take(i as int));
                assert(t1.last() == old(self).projectiles@[i as int]);
                assert(np == moved(old(self).projectiles@[i as int]));
                assert(keep == in_flight(np));
            }
            i += 1;
        }
        proof {
            assert(old(self).projectiles@.take(self.projectiles@.len() as int) =~= old(
                self,
            ).projectiles@);
        }
        self.projectiles = kept;
    }
}

/// Whether a projectile's box overlaps a breakable structure's box; only
/// breakable structures are collision targets, cannons are not hit.
pub open spec fn ball_hits(s: Structure, p: Projectile) -> bool {
    &&& s.breakable()
    &&& boxes_overlap(p.pos, BALL_HALF as int, s.spec_box_center(), s.spec_box_half())
}

/// The first structure, in stable creation order, that the projectile
/// overlaps: the first-match collision policy.
pub open spec fn first_hit(ss: Seq<Structure>, p: Projectile) -> Option<int>
    decreases ss.len(),
{
    if ss.len() == 0 {
        None
    } else if ball_hits(ss[0], p) {
        Some(0)
    } else {
        match first_hit(ss.drop_first(), p) {
            None => None,
            Some(j) => Some(j + 1),
        }
    }
}

/// `first_hit` returns the least index whose structure the projectile
/// overlaps, and `None` exactly when it overlaps nothing.
pub proof fn lemma_first_hit_characterization(ss: Seq<Structure>, p: Projectile)
    ensures
        match first_hit(ss, p) {
            Some(j) => {
                &&& 0 <= j < ss.len()
                &&& ball_hits(ss[j], p)
                &&& forall|k: int| 0 <= k < j ==> !ball_hits(#[trigger] ss[k], p)
            },
            None => forall|k: int| 0 <= k < ss.len() ==> !ball_hits(#[trigger] ss[k], p),
        },
    decreases ss.len(),
{
    if ss.len() == 0 {
    } else if ball_hits(ss[0], p) {
    } else {
        lemma_first_hit_characterization(ss.drop_first(), p);
        match first_hit(ss.drop_first(), p) {
            None => {
                assert forall|k: int| 0 <= k < ss.len() implies !ball_hits(#[trigger] ss[k], p) by {
                    if k > 0 {
                        assert(ss[k] == ss.drop_first()[k - 1]);
                    }
                }
            },
            Some(j) => {
                assert(ss[j + 1] == ss.drop_first()[j]);
                assert forall|k: int| 0 <= k < j + 1 implies !ball_hits(#[trigger] ss[k], p) by {
                    if k > 0 {
                        assert(ss[k] == ss.drop_first()[k - 1]);
                    }
                }
            },
        }
    }
}

/// Scans the structures in stable creation order for the first breakable
/// one whose box the projectile overlaps.
fn find_first_hit(ss: &Vec<Structure>, p: Projectile) -> (r: Option<usize>)
    requires
        forall|k: int| 0 <= k < ss@.len() ==> (#[trigger] ss@[k]).wf(),
        p.wf(),
    ensures
        match r {
            Some(j) => first_hit(ss@, p) == Some(j as int),
            None => first_hit(ss@, p) is None,
        },
{
    let mut j: usize = 0;
    while j < ss.len()
        invariant
            j <= ss@.len(),
            forall|k: int| 0 <= k < ss@.len() ==> (#[trigger] ss@[k]).wf(),
            p.wf(),
            forall|k: int| 0 <= k < j ==> !ball_hits(#[trigger] ss@[k], p),
        decreases ss@.len() - j,
    {
        let s = ss[j];
        let hit = match s.health {
            Some(_) => {
                let c = s.box_center();
                let h = s.box_half();
                crate::grid::aabb_collision(p.pos, BALL_HALF, c, h)
            },
            None => false,
        };
        if hit {
            proof {
                lemma_first_hit_characterization(ss@, p);
            }
            return Some(j);
        }
        j += 1;
    }
    proof {
        lemma_first_hit_characterization(ss@, p);
    }
    None
}

/// Collision resolution for the projectiles from index `i` on: each
/// projectile in order damages the first structure it overlaps — one hit
/// per projectile, no penetration — and despawns unconditionally on that
/// first contact, whether or not the structure survives; projectiles that
/// overlap nothing stay.
pub open spec fn resolve_from(ss: Seq<Structure>, ps: Seq<Projectile>, i: int) -> (
    Seq<Structure>,
    Seq<Projectile>,
)
    decreases ps.len() - i,
{
    if i < 0 || i >= ps.len() {
        (ss, ps)
    } else {
        match first_hit(ss, ps[i]) {
            None => resolve_from(ss, ps, i + 1),
            Some(j) => resolve_from(damage_seq(ss, j), ps.remove(i), i),
        }
    }
}

impl Game {
    /// One tick of collision resolution: each projectile, in firing order,
    /// damages the first breakable structure its box overlaps — in stable
    /// creation order — and despawns on that first contact; a structure
    /// whose health reaches zero is removed before later projectiles are
    /// resolved.
    pub fn resolve_collisions(&mut self)
        requires
            old(self).wf(),
        ensures
            final(self).wf(),
            final(self).turn == old(self).turn,
            final(self).top == old(self).top,
            final(self).bottom == old(self).bottom,
            ({
                let r = resolve_from(old(self).structures@, old(self).projectiles@, 0);
                &&& final(self).structures@ == r.0
                &&& final(self).projectiles@ == r.1
            }),
    {
        let mut i: usize = 0;
        while i < self.projectiles.len()
            invariant
                self.wf(),
                i <= self.projectiles@.len(),
                self.turn == old(self).turn,
                self.top == old(self).top,
                self.bottom == old(self).bottom,
                resolve_from(self.structures@, self.projectiles@, i as int) == resolve_from(
                    old(self).structures@,
                    old(self).projectiles@,
                    0,
                ),
            decreases self.projectiles@.len() - i,
        {
            let ghost prev_ss = self.structures@;
            let ghost prev_ps = self.projectiles@;
            let p = self.projectiles[i];
            match find_first_hit(&self.structures, p) {
                Some(j) => {
                    self.damage(j);
                    self.projectiles.remove(i);
                    proof {
                        assert(resolve_from(prev_ss, prev_ps, i as int) == resolve_from(
                            damage_seq(prev_ss, j as int),
                            prev_ps.remove(i as int),
                            i as int,
                        ));
                        prev_ps.remove_ensures(i as int);
                        assert forall|k: int| 0 <= k < self.projectiles@.len() implies (
                        #[trigger] self.projectiles@[k]).wf() by {
                            let k0: int = if k < i {
                                k
                            } else {
                                k + 1
                            };
                            assert(self.projectiles@[k] == prev_ps[k0]);
                        }
                    }
                },
                None => {
                    proof {
                        assert(resolve_from(prev_ss, prev_ps, i as int) == resolve_from(
                            prev_ss,
                            prev_ps,
                            i as int + 1,
                        ));
                    }
                    i += 1;
                },
            }
        }
        proof {
            assert(resolve_from(self.structures@, self.projectiles@, i as int) == (
                self.structures@,
                self.projectiles@,
            ));
        }
    }
}

/// Projectile single-use law: a projectile that overlaps two structures at
/// once damages exactly one of them — the first in stable creation order —
/// and despawns after that single hit; the rest of the board is exactly the
/// board after that one point of damage.
pub proof fn lemma_projectile_single_use(ss: Seq<Structure>, p: Projectile, i: int, j: int)
    requires
        0 <= i < j < ss.len(),
        ball_hits(ss[i], p),
        ball_hits(ss[j], p),
    ensures
        ({
            let fh = first_hit(ss, p);
            &&& fh is Some
            &&& fh matches Some(h) ==> {
                &&& 0 <= h <= i
                &&& ball_hits(ss[h], p)
                &&& resolve_from(ss, seq![p], 0) == (
                    damage_seq(ss, h),
                    Seq::<Projectile>::empty(),
                )
            }
        }),
{
    lemma_first_hit_characterization(ss, p);
    let fh = first_hit(ss, p);
    if let Some(h) = fh {
        assert(h <= i);
        let ps = seq![p];
        assert(ps[0] == p);
        assert(resolve_from(ss, ps, 0) == resolve_from(damage_seq(ss, h), ps.remove(0), 0));
        assert(ps.remove(0) =~= Seq::<Projectile>::empty());
        assert(resolve_from(damage_seq(ss, h), Seq::<Projectile>::empty(), 0) == (
            damage_seq(ss, h),
            Seq::<Projectile>::empty(),
        ));
    }
}

} // verus!
