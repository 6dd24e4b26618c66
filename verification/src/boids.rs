//! The flock: agents, the per-agent force model, and the per-step
//! update.
//!
//! Every step computes each agent's next state as a pure function of
//! the frozen pre-step populations and the index built from them, then
//! swaps the whole new populations in at once, so no agent ever sees a
//! neighbour's already-updated state.

use vstd::prelude::*;
use crate::fx::{smul, sqf, imax, fmul, isqrt, lemma_smul_range, lemma_tdiv_bound, lemma_sqf_le};
use crate::vec2::{V2, Gv2, gv, gv_add, gv_sub, gv_neg, gv_scale, gv_divn, gv_perp, gv_dot,
    gv_len, gv_norz, gv_in, lemma_scale_range, lemma_len_bound};
use crate::index::{SpatialIndex, WORLD_BOUND, knn, imin, entries_ok, valid_entry,
    lemma_knn_props};
use crate::settings::{Settings, GSettings, settings_ok, viewport_ok};

verus! {

/// Mathematical value of a display colour.
pub ghost struct GColor {
    pub r: int,
    pub g: int,
    pub b: int,
    pub a: int,
}

/// An RGBA colour with fixed-point channels (1000 = full intensity).
#[derive(Clone, Copy, PartialEq, Eq, Structural, Debug)]
pub struct Color4 {
    pub r: i64,
    pub g: i64,
    pub b: i64,
    pub a: i64,
}

impl View for Color4 {
    type V = GColor;

    open spec fn view(&self) -> GColor {
        GColor { r: self.r as int, g: self.g as int, b: self.b as int, a: self.a as int }
    }
}

/// Mathematical value of an agent.
pub ghost struct GBoid {
    pub pos: Gv2,
    pub vel: Gv2,
    pub color: GColor,
}

/// One agent: a position, a velocity, and a display colour.
#[derive(Clone, Copy, PartialEq, Eq, Structural, Debug)]
pub struct Boid {
    pub pos: V2,
    pub vel: V2,
    pub color: Color4,
}

impl View for Boid {
    type V = GBoid;

    open spec fn view(&self) -> GBoid {
        GBoid { pos: self.pos@, vel: self.vel@, color: self.color@ }
    }
}

/// The colour a newly spawned agent wears.
pub open spec fn default_color() -> GColor {
    GColor { r: 310, g: 310, b: 310, a: 1000 }
}

/// The fixed predator colour.
pub open spec fn black_color() -> GColor {
    GColor { r: 0, g: 0, b: 0, a: 1000 }
}

/// The values of a sequence of agents.
pub open spec fn bview(s: Seq<Boid>) -> Seq<GBoid> {
    s.map_values(|b: Boid| b@)
}

/// The agents' positions, in order.
pub open spec fn positions(s: Seq<GBoid>) -> Seq<Gv2> {
    s.map_values(|b: GBoid| b.pos)
}

/// An agent within the world the index accepts.
pub open spec fn boid_ok(b: GBoid) -> bool {
    gv_in(b.pos, WORLD_BOUND as int) && gv_in(b.vel, WORLD_BOUND as int)
}

pub open spec fn boids_ok(s: Seq<GBoid>) -> bool {
    forall|i: int| 0 <= i < s.len() ==> boid_ok(#[trigger] s[i])
}

/// Elapsed time is clamped to a tenth of a unit so a frame-time spike
/// cannot destabilise the integration.
pub open spec fn clamp_dt(d: int) -> int {
    if d < 0 {
        0
    } else if d > 100 {
        100
    } else {
        d
    }
}

/// Speed-matching force: along the current heading, proportional to
/// the gap between the target speed (scaled by 15) and the current
/// speed; zero for a standing agent, which has no heading.
pub open spec fn g_speed_force(vel: Gv2, target_speed: int, speed_weight: int) -> Gv2 {
    let gap = target_speed * 15 - gv_len(vel);
    gv_scale(gv_norz(vel), smul(smul(gap, speed_weight), 400))
}

/// Boundary force: pushes inward, per axis, when the agent sits within
/// 50 units of a viewport edge; zero elsewhere.
pub open spec fn g_wall_force(pos: Gv2, w: int, h: int) -> Gv2 {
    let fx = imax(50_000 - pos.x, 0) + imin(w - 50_000 - pos.x, 0);
    let fy = imax(50_000 - pos.y, 0) + imin(h - 50_000 - pos.y, 0);
    gv(5 * fx, 5 * fy)
}

/// The forces every agent feels: speed matching plus boundary.
pub open spec fn g_common_force(b: GBoid, s: GSettings, w: int, h: int) -> Gv2 {
    gv_add(g_speed_force(b.vel, s.target_speed, s.speed_weight), g_wall_force(b.pos, w, h))
}

/// One neighbour's contribution to a prey agent: separation when
/// closer than the spacing goal, alignment toward the neighbour's
/// velocity, cohesion toward its position.
pub open spec fn g_prey_term(me: GBoid, nb: GBoid, sq: int, s: GSettings) -> Gv2 {
    let dist = sqf(sq as nat) as int;
    let offset = gv_sub(nb.pos, me.pos);
    let sep = gv_scale(
        gv_norz(offset),
        smul(smul(imin(dist - s.spacing_goal, 0), s.separation_weight), 8000),
    );
    let align = gv_scale(gv_scale(gv_sub(nb.vel, me.vel), s.alignment_weight), 150);
    let coh = gv_scale(gv_scale(offset, s.cohesion_weight), 400);
    gv_add(gv_add(sep, align), coh)
}

/// Sum of the neighbour contributions for the first `|ns|` entries.
pub open spec fn g_prey_accum(me: GBoid, birds: Seq<GBoid>, ns: Seq<(int, int)>, s: GSettings) -> Gv2
    decreases ns.len(),
{
    if ns.len() == 0 {
        gv(0, 0)
    } else {
        gv_add(
            g_prey_accum(me, birds, ns.drop_last(), s),
            g_prey_term(me, birds[ns.last().0], ns.last().1, s),
        )
    }
}

/// The neighbour force: the average contribution, or exactly zero
/// when there are no neighbours (no division happens).
pub open spec fn g_neighbor_force(me: GBoid, birds: Seq<GBoid>, ns: Seq<(int, int)>, s: GSettings) -> Gv2 {
    if ns.len() == 0 {
        gv(0, 0)
    } else {
        gv_divn(g_prey_accum(me, birds, ns, s), ns.len() as int)
    }
}

/// One predator's contribution: within 120 units, a push along the
/// predator's velocity rotated a quarter turn, signed away from the
/// agent.
pub open spec fn g_avoid_term(me: GBoid, p: GBoid) -> Gv2 {
    let dist = gv_len(gv_sub(p.pos, me.pos));
    let perp = gv_perp(p.vel);
    let away = if gv_dot(perp, gv_sub(p.pos, me.pos)) > 0 {
        perp
    } else {
        gv_neg(perp)
    };
    gv_scale(gv_scale(away, imin(dist - 120_000, 0)), 50)
}

pub open spec fn g_avoid_accum(me: GBoid, preds: Seq<GBoid>, n: int) -> Gv2
    decreases n,
{
    if n <= 0 {
        gv(0, 0)
    } else {
        gv_add(g_avoid_accum(me, preds, n - 1), g_avoid_term(me, preds[n - 1]))
    }
}

/// The predator-avoidance force: the average contribution, or zero
/// when no predator exists.
pub open spec fn g_predator_force(me: GBoid, preds: Seq<GBoid>) -> Gv2 {
    if preds.len() == 0 {
        gv(0, 0)
    } else {
        gv_divn(g_avoid_accum(me, preds, preds.len() as int), preds.len() as int)
    }
}

/// A prey agent's next state: neighbour, predator-avoidance and common
/// forces accumulated, velocity then position integrated over `dt`,
/// and a colour derived from force and speed.
pub open spec fn g_update_prey(
    me: GBoid,
    birds: Seq<GBoid>,
    preds: Seq<GBoid>,
    s: GSettings,
    dt: int,
    w: int,
    h: int,
) -> GBoid {
    let ns = knn(positions(birds), me.pos, 6);
    let nf = g_neighbor_force(me, birds, ns, s);
    let pf = g_predator_force(me, preds);
    let cf = g_common_force(me, s, w, h);
    let total = gv_add(gv_add(nf, pf), cf);
    let vel = gv_add(me.vel, gv_scale(total, dt));
    let pos = gv_add(me.pos, gv_scale(vel, dt));
    let color = GColor {
        r: smul(gv_len(total), 8),
        g: smul(gv_len(me.vel), 10),
        b: 0,
        a: 1000,
    };
    GBoid { pos, vel, color }
}

/// One prey's pull on a predator: a weak cohesion toward it.
pub open spec fn g_chase_term(me: GBoid, nb: GBoid, s: GSettings) -> Gv2 {
    gv_scale(gv_scale(gv_sub(nb.pos, me.pos), s.cohesion_weight), 20)
}

pub open spec fn g_chase_accum(me: GBoid, birds: Seq<GBoid>, ns: Seq<(int, int)>, s: GSettings) -> Gv2
    decreases ns.len(),
{
    if ns.len() == 0 {
        gv(0, 0)
    } else {
        gv_add(g_chase_accum(me, birds, ns.drop_last(), s), g_chase_term(me, birds[ns.last().0], s))
    }
}

/// A predator's next state: the summed pull of its six nearest prey
/// (not averaged) plus the common forces, integrated; colour fixed.
pub open spec fn g_update_predator(
    me: GBoid,
    birds: Seq<GBoid>,
    s: GSettings,
    dt: int,
    w: int,
    h: int,
) -> GBoid {
    let ns = knn(positions(birds), me.pos, 6);
    let nf = g_chase_accum(me, birds, ns, s);
    let cf = g_common_force(me, s, w, h);
    let total = gv_add(nf, cf);
    let vel = gv_add(me.vel, gv_scale(total, dt));
    let pos = gv_add(me.pos, gv_scale(vel, dt));
    GBoid { pos, vel, color: black_color() }
}

/// A freshly spawned agent: within the viewport, with a small random
/// velocity and the default colour.
pub open spec fn fresh_boid(b: GBoid, w: int, h: int) -> bool {
    &&& 0 <= b.pos.x <= w
    &&& 0 <= b.pos.y <= h
    &&& -50_000 <= b.vel.x <= 50_000
    &&& -50_000 <= b.vel.y <= 50_000
    &&& b.color == default_color()
}

/// What resizing a population to `target` leaves behind: the common
/// prefix is untouched, every agent past it is freshly spawned, and a
/// negative target empties the population.
pub open spec fn reconciled(olds: Seq<GBoid>, target: int, w: int, h: int, news: Seq<GBoid>) -> bool {
    let t = imax(target, 0);
    &&& news.len() == t
    &&& forall|i: int| 0 <= i < imin(olds.len() as int, t) ==> news[i] == olds[i]
    &&& forall|i: int| olds.len() <= i < t ==> fresh_boid(#[trigger] news[i], w, h)
}

/// The predator count a step aims for: 1 or 0 when presence disagrees
/// with the switch, otherwise whatever is there.
pub open spec fn pred_target(count: int, enabled: bool) -> int {
    if (count == 0) == enabled {
        if enabled {
            1
        } else {
            0
        }
    } else {
        count
    }
}

/// Relies on rand::Rng::gen_range on the thread-local generator: a
/// value drawn from the given half-open range (it panics on an empty
/// range, which the precondition rules out).
#[verifier::external_body]
fn random_in_range(lo: i64, hi: i64) -> (r: i64)
    requires
        lo < hi,
    ensures
        lo <= r < hi,
{
    rand::Rng::gen_range(&mut rand::thread_rng(), lo..hi)
}

/// One neighbour's force contribution to a prey agent.
fn prey_term(me: &Boid, nb: &Boid, sq: u64, s: &Settings) -> (r: V2)
    requires
        boid_ok(me@),
        boid_ok(nb@),
        settings_ok(s@),
    ensures
        r@ == g_prey_term(me@, nb@, sq as int, s@),
        gv_in(r@, 0x8_0000_0000_0000),
{
    proof {
        assert((0xFFFF_FFFF as nat + 1) * (0xFFFF_FFFF as nat + 1) == 0x1_0000_0000_0000_0000)
            by (nonlinear_arith);
        lemma_sqf_le(sq as nat, 0xFFFF_FFFF as nat);
    }
    let dist = isqrt(sq as u128) as i64;
    let offset = nb.pos.minus(me.pos);
    let dmi = dist - s.spacing_goal;
    let t1: i64 = if dmi < 0 {
        dmi
    } else {
        0
    };
    proof {
        lemma_smul_range(t1 as int, s@.separation_weight, 0x1000_0000, 0x1000_0000);
    }
    let t2 = fmul(t1, s.separation_weight);
    proof {
        lemma_smul_range(t2 as int, 8000, 0x8000_0000_0000, 8000);
    }
    let t3 = fmul(t2, 8000);
    let unit = offset.norm_or_zero();
    proof {
        lemma_scale_range(unit@, t3 as int, 1000, 0x4_0000_0000_0000);
    }
    let sep = unit.scale(t3);
    let dv = nb.vel.minus(me.vel);
    proof {
        lemma_scale_range(dv@, s@.alignment_weight, 0x2000_0000, 0x1000_0000);
    }
    let a1 = dv.scale(s.alignment_weight);
    proof {
        lemma_scale_range(a1@, 150, 0x1_0000_0000_0000, 150);
    }
    let align = a1.scale(150);
    proof {
        lemma_scale_range(offset@, s@.cohesion_weight, 0x2000_0000, 0x1000_0000);
    }
    let c1 = offset.scale(s.cohesion_weight);
    proof {
        lemma_scale_range(c1@, 400, 0x1_0000_0000_0000, 400);
    }
    let coh = c1.scale(400);
    sep.plus(align).plus(coh)
}

/// One predator's avoidance contribution to a prey agent.
fn avoid_term(me: &Boid, p: &Boid) -> (r: V2)
    requires
        boid_ok(me@),
        boid_ok(p@),
    ensures
        r@ == g_avoid_term(me@, p@),
        gv_in(r@, 0x1_0000_0000),
{
    let dsq = crate::index::sqd(p.pos, me.pos);
    proof {
        assert((0xFFFF_FFFF as nat + 1) * (0xFFFF_FFFF as nat + 1) == 0x1_0000_0000_0000_0000)
            by (nonlinear_arith);
        lemma_sqf_le(dsq as nat, 0xFFFF_FFFF as nat);
    }
    let dist = isqrt(dsq as u128) as i64;
    let perp = p.vel.perp();
    let toward = p.pos.minus(me.pos);
    let away = if perp.dot_pos(toward) {
        perp
    } else {
        perp.neg()
    };
    let dmi = dist - 120_000;
    let t: i64 = if dmi < 0 {
        dmi
    } else {
        0
    };
    proof {
        lemma_scale_range(away@, t as int, 0x1000_0000, 120_000);
    }
    let a1 = away.scale(t);
    proof {
        lemma_scale_range(a1@, 50, 0x800_0000_0000, 50);
    }
    a1.scale(50)
}

/// One prey's pull on a predator.
fn chase_term(me: &Boid, nb: &Boid, s: &Settings) -> (r: V2)
    requires
        boid_ok(me@),
        boid_ok(nb@),
        settings_ok(s@),
    ensures
        r@ == g_chase_term(me@, nb@, s@),
        gv_in(r@, 0x800_0000_0000),
{
    let offset = nb.pos.minus(me.pos);
    proof {
        lemma_scale_range(offset@, s@.cohesion_weight, 0x2000_0000, 0x1000_0000);
    }
    let c1 = offset.scale(s.cohesion_weight);
    proof {
        lemma_scale_range(c1@, 20, 0x1_0000_0000_0000, 20);
    }
    c1.scale(20)
}

impl Boid {
    /// A fresh agent: random position within the viewport, a small
    /// random velocity, the default colour.
    pub fn new(width: i64, height: i64) -> (r: Boid)
        requires
            viewport_ok(width as int, height as int),
        ensures
            fresh_boid(r@, width as int, height as int),
            boid_ok(r@),
    {
        let px = random_in_range(0, width + 1);
        let py = random_in_range(0, height + 1);
        let vx = random_in_range(-50_000, 50_001);
        let vy = random_in_range(-50_000, 50_001);
        Boid {
            pos: V2::new(px, py),
            vel: V2::new(vx, vy),
            color: Color4 { r: 310, g: 310, b: 310, a: 1000 },
        }
    }

    /// Speed-matching plus boundary force.
    pub fn calc_common_forces(&self, settings: &Settings, width: i64, height: i64) -> (r: V2)
        requires
            boid_ok(self@),
            settings_ok(settings@),
            viewport_ok(width as int, height as int),
        ensures
            r@ == g_common_force(self@, settings@, width as int, height as int),
            gv_in(r@, 0x10_0000_0000_0000),
    {
        proof {
            lemma_len_bound(self@.vel, WORLD_BOUND as int);
        }
        let vel_len = self.vel.length_i();
        let gap = settings.target_speed * 15 - vel_len;
        proof {
            lemma_smul_range(gap as int, settings@.speed_weight, 0x2_0000_0000, 0x1000_0000);
        }
        let m3 = fmul(gap, settings.speed_weight);
        proof {
            lemma_smul_range(m3 as int, 400, 0x10_0000_0000_0000, 400);
        }
        let m4 = fmul(m3, 400);
        let unit = self.vel.norm_or_zero();
        proof {
            lemma_scale_range(unit@, m4 as int, 1000, 0x8_0000_0000_0000);
        }
        let speed = unit.scale(m4);
        let ax = 50_000 - self.pos.x;
        let axm: i64 = if ax >= 0 {
            ax
        } else {
            0
        };
        let bx = width - 50_000 - self.pos.x;
        let bxm: i64 = if bx <= 0 {
            bx
        } else {
            0
        };
        let ay = 50_000 - self.pos.y;
        let aym: i64 = if ay >= 0 {
            ay
        } else {
            0
        };
        let by = height - 50_000 - self.pos.y;
        let bym: i64 = if by <= 0 {
            by
        } else {
            0
        };
        let wall = V2::new(5 * (axm + bxm), 5 * (aym + bym));
        speed.plus(wall)
    }

    /// A prey agent's next state, computed from the frozen pre-step
    /// snapshot: exactly `g_update_prey` of the inputs.
    pub fn update_prey(
        &self,
        birds: &Vec<Boid>,
        predators: &Vec<Boid>,
        tree: &SpatialIndex,
        settings: &Settings,
        delta: i64,
        width: i64,
        height: i64,
    ) -> (r: Boid)
        requires
            boid_ok(self@),
            boids_ok(bview(birds@)),
            boids_ok(bview(predators@)),
            predators@.len() <= 4096,
            tree@ == positions(bview(birds@)),
            settings_ok(settings@),
            viewport_ok(width as int, height as int),
            0 <= delta <= 100,
        ensures
            r@ == g_update_prey(
                self@,
                bview(birds@),
                bview(predators@),
                settings@,
                delta as int,
                width as int,
                height as int,
            ),
    {
        let ghost gb = bview(birds@);
        let ghost gp = bview(predators@);
        proof {
            assert forall|i: int| 0 <= i < positions(gb).len() implies gv_in(
                #[trigger] positions(gb)[i],
                WORLD_BOUND as int,
            ) by {
                assert(boid_ok(gb[i]));
            }
            lemma_knn_props(positions(gb), self@.pos, 6);
        }
        let neighbors = tree.k_nearest(self.pos, 6);
        let ghost kn = knn(positions(gb), self@.pos, 6);

        let mut acc = V2::zero();
        let mut t: usize = 0;
        proof {
            assert(kn.take(0) =~= Seq::<(int, int)>::empty());
        }
        while t < neighbors.len()
            invariant
                gb == bview(birds@),
                boid_ok(self@),
                boids_ok(gb),
                settings_ok(settings@),
                kn == knn(positions(gb), self@.pos, 6),
                neighbors@.len() == kn.len() <= 6,
                forall|p: int|
                    0 <= p < kn.len() ==> (#[trigger] neighbors@[p].0 as int, neighbors@[p].1 as int)
                        == kn[p],
                entries_ok(kn, positions(gb), self@.pos, gb.len() as int),
                t <= kn.len(),
                acc@ == g_prey_accum(self@, gb, kn.take(t as int), settings@),
                gv_in(acc@, (t as int) * 0x8_0000_0000_0000),
            decreases neighbors@.len() - t,
        {
            let e = neighbors[t];
            proof {
                assert((e.0 as int, e.1 as int) == kn[t as int]);
                assert(valid_entry(kn[t as int], positions(gb), self@.pos, gb.len() as int));
                assert(positions(gb)[e.0 as int] == gb[e.0 as int].pos);
                assert(gb[e.0 as int] == birds@[e.0 as int]@);
                assert(boid_ok(gb[e.0 as int]));
            }
            let nbb = &birds[e.0];
            let term = prey_term(self, nbb, e.1, settings);
            acc = acc.plus(term);
            proof {
                assert(kn.take(t as int + 1).drop_last() =~= kn.take(t as int));
                assert(kn.take(t as int + 1).last() == kn[t as int]);
            }
            t += 1;
        }
        proof {
            assert(kn.take(kn.len() as int) =~= kn);
        }
        let nf = if neighbors.len() > 0 {
            proof {
                lemma_tdiv_bound(acc@.x, neighbors@.len() as int);
                lemma_tdiv_bound(acc@.y, neighbors@.len() as int);
            }
            acc.div_count(neighbors.len() as u64)
        } else {
            acc
        };

        let mut pacc = V2::zero();
        let mut u: usize = 0;
        while u < predators.len()
            invariant
                gp == bview(predators@),
                boid_ok(self@),
                boids_ok(gp),
                predators@.len() <= 4096,
                u <= predators@.len(),
                pacc@ == g_avoid_accum(self@, gp, u as int),
                gv_in(pacc@, (u as int) * 0x1_0000_0000),
            decreases predators@.len() - u,
        {
            proof {
                assert(gp[u as int] == predators@[u as int]@);
                assert(boid_ok(gp[u as int]));
            }
            let term = avoid_term(self, &predators[u]);
            pacc = pacc.plus(term);
            u += 1;
        }
        let pf = if predators.len() > 0 {
            proof {
                lemma_tdiv_bound(pacc@.x, predators@.len() as int);
                lemma_tdiv_bound(pacc@.y, predators@.len() as int);
            }
            pacc.div_count(predators.len() as u64)
        } else {
            pacc
        };

        let cf = self.calc_common_forces(settings, width, height);
        let total = nf.plus(pf).plus(cf);
        proof {
            lemma_len_bound(total@, 0x80_0000_0000_0000);
            lemma_len_bound(self@.vel, WORLD_BOUND as int);
            lemma_smul_range(gv_len(total@), 8, 0x100_0000_0000_0000, 8);
            lemma_smul_range(gv_len(self@.vel), 10, 0x2000_0000, 10);
            lemma_scale_range(total@, delta as int, 0x80_0000_0000_0000, 100);
        }
        let tot_len = total.length();
        let red = fmul(tot_len as i64, 8);
        let vel_len = self.vel.length_i();
        let green = fmul(vel_len, 10);
        let dv = total.scale(delta);
        let vel = self.vel.plus(dv);
        proof {
            lemma_scale_range(vel@, delta as int, 0x10_0000_0000_0000, 100);
        }
        let dp = vel.scale(delta);
        let pos = self.pos.plus(dp);
        Boid { pos, vel, color: Color4 { r: red, g: green, b: 0, a: 1000 } }
    }

    /// A predator's next state: exactly `g_update_predator` of the
    /// inputs.
    pub fn update_predator(
        &self,
        birds: &Vec<Boid>,
        _predators: &Vec<Boid>,
        tree: &SpatialIndex,
        settings: &Settings,
        delta: i64,
        width: i64,
        height: i64,
    ) -> (r: Boid)
        requires
            boid_ok(self@),
            boids_ok(bview(birds@)),
            tree@ == positions(bview(birds@)),
            settings_ok(settings@),
            viewport_ok(width as int, height as int),
            0 <= delta <= 100,
        ensures
            r@ == g_update_predator(
                self@,
                bview(birds@),
                settings@,
                delta as int,
                width as int,
                height as int,
            ),
    {
        let ghost gb = bview(birds@);
        proof {
            assert forall|i: int| 0 <= i < positions(gb).len() implies gv_in(
                #[trigger] positions(gb)[i],
                WORLD_BOUND as int,
            ) by {
                assert(boid_ok(gb[i]));
            }
            lemma_knn_props(positions(gb), self@.pos, 6);
        }
        let neighbors = tree.k_nearest(self.pos, 6);
        let ghost kn = knn(positions(gb), self@.pos, 6);

        let mut acc = V2::zero();
        let mut t: usize = 0;
        proof {
            assert(kn.take(0) =~= Seq::<(int, int)>::empty());
        }
        while t < neighbors.len()
            invariant
                gb == bview(birds@),
                boid_ok(self@),
                boids_ok(gb),
                settings_ok(settings@),
                kn == knn(positions(gb), self@.pos, 6),
                neighbors@.len() == kn.len() <= 6,
                forall|p: int|
                    0 <= p < kn.len() ==> (#[trigger] neighbors@[p].0 as int, neighbors@[p].1 as int)
                        == kn[p],
                entries_ok(kn, positions(gb), self@.pos, gb.len() as int),
                t <= kn.len(),
                acc@ == g_chase_accum(self@, gb, kn.take(t as int), settings@),
                gv_in(acc@, (t as int) * 0x800_0000_0000),
            decreases neighbors@.len() - t,
        {
            let e = neighbors[t];
            proof {
                assert((e.0 as int, e.1 as int) == kn[t as int]);
                assert(valid_entry(kn[t as int], positions(gb), self@.pos, gb.len() as int));
                assert(gb[e.0 as int] == birds@[e.0 as int]@);
                assert(boid_ok(gb[e.0 as int]));
            }
            let term = chase_term(self, &birds[e.0], settings);
            acc = acc.plus(term);
            proof {
                assert(kn.take(t as int + 1).drop_last() =~= kn.take(t as int));
                assert(kn.take(t as int + 1).last() == kn[t as int]);
            }
            t += 1;
        }
        proof {
            assert(kn.take(kn.len() as int) =~= kn);
        }
        let cf = self.calc_common_forces(settings, width, height);
        let total = acc.plus(cf);
        proof {
            lemma_scale_range(total@, delta as int, 0x20_0000_0000_0000, 100);
        }
        let dv = total.scale(delta);
        let vel = self.vel.plus(dv);
        proof {
            lemma_scale_range(vel@, delta as int, 0x10_0000_0000_0000, 100);
        }
        let dp = vel.scale(delta);
        let pos = self.pos.plus(dp);
        Boid { pos, vel, color: Color4 { r: 0, g: 0, b: 0, a: 1000 } }
    }
}


/// Mathematical value of the whole flock.
pub ghost struct GFlock {
    pub birds: Seq<GBoid>,
    pub predators: Seq<GBoid>,
    pub tree: Seq<Gv2>,
}

/// Populations small and placed well enough for a step to compute.
pub open spec fn flock_ok(f: GFlock) -> bool {
    &&& boids_ok(f.birds)
    &&& boids_ok(f.predators)
    &&& f.predators.len() <= 4096
    &&& f.birds.len() <= 100_000_000
}

/// The prey population after one unpaused step from the reconciled
/// snapshot `nb` (prey) and `np` (predators).
pub open spec fn stepped(nb: Seq<GBoid>, np: Seq<GBoid>, s: GSettings, dt: int, w: int, h: int) -> Seq<GBoid> {
    Seq::new(nb.len(), |i: int| g_update_prey(nb[i], nb, np, s, dt, w, h))
}

/// The predator population after one unpaused step.
pub open spec fn stepped_preds(nb: Seq<GBoid>, np: Seq<GBoid>, s: GSettings, dt: int, w: int, h: int) -> Seq<GBoid> {
    Seq::new(np.len(), |i: int| g_update_predator(np[i], nb, s, dt, w, h))
}

/// What one step does, with the reconciled populations `nb` and `np`
/// as witnesses: populations are resized first; a paused step changes
/// nothing else; an unpaused step rebuilds the index from the frozen
/// snapshot and replaces both populations with their stepped values.
pub open spec fn update_rel_wit(
    pre: GFlock,
    s: GSettings,
    w: int,
    h: int,
    dt0: int,
    post: GFlock,
    nb: Seq<GBoid>,
    np: Seq<GBoid>,
) -> bool {
    let dt = clamp_dt(dt0);
    &&& reconciled(pre.birds, s.population, w, h, nb)
    &&& reconciled(pre.predators, pred_target(pre.predators.len() as int, s.predator), w, h, np)
    &&& if s.paused {
        post.birds == nb && post.predators == np && post.tree == pre.tree
    } else {
        post.birds == stepped(nb, np, s, dt, w, h) && post.predators == stepped_preds(
            nb,
            np,
            s,
            dt,
            w,
            h,
        ) && post.tree == positions(nb)
    }
}

/// One step relates the pre- and post-states as `update_rel_wit` says,
/// for some reconciled snapshot (randomly spawned agents keep the
/// snapshot existential).
pub open spec fn update_rel(pre: GFlock, s: GSettings, w: int, h: int, dt0: int, post: GFlock) -> bool {
    exists|nb: Seq<GBoid>, np: Seq<GBoid>| update_rel_wit(pre, s, w, h, dt0, post, nb, np)
}

/// The flock: prey, predators, and the per-step spatial index.
pub struct Boids {
    birds: Vec<Boid>,
    /// Stores indexes into `birds`; valid only for the snapshot of the
    /// step it was built in.
    tree: SpatialIndex,
    predators: Vec<Boid>,
}

impl View for Boids {
    type V = GFlock;

    closed spec fn view(&self) -> GFlock {
        GFlock {
            birds: bview(self.birds@),
            predators: bview(self.predators@),
            tree: self.tree@,
        }
    }
}

impl Boids {
    /// A flock of `quantity` fresh prey and one fresh predator, with an
    /// empty index.
    pub fn new(quantity: usize, width: i64, height: i64) -> (r: Boids)
        requires
            viewport_ok(width as int, height as int),
            quantity <= 100_000_000,
        ensures
            r@.birds.len() == quantity,
            forall|i: int|
                0 <= i < quantity ==> fresh_boid(#[trigger] r@.birds[i], width as int, height as int),
            r@.predators.len() == 1,
            fresh_boid(r@.predators[0], width as int, height as int),
            r@.tree.len() == 0,
            flock_ok(r@),
    {
        let mut birds: Vec<Boid> = Vec::new();
        let mut i: usize = 0;
        while i < quantity
            invariant
                viewport_ok(width as int, height as int),
                i <= quantity,
                birds@.len() == i,
                forall|p: int|
                    0 <= p < i ==> fresh_boid(
                        #[trigger] bview(birds@)[p],
                        width as int,
                        height as int,
                    ),
            decreases quantity - i,
        {
            let ghost prev = birds@;
            let fresh = Boid::new(width, height);
            birds.push(fresh);
            proof {
                assert forall|p: int| 0 <= p < i + 1 implies fresh_boid(
                    #[trigger] bview(birds@)[p],
                    width as int,
                    height as int,
                ) by {
                    assert(bview(birds@)[p] == birds@[p]@);
                    if p < i {
                        assert(birds@[p] == prev[p]);
                        assert(bview(prev)[p] == prev[p]@);
                    } else {
                        assert(birds@[p] == fresh);
                    }
                }
            }
            i += 1;
        }
        let mut predators: Vec<Boid> = Vec::new();
        predators.push(Boid::new(width, height));
        let r = Boids { birds, tree: SpatialIndex::new(), predators };
        proof {
            assert forall|p: int| 0 <= p < r@.birds.len() implies boid_ok(#[trigger] r@.birds[p]) by {
                assert(fresh_boid(r@.birds[p], width as int, height as int));
            }
            assert(boid_ok(r@.predators[0]));
        }
        r
    }

    /// The prey, for rendering.
    pub fn birds(&self) -> (r: &Vec<Boid>)
        ensures
            bview(r@) == self@.birds,
    {
        &self.birds
    }

    /// The predators, for rendering.
    pub fn predators(&self) -> (r: &Vec<Boid>)
        ensures
            bview(r@) == self@.predators,
    {
        &self.predators
    }

    /// One simulation step: reconcile both population sizes against the
    /// configuration, then (unless paused) rebuild the index from the
    /// frozen prey positions and replace both populations wholesale
    /// with their stepped values.  `delta` is clamped to at most a
    /// tenth of a time unit.
    pub fn update(&mut self, settings: &Settings, width: i64, height: i64, delta: i64)
        requires
            settings_ok(settings@),
            viewport_ok(width as int, height as int),
            flock_ok(old(self)@),
        ensures
            update_rel(
                old(self)@,
                settings@,
                width as int,
                height as int,
                delta as int,
                final(self)@,
            ),
    {
        let dt: i64 = if delta < 0 {
            0
        } else if delta > 100 {
            100
        } else {
            delta
        };

        let target: usize = if settings.population < 0 {
            0
        } else {
            settings.population as usize
        };
        if self.birds.len() != target {
            if self.birds.len() > target {
                self.birds.truncate(target);
            } else {
                while self.birds.len() < target
                    invariant
                        viewport_ok(width as int, height as int),
                        target <= 100_000_000,
                        self.birds@.len() <= target,
                        old(self).birds@.len() <= self.birds@.len(),
                        forall|i: int|
                            0 <= i < old(self).birds@.len() ==> self.birds@[i] == old(
                                self,
                            ).birds@[i],
                        forall|i: int|
                            old(self).birds@.len() <= i < self.birds@.len() ==> fresh_boid(
                                #[trigger] bview(self.birds@)[i],
                                width as int,
                                height as int,
                            ),
                        self.predators@ == old(self).predators@,
                        self.tree == old(self).tree,
                    decreases target - self.birds@.len(),
                {
                    let ghost prev = self.birds@;
                    let fresh = Boid::new(width, height);
                    self.birds.push(fresh);
                    proof {
                        assert forall|p: int|
                            old(self).birds@.len() <= p < self.birds@.len() implies fresh_boid(
                            #[trigger] bview(self.birds@)[p],
                            width as int,
                            height as int,
                        ) by {
                            assert(bview(self.birds@)[p] == self.birds@[p]@);
                            if p < prev.len() {
                                assert(self.birds@[p] == prev[p]);
                                assert(bview(prev)[p] == prev[p]@);
                            } else {
                                assert(self.birds@[p] == fresh);
                            }
                        }
                    }
                }
            }
        }
        let ghost nb = bview(self.birds@);
        proof {
            assert(reconciled(
                old(self)@.birds,
                settings@.population,
                width as int,
                height as int,
                nb,
            ));
            assert(boids_ok(nb)) by {
                assert forall|i: int| 0 <= i < nb.len() implies boid_ok(#[trigger] nb[i]) by {
                    if i < old(self).birds@.len() {
                        assert(nb[i] == old(self)@.birds[i]);
                    } else {
                        assert(fresh_boid(nb[i], width as int, height as int));
                    }
                }
            }
        }

        let ghost birds_now = self.birds@;
        let pcur = self.predators.len();
        let ptarget: usize = if (pcur == 0) == settings.predator {
            if settings.predator {
                1
            } else {
                0
            }
        } else {
            pcur
        };
        if self.predators.len() != ptarget {
            if self.predators.len() > ptarget {
                self.predators.truncate(ptarget);
            } else {
                while self.predators.len() < ptarget
                    invariant
                        viewport_ok(width as int, height as int),
                        ptarget <= 4096,
                        self.predators@.len() <= ptarget,
                        old(self).predators@.len() <= self.predators@.len(),
                        forall|i: int|
                            0 <= i < old(self).predators@.len() ==> self.predators@[i] == old(
                                self,
                            ).predators@[i],
                        forall|i: int|
                            old(self).predators@.len() <= i < self.predators@.len() ==> fresh_boid(
                                #[trigger] bview(self.predators@)[i],
                                width as int,
                                height as int,
                            ),
                        self.birds@ == birds_now,
                        self.tree == old(self).tree,
                    decreases ptarget - self.predators@.len(),
                {
                    let ghost prev = self.predators@;
                    let fresh = Boid::new(width, height);
                    self.predators.push(fresh);
                    proof {
                        assert forall|p: int|
                            old(self).predators@.len() <= p < self.predators@.len() implies fresh_boid(
                            #[trigger] bview(self.predators@)[p],
                            width as int,
                            height as int,
                        ) by {
                            assert(bview(self.predators@)[p] == self.predators@[p]@);
                            if p < prev.len() {
                                assert(self.predators@[p] == prev[p]);
                                assert(bview(prev)[p] == prev[p]@);
                            } else {
                                assert(self.predators@[p] == fresh);
                            }
                        }
                    }
                }
            }
        }
        let ghost np = bview(self.predators@);
        proof {
            assert(reconciled(
                old(self)@.predators,
                pred_target(old(self)@.predators.len() as int, settings@.predator),
                width as int,
                height as int,
                np,
            ));
            assert(boids_ok(np)) by {
                assert forall|i: int| 0 <= i < np.len() implies boid_ok(#[trigger] np[i]) by {
                    if i < old(self).predators@.len() {
                        assert(np[i] == old(self)@.predators[i]);
                    } else {
                        assert(fresh_boid(np[i], width as int, height as int));
                    }
                }
            }
            assert(np.len() <= 4096);
        }

        if settings.paused {
            proof {
                assert(update_rel_wit(
                    old(self)@,
                    settings@,
                    width as int,
                    height as int,
                    delta as int,
                    self@,
                    nb,
                    np,
                ));
            }
            return;
        }

        let mut ps: Vec<V2> = Vec::new();
        let mut i: usize = 0;
        while i < self.birds.len()
            invariant
                nb == bview(self.birds@),
                i <= self.birds@.len(),
                ps@.len() == i,
                forall|p: int| 0 <= p < i ==> (#[trigger] ps@[p])@ == nb[p].pos,
            decreases self.birds@.len() - i,
        {
            ps.push(self.birds[i].pos);
            i += 1;
        }
        self.tree = SpatialIndex::build(&ps);
        proof {
            assert(self.tree@ =~= positions(nb));
        }

        let mut new_birds: Vec<Boid> = Vec::new();
        let mut i: usize = 0;
        while i < self.birds.len()
            invariant
                nb == bview(self.birds@),
                np == bview(self.predators@),
                boids_ok(nb),
                boids_ok(np),
                self.predators@.len() <= 4096,
                self.tree@ == positions(nb),
                settings_ok(settings@),
                viewport_ok(width as int, height as int),
                0 <= dt <= 100,
                dt == clamp_dt(delta as int),
                i <= self.birds@.len(),
                new_birds@.len() == i,
                forall|p: int|
                    0 <= p < i ==> (#[trigger] new_birds@[p])@ == g_update_prey(
                        nb[p],
                        nb,
                        np,
                        settings@,
                        dt as int,
                        width as int,
                        height as int,
                    ),
            decreases self.birds@.len() - i,
        {
            proof {
                assert(nb[i as int] == self.birds@[i as int]@);
                assert(boid_ok(nb[i as int]));
            }
            let b = self.birds[i].update_prey(
                &self.birds,
                &self.predators,
                &self.tree,
                settings,
                dt,
                width,
                height,
            );
            new_birds.push(b);
            i += 1;
        }

        let mut new_preds: Vec<Boid> = Vec::new();
        let mut i: usize = 0;
        while i < self.predators.len()
            invariant
                nb == bview(self.birds@),
                np == bview(self.predators@),
                boids_ok(nb),
                boids_ok(np),
                self.tree@ == positions(nb),
                settings_ok(settings@),
                viewport_ok(width as int, height as int),
                0 <= dt <= 100,
                dt == clamp_dt(delta as int),
                i <= self.predators@.len(),
                new_preds@.len() == i,
                forall|p: int|
                    0 <= p < i ==> (#[trigger] new_preds@[p])@ == g_update_predator(
                        np[p],
                        nb,
                        settings@,
                        dt as int,
                        width as int,
                        height as int,
                    ),
            decreases self.predators@.len() - i,
        {
            proof {
                assert(np[i as int] == self.predators@[i as int]@);
                assert(boid_ok(np[i as int]));
            }
            let b = self.predators[i].update_predator(
                &self.birds,
                &self.predators,
                &self.tree,
                settings,
                dt,
                width,
                height,
            );
            new_preds.push(b);
            i += 1;
        }

        self.birds = new_birds;
        self.predators = new_preds;
        proof {
            assert(bview(self.birds@) =~= stepped(
                nb,
                np,
                settings@,
                dt as int,
                width as int,
                height as int,
            ));
            assert(bview(self.predators@) =~= stepped_preds(
                nb,
                np,
                settings@,
                dt as int,
                width as int,
                height as int,
            ));
            assert(update_rel_wit(
                old(self)@,
                settings@,
                width as int,
                height as int,
                delta as int,
                self@,
                nb,
                np,
            ));
        }
    }
}

} // verus!
