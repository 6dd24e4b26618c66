//! Flock-wide guarantees, stated once and proved for every input.

use vstd::prelude::*;
use crate::fx::{smul, imax};
use crate::vec2::{Gv2, gv, gv_sqlen, gv_len, gv_norz, gv_scale};
use crate::index::{knn, imin, lemma_knn_props};
use crate::settings::GSettings;
use crate::boids::{GBoid, GFlock, positions, g_neighbor_force, g_predator_force, g_speed_force,
    g_wall_force, reconciled, fresh_boid, update_rel_wit};

verus! {

/// An agent with no neighbours feels no neighbour force: nothing is
/// accumulated and the count never divides.
pub proof fn lemma_empty_neighbors_no_force(me: GBoid, birds: Seq<GBoid>, s: GSettings)
    ensures
        g_neighbor_force(me, birds, Seq::empty(), s) == gv(0, 0),
{
}

/// Querying an index built over an empty population yields no
/// neighbours, so the neighbour force is exactly zero.
pub proof fn lemma_empty_population_no_force(me: GBoid, s: GSettings, k: int)
    requires
        0 <= k,
    ensures
        g_neighbor_force(
            me,
            Seq::empty(),
            knn(positions(Seq::empty()), me.pos, k),
            s,
        ) == gv(0, 0),
{
    lemma_knn_props(positions(Seq::<GBoid>::empty()), me.pos, k);
}

/// With no predator, the predator-avoidance force is exactly zero.
pub proof fn lemma_no_predators_no_force(me: GBoid)
    ensures
        g_predator_force(me, Seq::empty()) == gv(0, 0),
{
}

/// A standing agent gets no speed-matching force, whatever the target
/// speed: the normalised zero vector is zero, so there is no direction
/// to push along.
pub proof fn lemma_zero_velocity_no_speed_force(target_speed: int, speed_weight: int)
    ensures
        g_speed_force(gv(0, 0), target_speed, speed_weight) == gv(0, 0),
{
    let z = gv(0, 0);
    assert(gv_sqlen(z) == 0);
    assert(gv_len(z) == 0);
    assert(gv_norz(z) == z);
    let m = smul(smul(target_speed * 15 - 0, speed_weight), 400);
    assert(0 * m == 0) by (nonlinear_arith);
    assert(gv_scale(z, m) == z);
}

/// A position at least 50 units from every viewport edge feels no
/// boundary force.
pub proof fn lemma_wall_force_zero_in_interior(pos: Gv2, w: int, h: int)
    requires
        50_000 <= pos.x <= w - 50_000,
        50_000 <= pos.y <= h - 50_000,
    ensures
        g_wall_force(pos, w, h) == gv(0, 0),
{
}

/// A position within the 50-unit margin feels a boundary force that
/// points strictly toward the interior, axis by axis (for a viewport
/// at least 100 units wide and high, where the margins do not overlap).
pub proof fn lemma_wall_force_inward(pos: Gv2, w: int, h: int)
    requires
        100_000 <= w,
        100_000 <= h,
    ensures
        pos.x < 50_000 ==> g_wall_force(pos, w, h).x > 0,
        pos.x > w - 50_000 ==> g_wall_force(pos, w, h).x < 0,
        pos.y < 50_000 ==> g_wall_force(pos, w, h).y > 0,
        pos.y > h - 50_000 ==> g_wall_force(pos, w, h).y < 0,
{
}

/// Growing a population from `n` to a target `m > n` keeps the first
/// `n` agents untouched and adds exactly `m - n` agents, each placed
/// within the viewport box.
pub proof fn lemma_resize_up_adds_fresh(
    olds: Seq<GBoid>,
    target: int,
    w: int,
    h: int,
    news: Seq<GBoid>,
)
    requires
        reconciled(olds, target, w, h, news),
        olds.len() < target,
    ensures
        news.len() == target,
        forall|i: int| 0 <= i < olds.len() ==> news[i] == olds[i],
        forall|i: int|
            olds.len() <= i < news.len() ==> 0 <= (#[trigger] news[i]).pos.x <= w && 0
                <= news[i].pos.y <= h,
{
    assert forall|i: int|
        olds.len() <= i < news.len() implies 0 <= (#[trigger] news[i]).pos.x <= w && 0
        <= news[i].pos.y <= h by {
        assert(fresh_boid(news[i], w, h));
    }
}

/// A paused step moves nothing: after reconciliation the populations
/// are carried over unchanged, so every surviving agent keeps its
/// position and velocity, and the index is left alone.
pub proof fn lemma_paused_step_keeps_agents(
    pre: GFlock,
    s: GSettings,
    w: int,
    h: int,
    dt: int,
    post: GFlock,
    nb: Seq<GBoid>,
    np: Seq<GBoid>,
)
    requires
        update_rel_wit(pre, s, w, h, dt, post, nb, np),
        s.paused,
    ensures
        post.birds == nb,
        post.predators == np,
        post.tree == pre.tree,
        forall|i: int|
            0 <= i < imin(pre.birds.len() as int, imax(s.population, 0)) ==> post.birds[i]
                == pre.birds[i],
        forall|i: int|
            0 <= i < imin(
                pre.predators.len() as int,
                crate::boids::pred_target(pre.predators.len() as int, s.predator),
            ) ==> post.predators[i] == pre.predators[i],
{
}

} // verus!
