//! Collision, merging and despawning of masses, and the gravity integrator.
use vstd::prelude::*;

use crate::protocol::{index_of, lemma_index_of};
use crate::registry::{lemma_remove_keeps, lemma_update_keeps_ids, Body, MassRegistry};
use crate::world::{
    has_id, ids_unique, is_radius_of, lemma_cube_monotone, mass_of_radius,
    mass_to_radius, Vec3, RADIUS_LIMIT,
};

verus! {

/// Bound on every coordinate of a position.
pub const COORD_LIMIT: i64 = 0x100_0000_0000;

/// Bound on every component of a velocity.
pub const SPEED_LIMIT: i64 = 0x100_0000_0000;

/// Bound on the total mass of a world.
pub const MASS_LIMIT: u128 = 0x1_0000_0000_0000_0000;

/// Division rounding toward zero.
pub open spec fn trunc_div(a: int, b: int) -> int {
    if a >= 0 {
        a / b
    } else {
        -((-a) / b)
    }
}

/// The sum of `f` over the entries of a registry.
pub open spec fn sum_of(s: Seq<(u64, Body)>, f: spec_fn(Body) -> int) -> int
    decreases s.len(),
{
    if s.len() == 0 {
        0
    } else {
        sum_of(s.drop_last(), f) + f(s.last().1)
    }
}

pub open spec fn mass_fn() -> spec_fn(Body) -> int {
    |b: Body| b.mass as int
}

pub open spec fn momentum_x() -> spec_fn(Body) -> int {
    |b: Body| b.mass * b.velocity.x
}

pub open spec fn momentum_y() -> spec_fn(Body) -> int {
    |b: Body| b.mass * b.velocity.y
}

pub open spec fn momentum_z() -> spec_fn(Body) -> int {
    |b: Body| b.mass * b.velocity.z
}

pub open spec fn total_mass(s: Seq<(u64, Body)>) -> int {
    sum_of(s, mass_fn())
}

/// Replacing one entry changes a sum by the difference of the two terms.
pub proof fn lemma_sum_update(s: Seq<(u64, Body)>, f: spec_fn(Body) -> int, i: int, e: (u64, Body))
    requires
        0 <= i < s.len(),
    ensures
        sum_of(s.update(i, e), f) == sum_of(s, f) - f(s[i].1) + f(e.1),
    decreases s.len(),
{
    let t = s.update(i, e);
    if i == s.len() - 1 {
        assert(t.drop_last() =~= s.drop_last());
    } else {
        lemma_sum_update(s.drop_last(), f, i, e);
        assert(t.drop_last() =~= s.drop_last().update(i, e));
    }
}

/// Removing one entry takes its term off a sum.
pub proof fn lemma_sum_remove(s: Seq<(u64, Body)>, f: spec_fn(Body) -> int, i: int)
    requires
        0 <= i < s.len(),
    ensures
        sum_of(s.remove(i), f) == sum_of(s, f) - f(s[i].1),
    decreases s.len(),
{
    let t = s.remove(i);
    if i == s.len() - 1 {
        assert(t =~= s.drop_last());
    } else {
        lemma_sum_remove(s.drop_last(), f, i);
        assert(t.drop_last() =~= s.drop_last().remove(i));
        assert(t.last() == s.last());
    }
}

/// No mass exceeds the total mass.
pub proof fn lemma_mass_le_total(s: Seq<(u64, Body)>, i: int)
    requires
        0 <= i < s.len(),
    ensures
        s[i].1.mass <= total_mass(s),
    decreases s.len(),
{
    lemma_total_nonneg(s.drop_last());
    if i < s.len() - 1 {
        lemma_mass_le_total(s.drop_last(), i);
    }
}

/// A total mass is never negative.
pub proof fn lemma_total_nonneg(s: Seq<(u64, Body)>)
    ensures
        total_mass(s) >= 0,
    decreases s.len(),
{
    if s.len() > 0 {
        lemma_total_nonneg(s.drop_last());
    }
}

/// Two distinct entries together weigh no more than the total.
pub proof fn lemma_two_le_total(s: Seq<(u64, Body)>, i: int, j: int)
    requires
        0 <= i < s.len(),
        0 <= j < s.len(),
        i != j,
    ensures
        s[i].1.mass + s[j].1.mass <= total_mass(s),
{
    lemma_sum_remove(s, mass_fn(), i);
    let r = s.remove(i);
    let jj = if j < i { j } else { j - 1 };
    assert(r[jj] == s[j]);
    lemma_mass_le_total(r, jj);
}

/// Whether a body lies within the bounds that keep the integrator's
/// arithmetic exact.
pub open spec fn body_in_bounds(b: Body) -> bool {
    &&& -COORD_LIMIT <= b.position.x <= COORD_LIMIT
    &&& -COORD_LIMIT <= b.position.y <= COORD_LIMIT
    &&& -COORD_LIMIT <= b.position.z <= COORD_LIMIT
    &&& -SPEED_LIMIT <= b.velocity.x <= SPEED_LIMIT
    &&& -SPEED_LIMIT <= b.velocity.y <= SPEED_LIMIT
    &&& -SPEED_LIMIT <= b.velocity.z <= SPEED_LIMIT
    &&& b.radius <= RADIUS_LIMIT
}

/// A registry the physics can advance: unique identifiers, bodies in
/// bounds, bounded total mass.
pub open spec fn physics_wf(s: Seq<(u64, Body)>) -> bool {
    &&& ids_unique(s)
    &&& forall|i: int| 0 <= i < s.len() ==> body_in_bounds(#[trigger] s[i].1)
    &&& total_mass(s) <= MASS_LIMIT
}

/// Whether, of two colliding masses, the first survives: an inhabitable
/// mass beats an uninhabitable one; otherwise the heavier wins, and of two
/// equally heavy masses the one with the smaller identifier.
pub open spec fn survives(a: (u64, Body), b: (u64, Body)) -> bool {
    if a.1.inhabitable != b.1.inhabitable {
        a.1.inhabitable
    } else if a.1.mass != b.1.mass {
        a.1.mass > b.1.mass
    } else {
        a.0 < b.0
    }
}

/// The radius of mass `m`.
pub open spec fn radius_of(m: int) -> int {
    choose|r: int| is_radius_of(r, m)
}

/// A radius of a mass is the radius of that mass: there is only one.
pub proof fn lemma_radius_of(m: int, r: int)
    requires
        is_radius_of(r, m),
    ensures
        radius_of(m) == r,
{
    let c = radius_of(m);
    assert(is_radius_of(c, m));
    if c < r {
        lemma_cube_monotone(c + 1, r);
    }
    if r < c {
        lemma_cube_monotone(r + 1, c);
    }
}

/// The velocity component of the merged body: total momentum over total
/// mass, rounded toward zero.
pub open spec fn merged_component(ma: int, va: int, mb: int, vb: int) -> int {
    if ma + mb == 0 {
        va
    } else {
        trunc_div(ma * va + mb * vb, ma + mb)
    }
}

/// The body left when `absorbed` merges into `survivor`: the masses add up,
/// the momenta add up, the survivor keeps its place, orientation, colour
/// and inhabitability, and the radius follows the new mass.
pub open spec fn merged_body(survivor: Body, absorbed: Body) -> Body {
    let m = survivor.mass + absorbed.mass;
    Body {
        mass: m as u128,
        radius: radius_of(m) as u64,
        velocity: Vec3 {
            x: merged_component(survivor.mass as int, survivor.velocity.x as int, absorbed.mass as int, absorbed.velocity.x as int) as i64,
            y: merged_component(survivor.mass as int, survivor.velocity.y as int, absorbed.mass as int, absorbed.velocity.y as int) as i64,
            z: merged_component(survivor.mass as int, survivor.velocity.z as int, absorbed.mass as int, absorbed.velocity.z as int) as i64,
        },
        ..survivor
    }
}

proof fn lemma_merged_component(ma: int, va: int, mb: int, vb: int)
    requires
        ma >= 0,
        mb >= 0,
        -SPEED_LIMIT <= va <= SPEED_LIMIT,
        -SPEED_LIMIT <= vb <= SPEED_LIMIT,
    ensures
        -SPEED_LIMIT <= merged_component(ma, va, mb, vb) <= SPEED_LIMIT,
        ma + mb > 0 ==> -(ma + mb) < ma * va + mb * vb - (ma + mb) * merged_component(ma, va, mb, vb) < ma + mb,
{
    if ma + mb > 0 {
        let m = ma + mb;
        let p = ma * va + mb * vb;
        let s = SPEED_LIMIT as int;
        assert(-m * s <= p <= m * s) by (nonlinear_arith)
            requires
                ma >= 0,
                mb >= 0,
                -s <= va <= s,
                -s <= vb <= s,
                m == ma + mb,
                p == ma * va + mb * vb,
        ;
        if p >= 0 {
            assert(p / m <= s) by (nonlinear_arith)
                requires
                    m > 0,
                    0 <= p <= m * s,
            ;
            assert(0 <= p - m * (p / m) < m) by (nonlinear_arith)
                requires
                    m > 0,
                    p >= 0,
            ;
            assert(p / m >= 0) by (nonlinear_arith)
                requires
                    m > 0,
                    p >= 0,
            ;
        } else {
            let q = -p;
            assert(q / m <= s) by (nonlinear_arith)
                requires
                    m > 0,
                    0 <= q <= m * s,
            ;
            assert(0 <= q - m * (q / m) < m) by (nonlinear_arith)
                requires
                    m > 0,
                    q >= 0,
            ;
            assert(q / m >= 0) by (nonlinear_arith)
                requires
                    m > 0,
                    q >= 0,
            ;
            let t = q / m;
            assert(m * (-t) == -(m * t)) by (nonlinear_arith);
            assert(merged_component(ma, va, mb, vb) == -t);
        }
    }
}

/// Merging conserves mass exactly and momentum up to the rounding of the
/// velocity: along every axis the survivor's momentum differs from the sum
/// of both momenta by less than one unit of velocity times the merged mass.
pub proof fn lemma_merge_conserves(survivor: Body, absorbed: Body)
    requires
        body_in_bounds(survivor),
        body_in_bounds(absorbed),
        survivor.mass + absorbed.mass > 0,
        survivor.mass + absorbed.mass <= MASS_LIMIT,
    ensures
        ({
            let m = merged_body(survivor, absorbed);
            let total = survivor.mass + absorbed.mass;
            &&& m.mass == total
            &&& -total < survivor.mass * survivor.velocity.x + absorbed.mass * absorbed.velocity.x
                - m.mass * m.velocity.x < total
            &&& -total < survivor.mass * survivor.velocity.y + absorbed.mass * absorbed.velocity.y
                - m.mass * m.velocity.y < total
            &&& -total < survivor.mass * survivor.velocity.z + absorbed.mass * absorbed.velocity.z
                - m.mass * m.velocity.z < total
            &&& body_in_bounds(m)
            &&& is_radius_of(m.radius as int, total)
        }),
{
    let (ma, mb) = (survivor.mass as int, absorbed.mass as int);
    lemma_merged_component(ma, survivor.velocity.x as int, mb, absorbed.velocity.x as int);
    lemma_merged_component(ma, survivor.velocity.y as int, mb, absorbed.velocity.y as int);
    lemma_merged_component(ma, survivor.velocity.z as int, mb, absorbed.velocity.z as int);
    lemma_radius_exists(ma + mb);
}

proof fn lemma_radius_exists(m: int)
    requires
        0 <= m <= MASS_LIMIT,
    ensures
        is_radius_of(radius_of(m), m),
        0 <= radius_of(m) <= 0x100_0000,
{
    assert(mass_of_radius(0x100_0001) > MASS_LIMIT);
    lemma_radius_search(m, 0, 0x100_0001);
    let c = radius_of(m);
    if c > 0x100_0000 {
        lemma_cube_monotone(0x100_0001, c);
    }
}

proof fn lemma_radius_search(m: int, lo: int, hi: int)
    requires
        0 <= lo < hi,
        mass_of_radius(lo) <= m,
        m < mass_of_radius(hi),
    ensures
        exists|r: int| is_radius_of(r, m),
    decreases hi - lo,
{
    if hi == lo + 1 {
        assert(is_radius_of(lo, m));
    } else {
        let mid = lo + (hi - lo) / 2;
        if mass_of_radius(mid) <= m {
            lemma_radius_search(m, mid, hi);
        } else {
            lemma_radius_search(m, lo, mid);
        }
    }
}

/// Division of a momentum by a positive mass, rounding toward zero.
fn velocity_of(p: i128, m: u128) -> (v: i64)
    requires
        0 < m <= MASS_LIMIT,
        -(m as int) * SPEED_LIMIT <= p <= (m as int) * SPEED_LIMIT,
    ensures
        v == trunc_div(p as int, m as int),
{
    let ghost s = SPEED_LIMIT as int;
    if p >= 0 {
        let q = (p as u128) / m;
        proof {
            assert(q <= s) by (nonlinear_arith)
                requires
                    m > 0,
                    0 <= p <= m * s,
                    q == (p as int) / (m as int),
            ;
        }
        q as i64
    } else {
        let a = (-p) as u128;
        let q = a / m;
        proof {
            assert(q <= s) by (nonlinear_arith)
                requires
                    m > 0,
                    0 <= a <= m * s,
                    q == (a as int) / (m as int),
            ;
        }
        -(q as i64)
    }
}

fn merged_component_exec(ma: u128, va: i64, mb: u128, vb: i64) -> (v: i64)
    requires
        ma + mb <= MASS_LIMIT,
        -SPEED_LIMIT <= va <= SPEED_LIMIT,
        -SPEED_LIMIT <= vb <= SPEED_LIMIT,
    ensures
        v == merged_component(ma as int, va as int, mb as int, vb as int),
{
    let m = ma + mb;
    if m == 0 {
        return va;
    }
    let ghost s = SPEED_LIMIT as int;
    proof {
        assert(-(ma * s) <= ma * va <= ma * s) by (nonlinear_arith)
            requires
                -s <= va <= s,
                ma >= 0,
        ;
        assert(-(mb * s) <= mb * vb <= mb * s) by (nonlinear_arith)
            requires
                -s <= vb <= s,
                mb >= 0,
        ;
        assert(ma * s <= MASS_LIMIT * s && mb * s <= MASS_LIMIT * s) by (nonlinear_arith)
            requires
                ma <= MASS_LIMIT,
                mb <= MASS_LIMIT,
                s > 0,
        ;
        assert((ma + mb) * s == ma * s + mb * s) by (nonlinear_arith);
    }
    let p = (ma as i128) * (va as i128) + (mb as i128) * (vb as i128);
    velocity_of(p, m)
}

/// The body left when `absorbed` merges into `survivor`.
pub fn merge_bodies(survivor: &Body, absorbed: &Body) -> (r: Body)
    requires
        body_in_bounds(*survivor),
        body_in_bounds(*absorbed),
        survivor.mass + absorbed.mass <= MASS_LIMIT,
    ensures
        r == merged_body(*survivor, *absorbed),
{
    let m = survivor.mass + absorbed.mass;
    let radius = mass_to_radius(m);
    proof {
        lemma_radius_of(m as int, radius as int);
    }
    Body {
        mass: m,
        radius,
        velocity: Vec3 {
            x: merged_component_exec(survivor.mass, survivor.velocity.x, absorbed.mass, absorbed.velocity.x),
            y: merged_component_exec(survivor.mass, survivor.velocity.y, absorbed.mass, absorbed.velocity.y),
            z: merged_component_exec(survivor.mass, survivor.velocity.z, absorbed.mass, absorbed.velocity.z),
        },
        ..*survivor
    }
}

/// Notice that a mass has left the world.
#[derive(Clone, Copy, Debug, PartialEq, Eq, Structural)]
pub struct DespawnMassEvent {
    pub mass_id: u64,
}

/// The registry after `absorbed` merged into `survivor`: the survivor's
/// entry holds the merged body and the absorbed entry is gone.
pub open spec fn merge_in(s: Seq<(u64, Body)>, survivor: u64, absorbed: u64) -> Seq<(u64, Body)> {
    s.update(
        index_of(s, survivor),
        (survivor, merged_body(s[index_of(s, survivor)].1, s[index_of(s, absorbed)].1)),
    ).remove(index_of(s, absorbed))
}

/// Of live masses `a` and `b`, the one that survives their merge.
pub open spec fn survivor_of(s: Seq<(u64, Body)>, a: u64, b: u64) -> u64 {
    if survives(s[index_of(s, a)], s[index_of(s, b)]) {
        a
    } else {
        b
    }
}

fn survives_exec(a: &(u64, Body), b: &(u64, Body)) -> (r: bool)
    ensures
        r == survives(*a, *b),
{
    if a.1.inhabitable != b.1.inhabitable {
        a.1.inhabitable
    } else if a.1.mass != b.1.mass {
        a.1.mass > b.1.mass
    } else {
        a.0 < b.0
    }
}

proof fn lemma_zero_product(m: int, v: int)
    requires
        m == 0,
    ensures
        m * v == 0,
{
}

/// A momentum difference left by merging into total mass `m`: less than one
/// unit of velocity times `m` either way, and none at all when `m` is zero.
pub open spec fn within_merge_rounding(diff: int, m: int) -> bool {
    -m < diff < m || (m == 0 && diff == 0)
}

/// Merging live mass `xid` into live mass `sid` keeps a world within the
/// physics bounds, keeps its total mass, moves its total momentum along
/// every axis by less than the two masses together, and removes exactly
/// `xid`.
pub proof fn lemma_merge_in(s: Seq<(u64, Body)>, sid: u64, xid: u64)
    requires
        physics_wf(s),
        has_id(s, sid),
        has_id(s, xid),
        sid != xid,
    ensures
        ({
            let t = merge_in(s, sid, xid);
            let ms = s[index_of(s, sid)].1.mass + s[index_of(s, xid)].1.mass;
            &&& physics_wf(t)
            &&& total_mass(t) == total_mass(s)
            &&& within_merge_rounding(sum_of(s, momentum_x()) - sum_of(t, momentum_x()), ms)
            &&& within_merge_rounding(sum_of(s, momentum_y()) - sum_of(t, momentum_y()), ms)
            &&& within_merge_rounding(sum_of(s, momentum_z()) - sum_of(t, momentum_z()), ms)
            &&& has_id(t, sid)
            &&& !has_id(t, xid)
            &&& forall|k: u64| k != xid ==> (has_id(t, k) <==> has_id(s, k))
        }),
{
    lemma_index_of(s, sid);
    lemma_index_of(s, xid);
    let hs = index_of(s, sid);
    let hx = index_of(s, xid);
    let a = s[hs].1;
    let b = s[hx].1;
    lemma_two_le_total(s, hs, hx);
    lemma_total_nonneg(s);
    let mb = merged_body(a, b);
    let u = s.update(hs, (sid, mb));
    let t = u.remove(hx);
    if a.mass + b.mass > 0 {
        lemma_merge_conserves(a, b);
    } else {
        lemma_radius_exists(0);
        assert(mb.velocity == a.velocity);
    }
    lemma_update_keeps_ids(s, hs, (sid, mb));
    lemma_remove_keeps(u, hx);
    assert(u[hx] == s[hx]);
    lemma_sum_update(s, mass_fn(), hs, (sid, mb));
    lemma_sum_remove(u, mass_fn(), hx);
    lemma_sum_update(s, momentum_x(), hs, (sid, mb));
    lemma_sum_remove(u, momentum_x(), hx);
    lemma_sum_update(s, momentum_y(), hs, (sid, mb));
    lemma_sum_remove(u, momentum_y(), hx);
    lemma_sum_update(s, momentum_z(), hs, (sid, mb));
    lemma_sum_remove(u, momentum_z(), hx);
    assert(momentum_x()(a) + momentum_x()(b) - momentum_x()(mb) == a.mass * a.velocity.x
        + b.mass * b.velocity.x - mb.mass * mb.velocity.x);
    assert(momentum_y()(a) + momentum_y()(b) - momentum_y()(mb) == a.mass * a.velocity.y
        + b.mass * b.velocity.y - mb.mass * mb.velocity.y);
    assert(momentum_z()(a) + momentum_z()(b) - momentum_z()(mb) == a.mass * a.velocity.z
        + b.mass * b.velocity.z - mb.mass * mb.velocity.z);
    if a.mass + b.mass == 0 {
        assert(a.mass == 0 && b.mass == 0);
        lemma_zero_product(a.mass as int, a.velocity.x as int);
        lemma_zero_product(b.mass as int, b.velocity.x as int);
        lemma_zero_product(a.mass as int, a.velocity.y as int);
        lemma_zero_product(b.mass as int, b.velocity.y as int);
        lemma_zero_product(a.mass as int, a.velocity.z as int);
        lemma_zero_product(b.mass as int, b.velocity.z as int);
    }
    assert forall|i: int| 0 <= i < t.len() implies body_in_bounds(#[trigger] t[i].1) by {
        let j = if i < hx { i } else { i + 1 };
        assert(t[i] == u[j]);
        if j != hs {
            assert(u[j] == s[j]);
        }
    }
    assert(u[hs].0 == sid);
    let hs2 = if hs < hx { hs } else { hs - 1 };
    assert(t[hs2].0 == sid);
}

/// Merges colliding masses `a` and `b`: the survivor takes the merged body,
/// the absorbed mass leaves the registry, and its despawn is reported.
/// Nothing happens unless both are live and distinct.
pub fn merge_masses(registry: &mut MassRegistry, a: u64, b: u64) -> (r: Option<DespawnMassEvent>)
    requires
        physics_wf(old(registry)@),
    ensures
        physics_wf(final(registry)@),
        total_mass(final(registry)@) == total_mass(old(registry)@),
        match r {
            Some(ev) => {
                let s = old(registry)@;
                let sid = survivor_of(s, a, b);
                &&& a != b && has_id(s, a) && has_id(s, b)
                &&& ev.mass_id == (if sid == a { b } else { a })
                &&& final(registry)@ == merge_in(s, sid, ev.mass_id)
            },
            None => (a == b || !has_id(old(registry)@, a) || !has_id(old(registry)@, b))
                && final(registry)@ == old(registry)@,
        },
{
    if a == b {
        return None;
    }
    let ha = match registry.lookup(a) {
        Some(h) => h,
        None => return None,
    };
    let hb = match registry.lookup(b) {
        Some(h) => h,
        None => return None,
    };
    let ea = registry.masses[ha];
    let eb = registry.masses[hb];
    proof {
        lemma_two_le_total(registry@, ha as int, hb as int);
        lemma_total_nonneg(registry@);
        lemma_merge_in(registry@, a, b);
        lemma_merge_in(registry@, b, a);
    }
    let (hs, s, hx, x) = if survives_exec(&ea, &eb) {
        (ha, ea, hb, eb)
    } else {
        (hb, eb, ha, ea)
    };
    let merged = merge_bodies(&s.1, &x.1);
    registry.masses.set(hs, (s.0, merged));
    registry.masses.remove(hx);
    Some(DespawnMassEvent { mass_id: x.0 })
}

/// Removes a despawned mass and whatever is keyed by it in the registry;
/// despawning a mass that is already gone changes nothing.
pub fn handle_despawn_mass(registry: &mut MassRegistry, event: DespawnMassEvent)
    requires
        physics_wf(old(registry)@),
    ensures
        physics_wf(final(registry)@),
        !has_id(final(registry)@, event.mass_id),
        forall|k: u64| k != event.mass_id ==> (has_id(final(registry)@, k) <==> has_id(old(registry)@, k)),
        total_mass(final(registry)@) <= total_mass(old(registry)@),
        !has_id(old(registry)@, event.mass_id) ==> final(registry)@ == old(registry)@,
{
    proof {
        lemma_index_of(registry@, event.mass_id);
    }
    let ghost s = registry@;
    let removed = registry.remove(event.mass_id);
    proof {
        if removed is Some {
            let h = index_of(s, event.mass_id);
            lemma_sum_remove(s, mass_fn(), h);
            assert forall|i: int| 0 <= i < registry@.len() implies body_in_bounds(
                #[trigger] registry@[i].1,
            ) by {
                let j = if i < h { i } else { i + 1 };
                assert(registry@[i] == s[j]);
            }
        }
    }
}

pub open spec fn vsub(a: Vec3, b: Vec3) -> (int, int, int) {
    (a.x - b.x, a.y - b.y, a.z - b.z)
}

pub open spec fn norm_sq(d: (int, int, int)) -> int {
    d.0 * d.0 + d.1 * d.1 + d.2 * d.2
}

/// Whether two spheres touch or overlap.
pub open spec fn touching(a: Body, b: Body) -> bool {
    norm_sq(vsub(a.position, b.position)) <= (a.radius + b.radius) * (a.radius + b.radius)
}

proof fn lemma_square_bound(d: int, l: int)
    requires
        -l <= d <= l,
    ensures
        0 <= d * d <= l * l,
{
    assert(0 <= d * d <= l * l) by (nonlinear_arith)
        requires
            -l <= d <= l,
    ;
}

fn touching_exec(a: &Body, b: &Body) -> (r: bool)
    requires
        body_in_bounds(*a),
        body_in_bounds(*b),
    ensures
        r == touching(*a, *b),
{
    let dx = (a.position.x as i128) - (b.position.x as i128);
    let dy = (a.position.y as i128) - (b.position.y as i128);
    let dz = (a.position.z as i128) - (b.position.z as i128);
    proof {
        let l = 2 * COORD_LIMIT as int;
        lemma_square_bound(dx as int, l);
        lemma_square_bound(dy as int, l);
        lemma_square_bound(dz as int, l);
        assert((a.radius + b.radius) * (a.radius + b.radius) <= 0x400_0000_0000 * 0x400_0000_0000) by (nonlinear_arith)
            requires
                0 <= a.radius + b.radius <= 0x400_0000_0000,
        ;
    }
    let rs = (a.radius as i128) + (b.radius as i128);
    dx * dx + dy * dy + dz * dz <= rs * rs
}

/// Whether `p` names two masses of the registry, the first listed before
/// the second, that touch.
pub open spec fn touching_pair(reg: Seq<(u64, Body)>, p: (u64, u64)) -> bool {
    exists|i: int, j: int|
        0 <= i < j < reg.len() && reg[i].0 == p.0 && reg[j].0 == p.1 && touching(reg[i].1, reg[j].1)
}

/// The pairs of live masses that touch, as (earlier, later) in registry order.
pub fn detect_collisions(registry: &MassRegistry) -> (r: Vec<(u64, u64)>)
    requires
        physics_wf(registry@),
    ensures
        forall|k: int| 0 <= k < r@.len() ==> touching_pair(registry@, #[trigger] r@[k]),
        forall|i: int, j: int|
            0 <= i < j < registry@.len() && touching(registry@[i].1, registry@[j].1) ==> r@.contains(
                (registry@[i].0, registry@[j].0),
            ),
{
    let n = registry.masses.len();
    let mut pairs: Vec<(u64, u64)> = Vec::new();
    let mut i: usize = 0;
    while i < n
        invariant
            n == registry@.len(),
            physics_wf(registry@),
            i <= n,
            forall|k: int| 0 <= k < pairs@.len() ==> touching_pair(registry@, #[trigger] pairs@[k]),
            forall|a: int, b: int|
                0 <= a < i && a < b < n && touching(registry@[a].1, registry@[b].1)
                    ==> pairs@.contains((registry@[a].0, registry@[b].0)),
        decreases n - i,
    {
        let mut j: usize = i + 1;
        while j < n
            invariant
                n == registry@.len(),
                physics_wf(registry@),
                i < n,
                i + 1 <= j <= n,
                forall|k: int| 0 <= k < pairs@.len() ==> touching_pair(registry@, #[trigger] pairs@[k]),
                forall|a: int, b: int|
                    0 <= a < i && a < b < n && touching(registry@[a].1, registry@[b].1)
                        ==> pairs@.contains((registry@[a].0, registry@[b].0)),
                forall|b: int|
                    i < b < j && touching(registry@[i as int].1, registry@[b].1) ==> pairs@.contains(
                        (registry@[i as int].0, registry@[b].0),
                    ),
            decreases n - j,
        {
            let ei = &registry.masses[i];
            let ej = &registry.masses[j];
            if touching_exec(&ei.1, &ej.1) {
                let ghost before = pairs@;
                proof {
                    assert(0 <= i < j < registry@.len() && registry@[i as int].0 == ei.0
                        && registry@[j as int].0 == ej.0);
                    assert(touching_pair(registry@, (ei.0, ej.0)));
                }
                pairs.push((ei.0, ej.0));
                proof {
                    assert(pairs@[before.len() as int] == (ei.0, ej.0));
                    assert forall|x: (u64, u64)| before.contains(x) implies pairs@.contains(x) by {
                        let k = choose|k: int| 0 <= k < before.len() && before[k] == x;
                        assert(pairs@[k] == x);
                    }
                    assert forall|k: int| 0 <= k < pairs@.len() implies touching_pair(
                        registry@,
                        #[trigger] pairs@[k],
                    ) by {
                        if k < before.len() {
                            assert(pairs@[k] == before[k]);
                        }
                    }
                }
            }
            j = j + 1;
        }
        i = i + 1;
    }
    pairs
}

/// One collision of a tick: merges the pair when both masses are live and
/// distinct, reporting the absorbed one; otherwise nothing.
pub open spec fn merge_step(s: Seq<(u64, Body)>, p: (u64, u64)) -> (Seq<(u64, Body)>, Option<u64>) {
    if p.0 != p.1 && has_id(s, p.0) && has_id(s, p.1) {
        let sid = survivor_of(s, p.0, p.1);
        let xid = if sid == p.0 { p.1 } else { p.0 };
        (merge_in(s, sid, xid), Some(xid))
    } else {
        (s, None)
    }
}

/// The collisions of a tick merged in order, with the absorbed masses in
/// order.
pub open spec fn merge_pairs(s: Seq<(u64, Body)>, pairs: Seq<(u64, u64)>) -> (Seq<(u64, Body)>, Seq<u64>)
    decreases pairs.len(),
{
    if pairs.len() == 0 {
        (s, Seq::empty())
    } else {
        let prev = merge_pairs(s, pairs.drop_last());
        let next = merge_step(prev.0, pairs.last());
        (
            next.0,
            match next.1 {
                Some(x) => prev.1.push(x),
                None => prev.1,
            },
        )
    }
}

/// For any sequence of collisions, merging keeps the total mass of the world
/// exactly, and along every axis moves its total momentum by less than one
/// unit of velocity times the total mass for each merge that happens.
pub proof fn lemma_merges_conserve(s: Seq<(u64, Body)>, pairs: Seq<(u64, u64)>)
    requires
        physics_wf(s),
    ensures
        ({
            let r = merge_pairs(s, pairs);
            let bound = total_mass(s) * r.1.len();
            &&& physics_wf(r.0)
            &&& total_mass(r.0) == total_mass(s)
            &&& -bound <= sum_of(s, momentum_x()) - sum_of(r.0, momentum_x()) <= bound
            &&& -bound <= sum_of(s, momentum_y()) - sum_of(r.0, momentum_y()) <= bound
            &&& -bound <= sum_of(s, momentum_z()) - sum_of(r.0, momentum_z()) <= bound
        }),
    decreases pairs.len(),
{
    if pairs.len() > 0 {
        lemma_merges_conserve(s, pairs.drop_last());
        let prev = merge_pairs(s, pairs.drop_last());
        let p = pairs.last();
        let t = prev.0;
        let k = prev.1.len();
        let m = total_mass(s);
        lemma_total_nonneg(s);
        if p.0 != p.1 && has_id(t, p.0) && has_id(t, p.1) {
            let sid = survivor_of(t, p.0, p.1);
            let xid = if sid == p.0 { p.1 } else { p.0 };
            lemma_merge_in(t, sid, xid);
            lemma_index_of(t, sid);
            lemma_index_of(t, xid);
            lemma_two_le_total(t, index_of(t, sid), index_of(t, xid));
            assert(m * (k + 1) == m * k + m) by (nonlinear_arith);
        }
    }
}

/// Merges the colliding pairs of one tick in order. A pair one of whose
/// masses has already merged away is passed over. Returns the despawn of
/// every absorbed mass; the total mass of the world does not change.
pub fn handle_mass_collisions(registry: &mut MassRegistry, pairs: &Vec<(u64, u64)>) -> (r: Vec<
    DespawnMassEvent,
>)
    requires
        physics_wf(old(registry)@),
    ensures
        physics_wf(final(registry)@),
        final(registry)@ == merge_pairs(old(registry)@, pairs@).0,
        r@.map_values(|e: DespawnMassEvent| e.mass_id) == merge_pairs(old(registry)@, pairs@).1,
        total_mass(final(registry)@) == total_mass(old(registry)@),
        forall|k: int| 0 <= k < r@.len() ==> !has_id(final(registry)@, #[trigger] r@[k].mass_id),
        forall|id: u64| has_id(final(registry)@, id) ==> has_id(old(registry)@, id),
{
    let mut events: Vec<DespawnMassEvent> = Vec::new();
    let mut k: usize = 0;
    while k < pairs.len()
        invariant
            k <= pairs@.len(),
            physics_wf(registry@),
            registry@ == merge_pairs(old(registry)@, pairs@.subrange(0, k as int)).0,
            events@.map_values(|e: DespawnMassEvent| e.mass_id) == merge_pairs(
                old(registry)@,
                pairs@.subrange(0, k as int),
            ).1,
            total_mass(registry@) == total_mass(old(registry)@),
            forall|q: int| 0 <= q < events@.len() ==> !has_id(registry@, #[trigger] events@[q].mass_id),
            forall|id: u64| has_id(registry@, id) ==> has_id(old(registry)@, id),
        decreases pairs@.len() - k,
    {
        let (a, b) = pairs[k];
        let ghost before = registry@;
        let ghost before_events = events@;
        proof {
            assert(pairs@.subrange(0, k + 1).drop_last() =~= pairs@.subrange(0, k as int));
            assert(pairs@.subrange(0, k + 1).last() == (a, b));
        }
        match merge_masses(registry, a, b) {
            Some(ev) => {
                proof {
                    let sid = survivor_of(before, a, b);
                    lemma_merge_in(before, sid, ev.mass_id);
                }
                events.push(ev);
                proof {
                    assert(events@.map_values(|e: DespawnMassEvent| e.mass_id) =~= before_events.map_values(
                        |e: DespawnMassEvent| e.mass_id,
                    ).push(ev.mass_id));
                }
            },
            None => {},
        }
        k = k + 1;
    }
    proof {
        assert(pairs@.subrange(0, k as int) =~= pairs@);
    }
    events
}

/// Separations below this count as this when computing attraction.
pub const MIN_SEPARATION: i128 = 1000;

/// Bound on the duration of one integrator substep, in milliseconds.
pub const DT_LIMIT: u64 = 1024;

pub open spec fn is_sqrt(r: int, n: int) -> bool {
    0 <= r && r * r <= n < (r + 1) * (r + 1)
}

pub open spec fn sqrt_of(n: int) -> int {
    choose|r: int| is_sqrt(r, n)
}

proof fn lemma_sqrt_unique(n: int, r: int)
    requires
        is_sqrt(r, n),
    ensures
        sqrt_of(n) == r,
{
    let c = sqrt_of(n);
    assert(is_sqrt(c, n));
    if c < r {
        assert((c + 1) * (c + 1) <= r * r) by (nonlinear_arith)
            requires
                0 <= c < r,
        ;
    }
    if r < c {
        assert((r + 1) * (r + 1) <= c * c) by (nonlinear_arith)
            requires
                0 <= r < c,
        ;
    }
}

/// The square root of `n`, rounded down.
fn isqrt(n: u128) -> (r: u128)
    requires
        n < 0x10_0000_0000_0000_0000_0000,
    ensures
        is_sqrt(r as int, n as int),
        r < 0x400_0000_0000,
{
    let mut lo: u128 = 0;
    let mut hi: u128 = 0x400_0000_0000;
    while hi - lo > 1
        invariant
            lo < hi <= 0x400_0000_0000,
            lo * lo <= n,
            n < hi * hi,
        decreases hi - lo,
    {
        let mid = lo + (hi - lo) / 2;
        proof {
            assert(mid * mid <= 0x400_0000_0000 * 0x400_0000_0000) by (nonlinear_arith)
                requires
                    mid <= 0x400_0000_0000,
            ;
        }
        if mid * mid <= n {
            lo = mid;
        } else {
            hi = mid;
        }
    }
    assert(hi == lo + 1);
    lo
}

/// The separation gravity uses between two positions: their distance,
/// rounded down, but never below `MIN_SEPARATION`.
pub open spec fn separation(a: Vec3, b: Vec3) -> int {
    let r = sqrt_of(norm_sq(vsub(b, a)));
    if r < MIN_SEPARATION {
        MIN_SEPARATION as int
    } else {
        r
    }
}

/// Speed gained along one axis over `dt` milliseconds from the attraction
/// of mass `m` at offset `d` and separation `dist`: `m · d · dt / dist³`,
/// per thousand.
pub open spec fn pull(m: int, d: int, dist: int, dt: int) -> int {
    trunc_div(trunc_div(m * d * dt, dist * dist * dist), 1000)
}

pub open spec fn clamp_speed(v: int) -> int {
    if v < -SPEED_LIMIT {
        -SPEED_LIMIT as int
    } else if v > SPEED_LIMIT {
        SPEED_LIMIT as int
    } else {
        v
    }
}

pub open spec fn clamp_coord(v: int) -> int {
    if v < -COORD_LIMIT {
        -COORD_LIMIT as int
    } else if v > COORD_LIMIT {
        COORD_LIMIT as int
    } else {
        v
    }
}

/// The velocity of mass `i` after the pulls of masses `0..j`, other than
/// itself, each added in turn and held to the speed bound.
pub open spec fn velocity_after(reg: Seq<(u64, Body)>, i: int, j: int, dt: int) -> Vec3
    decreases j,
{
    if j <= 0 {
        reg[i].1.velocity
    } else {
        let acc = velocity_after(reg, i, j - 1, dt);
        if j - 1 == i {
            acc
        } else {
            let a = reg[i].1.position;
            let b = reg[j - 1].1.position;
            let m = reg[j - 1].1.mass as int;
            let dist = separation(a, b);
            let d = vsub(b, a);
            Vec3 {
                x: clamp_speed(acc.x + pull(m, d.0, dist, dt)) as i64,
                y: clamp_speed(acc.y + pull(m, d.1, dist, dt)) as i64,
                z: clamp_speed(acc.z + pull(m, d.2, dist, dt)) as i64,
            }
        }
    }
}

/// One coordinate after moving at speed `v` for `dt` milliseconds, held to
/// the coordinate bound.
pub open spec fn moved(p: int, v: int, dt: int) -> int {
    clamp_coord(p + trunc_div(v * dt, 1000))
}

/// One integrator substep: every velocity takes the pull of every other
/// mass (none when gravity is off) at the positions the substep starts
/// from; then every mass moves at its new velocity.
pub open spec fn substep(reg: Seq<(u64, Body)>, dt: int, zerog: bool) -> Seq<(u64, Body)> {
    Seq::new(
        reg.len(),
        |i: int|
            {
                let b = reg[i].1;
                let v = if zerog {
                    b.velocity
                } else {
                    velocity_after(reg, i, reg.len() as int, dt)
                };
                (
                    reg[i].0,
                    Body {
                        velocity: v,
                        position: Vec3 {
                            x: moved(b.position.x as int, v.x as int, dt) as i64,
                            y: moved(b.position.y as int, v.y as int, dt) as i64,
                            z: moved(b.position.z as int, v.z as int, dt) as i64,
                        },
                        ..b
                    },
                )
            },
    )
}

/// `n` substeps in a row.
pub open spec fn substeps(reg: Seq<(u64, Body)>, n: nat, dt: int, zerog: bool) -> Seq<(u64, Body)>
    decreases n,
{
    if n == 0 {
        reg
    } else {
        substep(substeps(reg, (n - 1) as nat, dt, zerog), dt, zerog)
    }
}

proof fn lemma_same_masses(s: Seq<(u64, Body)>, t: Seq<(u64, Body)>)
    requires
        s.len() == t.len(),
        forall|i: int| 0 <= i < s.len() ==> (#[trigger] s[i]).1.mass == t[i].1.mass,
    ensures
        total_mass(s) == total_mass(t),
    decreases s.len(),
{
    if s.len() > 0 {
        lemma_same_masses(s.drop_last(), t.drop_last());
    }
}

proof fn lemma_velocity_after_bounds(reg: Seq<(u64, Body)>, i: int, j: int, dt: int)
    requires
        physics_wf(reg),
        0 <= i < reg.len(),
        j <= reg.len(),
    ensures
        -SPEED_LIMIT <= velocity_after(reg, i, j, dt).x <= SPEED_LIMIT,
        -SPEED_LIMIT <= velocity_after(reg, i, j, dt).y <= SPEED_LIMIT,
        -SPEED_LIMIT <= velocity_after(reg, i, j, dt).z <= SPEED_LIMIT,
    decreases j,
{
    assert(body_in_bounds(reg[i].1));
    if j > 0 {
        lemma_velocity_after_bounds(reg, i, j - 1, dt);
    }
}

/// A substep keeps identifiers, masses and the physics bounds.
pub proof fn lemma_substep_wf(reg: Seq<(u64, Body)>, dt: int, zerog: bool)
    requires
        physics_wf(reg),
    ensures
        physics_wf(substep(reg, dt, zerog)),
        total_mass(substep(reg, dt, zerog)) == total_mass(reg),
        forall|i: int| 0 <= i < reg.len() ==> (#[trigger] substep(reg, dt, zerog)[i]).0 == reg[i].0,
        substep(reg, dt, zerog).len() == reg.len(),
{
    let t = substep(reg, dt, zerog);
    lemma_same_masses(t, reg);
    assert forall|i: int| 0 <= i < t.len() implies body_in_bounds(#[trigger] t[i].1) by {
        assert(body_in_bounds(reg[i].1));
        lemma_velocity_after_bounds(reg, i, reg.len() as int, dt);
    }
    assert forall|i: int, j: int| 0 <= i < t.len() && 0 <= j < t.len() && i != j implies t[i].0
        != t[j].0 by {
        assert(t[i].0 == reg[i].0 && t[j].0 == reg[j].0);
    }
}

/// Any number of substeps keeps identifiers, masses and the physics bounds.
pub proof fn lemma_substeps_wf(reg: Seq<(u64, Body)>, n: nat, dt: int, zerog: bool)
    requires
        physics_wf(reg),
    ensures
        physics_wf(substeps(reg, n, dt, zerog)),
        total_mass(substeps(reg, n, dt, zerog)) == total_mass(reg),
        substeps(reg, n, dt, zerog).len() == reg.len(),
        forall|i: int| 0 <= i < reg.len() ==> (#[trigger] substeps(reg, n, dt, zerog)[i]).0 == reg[i].0,
    decreases n,
{
    if n > 0 {
        lemma_substeps_wf(reg, (n - 1) as nat, dt, zerog);
        lemma_substep_wf(substeps(reg, (n - 1) as nat, dt, zerog), dt, zerog);
    }
}

fn clamp_speed_exec(v: i128) -> (r: i64)
    ensures
        r == clamp_speed(v as int),
{
    if v < -(SPEED_LIMIT as i128) {
        -SPEED_LIMIT
    } else if v > SPEED_LIMIT as i128 {
        SPEED_LIMIT
    } else {
        v as i64
    }
}

fn trunc_div_i128(a: i128, b: i128) -> (q: i128)
    requires
        b > 0,
        a > i128::MIN,
    ensures
        q == trunc_div(a as int, b as int),
{
    if a >= 0 {
        a / b
    } else {
        -((-a) / b)
    }
}

proof fn lemma_trunc_div_small(a: int, b: int)
    requires
        b > 0,
    ensures
        a >= 0 ==> 0 <= trunc_div(a, b) <= a,
        a < 0 ==> a <= trunc_div(a, b) <= 0,
{
    if a >= 0 {
        assert(0 <= a / b <= a) by (nonlinear_arith)
            requires
                b > 0,
                a >= 0,
        ;
    } else {
        let c = -a;
        assert(0 <= c / b <= c) by (nonlinear_arith)
            requires
                b > 0,
                c >= 0,
        ;
    }
}

fn separation_exec(a: &Vec3, b: &Vec3) -> (r: i128)
    requires
        -COORD_LIMIT <= a.x <= COORD_LIMIT,
        -COORD_LIMIT <= a.y <= COORD_LIMIT,
        -COORD_LIMIT <= a.z <= COORD_LIMIT,
        -COORD_LIMIT <= b.x <= COORD_LIMIT,
        -COORD_LIMIT <= b.y <= COORD_LIMIT,
        -COORD_LIMIT <= b.z <= COORD_LIMIT,
    ensures
        r == separation(*a, *b),
        MIN_SEPARATION <= r < 0x400_0000_0000,
{
    let dx = (b.x as i128) - (a.x as i128);
    let dy = (b.y as i128) - (a.y as i128);
    let dz = (b.z as i128) - (a.z as i128);
    proof {
        let l = 2 * COORD_LIMIT as int;
        lemma_square_bound(dx as int, l);
        lemma_square_bound(dy as int, l);
        lemma_square_bound(dz as int, l);
        assert(dx * dx + dy * dy + dz * dz <= 3 * (l * l));
        assert(3 * (l * l) < 0x10_0000_0000_0000_0000_0000);
    }
    let n = (dx * dx + dy * dy + dz * dz) as u128;
    let r = isqrt(n);
    proof {
        lemma_sqrt_unique(n as int, r as int);
    }
    if (r as i128) < MIN_SEPARATION {
        MIN_SEPARATION
    } else {
        r as i128
    }
}

fn pull_exec(m: u128, d: i128, dist: i128, dt: u64) -> (r: i128)
    requires
        m <= MASS_LIMIT,
        -2 * COORD_LIMIT <= d <= 2 * COORD_LIMIT,
        MIN_SEPARATION <= dist < 0x400_0000_0000,
        dt <= DT_LIMIT,
    ensures
        r == pull(m as int, d as int, dist as int, dt as int),
        -0x10_0000_0000_0000_0000_0000_0000_0000 <= r <= 0x10_0000_0000_0000_0000_0000_0000_0000,
{
    let ghost bound = 0x10_0000_0000_0000_0000_0000_0000_0000int;
    proof {
        assert(-bound <= m * d * dt <= bound) by (nonlinear_arith)
            requires
                0 <= m <= 0x1_0000_0000_0000_0000,
                -0x200_0000_0000 <= d <= 0x200_0000_0000,
                0 <= dt <= 1024,
                bound == 0x10_0000_0000_0000_0000_0000_0000_0000,
        ;
        assert(0 < dist * dist < 0x10_0000_0000_0000_0000_0000) by (nonlinear_arith)
            requires
                1000 <= dist < 0x400_0000_0000,
        ;
        assert(0 < dist * dist * dist < 0x4000_0000_0000_0000_0000_0000_0000_0000) by (nonlinear_arith)
            requires
                1000 <= dist < 0x400_0000_0000,
        ;
        lemma_trunc_div_small(m * d * dt, dist * dist * dist);
        lemma_trunc_div_small(trunc_div(m * d * dt, dist * dist * dist), 1000);
    }
    proof {
        assert(-0x200_0000_0000_0000_0000_0000_0000 <= m * d <= 0x200_0000_0000_0000_0000_0000_0000) by (nonlinear_arith)
            requires
                0 <= m <= 0x1_0000_0000_0000_0000,
                -0x200_0000_0000 <= d <= 0x200_0000_0000,
        ;
    }
    let num = (m as i128) * d * (dt as i128);
    let q = trunc_div_i128(num, dist * dist * dist);
    trunc_div_i128(q, 1000)
}

fn moved_exec(p: i64, v: i64, dt: u64) -> (r: i64)
    requires
        -COORD_LIMIT <= p <= COORD_LIMIT,
        -SPEED_LIMIT <= v <= SPEED_LIMIT,
        dt <= DT_LIMIT,
    ensures
        r == moved(p as int, v as int, dt as int),
{
    proof {
        assert(-SPEED_LIMIT * 1024 <= v * dt <= SPEED_LIMIT * 1024) by (nonlinear_arith)
            requires
                -SPEED_LIMIT <= v <= SPEED_LIMIT,
                0 <= dt <= 1024,
        ;
        lemma_trunc_div_small(v * dt, 1000);
    }
    let q = trunc_div_i128((v as i128) * (dt as i128), 1000);
    let x = (p as i128) + q;
    if x < -(COORD_LIMIT as i128) {
        -COORD_LIMIT
    } else if x > COORD_LIMIT as i128 {
        COORD_LIMIT
    } else {
        x as i64
    }
}

fn new_velocity(registry: &MassRegistry, i: usize, dt: u64) -> (v: Vec3)
    requires
        physics_wf(registry@),
        i < registry@.len(),
        dt <= DT_LIMIT,
    ensures
        v == velocity_after(registry@, i as int, registry@.len() as int, dt as int),
{
    let n = registry.masses.len();
    let a = registry.masses[i].1;
    proof {
        assert(body_in_bounds(registry@[i as int].1));
    }
    let mut acc = a.velocity;
    let mut j: usize = 0;
    while j < n
        invariant
            n == registry@.len(),
            physics_wf(registry@),
            dt <= DT_LIMIT,
            i < n,
            j <= n,
            a == registry@[i as int].1,
            body_in_bounds(a),
            acc == velocity_after(registry@, i as int, j as int, dt as int),
        decreases n - j,
    {
        proof {
            lemma_velocity_after_bounds(registry@, i as int, j as int, dt as int);
        }
        if j != i {
            let b = registry.masses[j].1;
            proof {
                assert(body_in_bounds(registry@[j as int].1));
                lemma_mass_le_total(registry@, j as int);
            }
            let dist = separation_exec(&a.position, &b.position);
            let dx = (b.position.x as i128) - (a.position.x as i128);
            let dy = (b.position.y as i128) - (a.position.y as i128);
            let dz = (b.position.z as i128) - (a.position.z as i128);
            let px = pull_exec(b.mass, dx, dist, dt);
            let py = pull_exec(b.mass, dy, dist, dt);
            let pz = pull_exec(b.mass, dz, dist, dt);
            acc = Vec3 {
                x: clamp_speed_exec(acc.x as i128 + px),
                y: clamp_speed_exec(acc.y as i128 + py),
                z: clamp_speed_exec(acc.z as i128 + pz),
            };
        }
        j = j + 1;
    }
    acc
}

/// Advances every mass by one substep of `dt` milliseconds.
pub fn gravity_substep(registry: &mut MassRegistry, dt: u64, zerog: bool)
    requires
        physics_wf(old(registry)@),
        dt <= DT_LIMIT,
    ensures
        final(registry)@ == substep(old(registry)@, dt as int, zerog),
        physics_wf(final(registry)@),
{
    let ghost start = registry@;
    proof {
        lemma_substep_wf(start, dt as int, zerog);
    }
    let n = registry.masses.len();
    let mut velocities: Vec<Vec3> = Vec::new();
    let mut i: usize = 0;
    while i < n
        invariant
            registry@ == start,
            n == start.len(),
            physics_wf(start),
            dt <= DT_LIMIT,
            i <= n,
            velocities@.len() == i,
            forall|k: int|
                0 <= k < i ==> #[trigger] velocities@[k] == (if zerog {
                    start[k].1.velocity
                } else {
                    velocity_after(start, k, n as int, dt as int)
                }),
        decreases n - i,
    {
        let v = if zerog {
            registry.masses[i].1.velocity
        } else {
            new_velocity(registry, i, dt)
        };
        velocities.push(v);
        i = i + 1;
    }
    let mut moved_masses: Vec<(u64, Body)> = Vec::new();
    let mut k: usize = 0;
    while k < n
        invariant
            registry@ == start,
            n == start.len(),
            physics_wf(start),
            dt <= DT_LIMIT,
            k <= n,
            velocities@.len() == n,
            forall|q: int|
                0 <= q < n ==> #[trigger] velocities@[q] == (if zerog {
                    start[q].1.velocity
                } else {
                    velocity_after(start, q, n as int, dt as int)
                }),
            moved_masses@ == substep(start, dt as int, zerog).subrange(0, k as int),
        decreases n - k,
    {
        let (id, b) = registry.masses[k];
        let v = velocities[k];
        proof {
            assert(body_in_bounds(start[k as int].1));
            lemma_velocity_after_bounds(start, k as int, n as int, dt as int);
        }
        let p = Vec3 {
            x: moved_exec(b.position.x, v.x, dt),
            y: moved_exec(b.position.y, v.y, dt),
            z: moved_exec(b.position.z, v.z, dt),
        };
        moved_masses.push((id, Body { velocity: v, position: p, ..b }));
        proof {
            assert(moved_masses@ =~= substep(start, dt as int, zerog).subrange(0, k + 1));
        }
        k = k + 1;
    }
    proof {
        assert(moved_masses@ =~= substep(start, dt as int, zerog));
    }
    registry.masses = moved_masses;
}

/// Advances the world by one rendered frame: `sims_per_frame` substeps of
/// `dt` milliseconds each.
pub fn freefall(registry: &mut MassRegistry, config: &crate::protocol::PhysicsConfig, dt: u64)
    requires
        physics_wf(old(registry)@),
        dt <= DT_LIMIT,
    ensures
        final(registry)@ == substeps(old(registry)@, config.sims_per_frame as nat, dt as int, config.zerog),
        physics_wf(final(registry)@),
{
    let ghost start = registry@;
    let mut n: u32 = 0;
    while n < config.sims_per_frame
        invariant
            n <= config.sims_per_frame,
            dt <= DT_LIMIT,
            registry@ == substeps(start, n as nat, dt as int, config.zerog),
            physics_wf(registry@),
        decreases config.sims_per_frame - n,
    {
        gravity_substep(registry, dt, config.zerog);
        n = n + 1;
    }
}

/// What one tick found: the touching pairs after gravity, and the despawn
/// of every mass absorbed while merging them.
#[derive(Debug)]
pub struct TickReport {
    pub collisions: Vec<(u64, u64)>,
    pub despawned: Vec<DespawnMassEvent>,
}

/// One tick of the world, in the fixed order gravity, then collision and
/// merging, then despawning.
pub fn tick(registry: &mut MassRegistry, config: &crate::protocol::PhysicsConfig, dt: u64) -> (r:
    TickReport)
    requires
        physics_wf(old(registry)@),
        dt <= DT_LIMIT,
    ensures
        ({
            let moved = substeps(old(registry)@, config.sims_per_frame as nat, dt as int, config.zerog);
            &&& forall|k: int|
                0 <= k < r.collisions@.len() ==> touching_pair(moved, #[trigger] r.collisions@[k])
            &&& forall|i: int, j: int|
                0 <= i < j < moved.len() && touching(moved[i].1, moved[j].1)
                    ==> r.collisions@.contains((moved[i].0, moved[j].0))
            &&& final(registry)@ == merge_pairs(moved, r.collisions@).0
            &&& r.despawned@.map_values(|e: DespawnMassEvent| e.mass_id) == merge_pairs(
                moved,
                r.collisions@,
            ).1
        }),
        physics_wf(final(registry)@),
        total_mass(final(registry)@) == total_mass(old(registry)@),
        forall|k: int| 0 <= k < r.despawned@.len() ==> !has_id(final(registry)@, #[trigger] r.despawned@[k].mass_id),
{
    proof {
        lemma_substeps_wf(registry@, config.sims_per_frame as nat, dt as int, config.zerog);
    }
    freefall(registry, config, dt);
    let collisions = detect_collisions(registry);
    let despawned = handle_mass_collisions(registry, &collisions);
    let mut k: usize = 0;
    let ghost merged = registry@;
    while k < despawned.len()
        invariant
            k <= despawned@.len(),
            physics_wf(registry@),
            forall|q: int| 0 <= q < despawned@.len() ==> !has_id(merged, #[trigger] despawned@[q].mass_id),
            registry@ == merged,
        decreases despawned@.len() - k,
    {
        handle_despawn_mass(registry, despawned[k]);
        k = k + 1;
    }
    TickReport { collisions, despawned }
}

} // verus!
