//! The static description of a world: fixed-point vectors, colours, and the
//! initialisation descriptor that every match starts from.
//!
//! Lengths are millimetres, speeds millimetres per second, and the scalar
//! mass of a body is `MASS_PER_CUBE · radius³` in the matching unit.
use vstd::prelude::*;

verus! {

/// Scalar mass of a sphere of radius one unit of length.
pub const MASS_PER_CUBE: u128 = 4;

/// Largest radius whose mass is representable.
pub const RADIUS_LIMIT: u64 = 0x200_0000_0000;

/// A 3-vector of fixed-point integers.
#[derive(Clone, Copy, Debug, PartialEq, Eq, Structural)]
pub struct Vec3 {
    pub x: i64,
    pub y: i64,
    pub z: i64,
}

impl Vec3 {
    pub fn new(x: i64, y: i64, z: i64) -> (r: Vec3)
        ensures
            r == (Vec3 { x, y, z }),
    {
        Vec3 { x, y, z }
    }

    pub open spec fn zero_spec() -> Vec3 {
        Vec3 { x: 0, y: 0, z: 0 }
    }

    pub fn zero() -> (r: Vec3)
        ensures
            r == Vec3::zero_spec(),
    {
        Vec3 { x: 0, y: 0, z: 0 }
    }
}

/// An orientation quaternion carried as the bit patterns of its four
/// single-precision components; the simulation relays it without reading it.
#[derive(Clone, Copy, Debug, PartialEq, Eq, Structural)]
pub struct Rotation {
    pub x: u32,
    pub y: u32,
    pub z: u32,
    pub w: u32,
}

/// A colour, each channel in thousandths.
#[derive(Clone, Copy, Debug, PartialEq, Eq, Structural)]
pub struct Color {
    pub r: u32,
    pub g: u32,
    pub b: u32,
    pub a: u32,
}

#[derive(Clone, Copy, Debug, PartialEq, Eq, Structural)]
pub struct MassMotion {
    pub position: Vec3,
    pub velocity: Vec3,
}

#[derive(Clone, Copy, Debug, PartialEq, Eq, Structural)]
pub struct MassInitData {
    pub inhabitable: bool,
    pub motion: MassMotion,
    pub color: Color,
    pub radius: u64,
}

/// The descriptor a match is built from: each mass identifier with its
/// initial state, in a fixed order, no identifier twice.
#[derive(Debug)]
pub struct InitData {
    pub masses: Vec<(u64, MassInitData)>,
}

impl Clone for InitData {
    fn clone(&self) -> (r: Self)
        ensures
            r.masses@ == self.masses@,
    {
        let mut masses: Vec<(u64, MassInitData)> = Vec::new();
        let mut i: usize = 0;
        while i < self.masses.len()
            invariant
                i <= self.masses@.len(),
                masses@ == self.masses@.subrange(0, i as int),
            decreases self.masses@.len() - i,
        {
            masses.push(self.masses[i]);
            proof {
                assert(masses@ =~= self.masses@.subrange(0, i + 1));
            }
            i = i + 1;
        }
        proof {
            assert(masses@ =~= self.masses@);
        }
        InitData { masses }
    }
}

pub open spec fn ids_unique<T>(s: Seq<(u64, T)>) -> bool {
    forall|i: int, j: int| 0 <= i < s.len() && 0 <= j < s.len() && i != j ==> s[i].0 != s[j].0
}

pub open spec fn has_id<T>(s: Seq<(u64, T)>, id: u64) -> bool {
    exists|i: int| 0 <= i < s.len() && s[i].0 == id
}

pub open spec fn cube(r: int) -> int {
    r * r * r
}

pub open spec fn mass_of_radius(r: int) -> int {
    MASS_PER_CUBE * cube(r)
}

/// `r` is the radius of mass `m`: the largest radius whose mass does not exceed `m`.
pub open spec fn is_radius_of(r: int, m: int) -> bool {
    0 <= r && mass_of_radius(r) <= m < mass_of_radius(r + 1)
}

/// The identifiers of the inhabitable masses, in descriptor order.
pub open spec fn inhabitable_ids(s: Seq<(u64, MassInitData)>) -> Seq<u64>
    decreases s.len(),
{
    if s.len() == 0 {
        Seq::empty()
    } else {
        let rest = inhabitable_ids(s.drop_last());
        if s.last().1.inhabitable {
            rest.push(s.last().0)
        } else {
            rest
        }
    }
}

/// Cubes of non-negative integers grow with them.
pub proof fn lemma_cube_monotone(a: int, b: int)
    requires
        0 <= a <= b,
    ensures
        cube(a) <= cube(b),
{
    assert(a * a <= b * b) by (nonlinear_arith)
        requires
            0 <= a <= b,
    ;
    assert(a * a * a <= b * b * b) by (nonlinear_arith)
        requires
            0 <= a <= b,
            a * a <= b * b,
    ;
}

/// Cubes of non-negative integers grow strictly with them.
pub proof fn lemma_cube_strict(a: int, b: int)
    requires
        0 <= a < b,
    ensures
        cube(a) < cube(b),
{
    assert(a * a <= b * b) by (nonlinear_arith)
        requires
            0 <= a <= b,
    ;
    assert(a * a * a < b * b * b) by (nonlinear_arith)
        requires
            0 <= a < b,
            a * a <= b * b,
    ;
}

/// The radius recovered from the mass of a radius is that radius; the mass
/// recovered from the radius of a mass falls short of that mass by less than
/// the mass of the next shell, `MASS_PER_CUBE · (3r² + 3r + 1)`.
pub proof fn lemma_mass_radius_round_trip(radius: int, mass: int, r: int)
    requires
        0 <= radius,
        0 <= mass,
        is_radius_of(r, mass),
    ensures
        is_radius_of(radius, mass_of_radius(radius)),
        forall|q: int| is_radius_of(q, mass_of_radius(radius)) ==> q == radius,
        0 <= mass - mass_of_radius(r) < MASS_PER_CUBE * (3 * r * r + 3 * r + 1),
{
    lemma_cube_strict(radius, radius + 1);
    assert forall|q: int| is_radius_of(q, mass_of_radius(radius)) implies q == radius by {
        if q < radius {
            lemma_cube_monotone(q + 1, radius);
        }
        if q > radius {
            lemma_cube_monotone(radius + 1, q);
        }
    }
    assert(cube(r + 1) == cube(r) + 3 * r * r + 3 * r + 1) by (nonlinear_arith);
}

/// The mass of a sphere of the given radius.
pub fn radius_to_mass(radius: u64) -> (m: u128)
    requires
        radius <= RADIUS_LIMIT,
    ensures
        m == mass_of_radius(radius as int),
{
    let r = radius as u128;
    proof {
        lemma_cube_monotone(r as int, RADIUS_LIMIT as int);
        assert(cube(RADIUS_LIMIT as int) == 0x800_0000_0000_0000_0000_0000_0000_0000int);
        assert(r * r <= RADIUS_LIMIT * RADIUS_LIMIT) by (nonlinear_arith)
            requires
                r <= RADIUS_LIMIT,
        ;
    }
    MASS_PER_CUBE * (r * r * r)
}

/// The radius of a sphere of the given mass, rounded down.
pub fn mass_to_radius(mass: u128) -> (r: u64)
    ensures
        is_radius_of(r as int, mass as int),
{
    let q = mass / MASS_PER_CUBE;
    let mut lo: u128 = 0;
    let mut hi: u128 = 0x400_0000_0001;
    proof {
        assert(cube(0x400_0000_0001) > 0x3fff_ffff_ffff_ffff_ffff_ffff_ffff_ffff);
    }
    while hi - lo > 1
        invariant
            lo < hi <= 0x400_0000_0001,
            q == mass / MASS_PER_CUBE,
            cube(lo as int) <= q,
            q < cube(hi as int),
        decreases hi - lo,
    {
        let mid = lo + (hi - lo) / 2;
        proof {
            lemma_cube_monotone(mid as int, 0x400_0000_0000);
            assert(cube(0x400_0000_0000) == 0x4000_0000_0000_0000_0000_0000_0000_0000int);
            assert(mid * mid <= 0x400_0000_0000 * 0x400_0000_0000) by (nonlinear_arith)
                requires
                    mid <= 0x400_0000_0000,
            ;
        }
        if mid * mid * mid <= q {
            lo = mid;
        } else {
            hi = mid;
        }
    }
    assert(hi == lo + 1);
    lo as u64
}

} // verus!
