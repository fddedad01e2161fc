//! The mass registry: the live masses of a world, each under a stable
//! identifier. Handles are positions in the registry and are only valid until
//! the next removal; callers re-resolve by identifier.
use vstd::prelude::*;

use crate::protocol::{index_of, lemma_index_of};
use crate::world::{
    has_id, ids_unique, mass_of_radius, radius_to_mass, Color, InitData, MassInitData, Rotation, Vec3,
    RADIUS_LIMIT,
};

verus! {

/// Bit pattern of the single-precision 1.0: the `w` component of the
/// identity orientation.
pub const ONE_BITS: u32 = 0x3f80_0000;

/// The state of one live mass.
#[derive(Clone, Copy, Debug, PartialEq, Eq, Structural)]
pub struct Body {
    pub position: Vec3,
    pub velocity: Vec3,
    pub mass: u128,
    pub radius: u64,
    pub inhabitable: bool,
    pub color: Color,
    pub rotation: Rotation,
}

/// A descriptor every mass of which can be built: no identifier twice, no
/// radius beyond the representable.
pub open spec fn init_valid(s: Seq<(u64, MassInitData)>) -> bool {
    &&& ids_unique(s)
    &&& forall|i: int| 0 <= i < s.len() ==> s[i].1.radius <= RADIUS_LIMIT
}

pub open spec fn body_of(d: MassInitData) -> Body {
    Body {
        position: d.motion.position,
        velocity: d.motion.velocity,
        mass: mass_of_radius(d.radius as int) as u128,
        radius: d.radius,
        inhabitable: d.inhabitable,
        color: d.color,
        rotation: Rotation { x: 0, y: 0, z: 0, w: ONE_BITS },
    }
}

/// The masses that a descriptor describes, in its order.
pub open spec fn bodies_of(s: Seq<(u64, MassInitData)>) -> Seq<(u64, Body)> {
    s.map_values(|e: (u64, MassInitData)| (e.0, body_of(e.1)))
}

/// Building bodies from a descriptor keeps its identifiers.
pub proof fn lemma_bodies_of(s: Seq<(u64, MassInitData)>)
    ensures
        bodies_of(s).len() == s.len(),
        forall|i: int| 0 <= i < s.len() ==> (#[trigger] bodies_of(s)[i]).0 == s[i].0,
        ids_unique(s) ==> ids_unique(bodies_of(s)),
        forall|id: u64| has_id(bodies_of(s), id) <==> has_id(s, id),
{
    let b = bodies_of(s);
    assert forall|id: u64| has_id(b, id) <==> has_id(s, id) by {
        if has_id(b, id) {
            let i = choose|i: int| 0 <= i < b.len() && b[i].0 == id;
            assert(s[i].0 == id);
        }
        if has_id(s, id) {
            let i = choose|i: int| 0 <= i < s.len() && s[i].0 == id;
            assert(b[i].0 == id);
        }
    }
}

/// The live masses, each under its identifier.
#[derive(Debug)]
pub struct MassRegistry {
    pub masses: Vec<(u64, Body)>,
}

impl View for MassRegistry {
    type V = Seq<(u64, Body)>;

    open spec fn view(&self) -> Seq<(u64, Body)> {
        self.masses@
    }
}

/// Every identifier that `lookup_many` could not resolve, in request order.
pub open spec fn missing_ids(reg: Seq<(u64, Body)>, ids: Seq<u64>) -> Seq<u64> {
    ids.filter(|id: u64| !has_id(reg, id))
}

impl MassRegistry {
    pub open spec fn wf(&self) -> bool {
        ids_unique(self@)
    }

    pub fn new() -> (r: MassRegistry)
        ensures
            r@ == Seq::<(u64, Body)>::empty(),
            r.wf(),
    {
        MassRegistry { masses: Vec::new() }
    }

    pub fn len(&self) -> (r: usize)
        ensures
            r == self@.len(),
    {
        self.masses.len()
    }

    /// The registry of every mass of a descriptor, in its order.
    pub fn from_init(init_data: &InitData) -> (r: MassRegistry)
        requires
            init_valid(init_data.masses@),
        ensures
            r@ == bodies_of(init_data.masses@),
            r.wf(),
    {
        let mut masses: Vec<(u64, Body)> = Vec::new();
        let mut i: usize = 0;
        while i < init_data.masses.len()
            invariant
                i <= init_data.masses@.len(),
                init_valid(init_data.masses@),
                masses@ == bodies_of(init_data.masses@.subrange(0, i as int)),
            decreases init_data.masses@.len() - i,
        {
            let (id, d) = init_data.masses[i];
            let body = Body {
                position: d.motion.position,
                velocity: d.motion.velocity,
                mass: radius_to_mass(d.radius),
                radius: d.radius,
                inhabitable: d.inhabitable,
                color: d.color,
                rotation: Rotation { x: 0, y: 0, z: 0, w: ONE_BITS },
            };
            masses.push((id, body));
            proof {
                assert(masses@ =~= bodies_of(init_data.masses@.subrange(0, i + 1)));
            }
            i = i + 1;
        }
        proof {
            assert(init_data.masses@.subrange(0, i as int) =~= init_data.masses@);
            lemma_bodies_of(init_data.masses@);
        }
        MassRegistry { masses }
    }

    /// The handle of mass `id`, if it is live.
    pub fn lookup(&self, id: u64) -> (r: Option<usize>)
        ensures
            match r {
                Some(h) => h as int == index_of(self@, id) && h < self@.len() && self@[h as int].0
                    == id,
                None => !has_id(self@, id),
            },
    {
        proof {
            lemma_index_of(self@, id);
        }
        let mut i = self.masses.len();
        while i > 0
            invariant
                i <= self@.len(),
                forall|j: int| i <= j < self@.len() ==> self@[j].0 != id,
                -1 <= index_of(self@, id) < self@.len(),
                index_of(self@, id) >= 0 <==> has_id(self@, id),
                index_of(self@, id) >= 0 ==> self@[index_of(self@, id)].0 == id,
            decreases i,
        {
            i = i - 1;
            if self.masses[i].0 == id {
                proof {
                    lemma_last_match(self@, id, i as int);
                }
                return Some(i);
            }
        }
        proof {
            if has_id(self@, id) {
                assert(self@[index_of(self@, id)].0 == id);
            }
        }
        None
    }

    /// The handles of all of `ids`, or, if any is not live, every one that
    /// is not; never a partial result.
    pub fn lookup_many(&self, ids: &Vec<u64>) -> (r: Result<Vec<usize>, Vec<u64>>)
        ensures
            match r {
                Ok(handles) => {
                    &&& handles@.len() == ids@.len()
                    &&& forall|k: int|
                        0 <= k < ids@.len() ==> handles@[k] as int == index_of(self@, ids@[k])
                            && handles@[k] < self@.len() && self@[handles@[k] as int].0 == ids@[k]
                },
                Err(missing) => missing@.len() > 0 && missing@ == missing_ids(self@, ids@),
            },
            r is Ok <==> missing_ids(self@, ids@).len() == 0,
    {
        let mut handles: Vec<usize> = Vec::new();
        let mut missing: Vec<u64> = Vec::new();
        let mut k: usize = 0;
        while k < ids.len()
            invariant
                k <= ids@.len(),
                missing@ == missing_ids(self@, ids@.subrange(0, k as int)),
                missing@.len() == 0 ==> handles@.len() == k,
                missing@.len() == 0 ==> forall|j: int|
                    0 <= j < k ==> handles@[j] as int == index_of(self@, ids@[j]) && handles@[j]
                        < self@.len() && self@[handles@[j] as int].0 == ids@[j],
            decreases ids@.len() - k,
        {
            proof {
                assert(ids@.subrange(0, k + 1).drop_last() =~= ids@.subrange(0, k as int));
                reveal(Seq::filter);
            }
            match self.lookup(ids[k]) {
                Some(h) => {
                    handles.push(h);
                },
                None => {
                    missing.push(ids[k]);
                },
            }
            proof {
                assert(missing_ids(self@, ids@.subrange(0, k + 1)) =~= missing@);
            }
            k = k + 1;
        }
        proof {
            assert(ids@.subrange(0, k as int) =~= ids@);
        }
        if missing.len() == 0 {
            Ok(handles)
        } else {
            Err(missing)
        }
    }

    /// Removes mass `id`, if it is live, and returns its state.
    pub fn remove(&mut self, id: u64) -> (r: Option<Body>)
        requires
            old(self).wf(),
        ensures
            final(self).wf(),
            match r {
                Some(b) => has_id(old(self)@, id) && old(self)@[index_of(old(self)@, id)] == (id, b)
                    && final(self)@ == old(self)@.remove(index_of(old(self)@, id)),
                None => !has_id(old(self)@, id) && final(self)@ == old(self)@,
            },
            forall|k: u64| k != id ==> (has_id(final(self)@, k) <==> has_id(old(self)@, k)),
            !has_id(final(self)@, id),
    {
        match self.lookup(id) {
            Some(h) => {
                let (_, b) = self.masses.remove(h);
                proof {
                    lemma_remove_keeps(old(self)@, h as int);
                }
                Some(b)
            },
            None => None,
        }
    }

    /// Sets the orientation of mass `id`, if it is live.
    pub fn set_rotation(&mut self, id: u64, rotation: Rotation) -> (r: bool)
        requires
            old(self).wf(),
        ensures
            final(self).wf(),
            r == has_id(old(self)@, id),
            r ==> final(self)@ == old(self)@.update(
                index_of(old(self)@, id),
                (id, Body { rotation, ..old(self)@[index_of(old(self)@, id)].1 }),
            ),
            !r ==> final(self)@ == old(self)@,
    {
        match self.lookup(id) {
            Some(h) => {
                let (_, b) = self.masses[h];
                self.masses.set(h, (id, Body { rotation, ..b }));
                proof {
                    lemma_update_keeps_ids(old(self)@, h as int, (id, Body { rotation, ..b }));
                }
                true
            },
            None => false,
        }
    }
}

/// Two identifiers resolve together exactly when both are live.
pub proof fn lemma_missing_two(reg: Seq<(u64, Body)>, a: u64, b: u64)
    ensures
        missing_ids(reg, seq![a, b]).len() == 0 <==> (has_id(reg, a) && has_id(reg, b)),
{
    reveal_with_fuel(Seq::filter, 3);
    let s = seq![a, b];
    assert(s.drop_last() =~= seq![a]);
    assert(seq![a].drop_last() =~= Seq::<u64>::empty());
    let f = |id: u64| !has_id(reg, id);
    assert(Seq::<u64>::empty().filter(f) =~= Seq::<u64>::empty());
}

/// Under unique keys, the entry found scanning down from the end is `index_of`.
pub proof fn lemma_last_match<T>(s: Seq<(u64, T)>, id: u64, i: int)
    requires
        0 <= i < s.len(),
        s[i].0 == id,
        forall|j: int| i < j < s.len() ==> s[j].0 != id,
    ensures
        index_of(s, id) == i,
    decreases s.len(),
{
    if i < s.len() - 1 {
        lemma_last_match(s.drop_last(), id, i);
    }
}

/// Removing an entry keeps keys unique and removes exactly its key.
pub proof fn lemma_remove_keeps<T>(s: Seq<(u64, T)>, h: int)
    requires
        ids_unique(s),
        0 <= h < s.len(),
    ensures
        ids_unique(s.remove(h)),
        forall|k: u64| k != s[h].0 ==> (has_id(s.remove(h), k) <==> has_id(s, k)),
        !has_id(s.remove(h), s[h].0),
{
    let r = s.remove(h);
    assert forall|i: int, j: int| 0 <= i < r.len() && 0 <= j < r.len() && i != j implies r[i].0
        != r[j].0 by {
        let si = if i < h { i } else { i + 1 };
        let sj = if j < h { j } else { j + 1 };
        assert(r[i] == s[si] && r[j] == s[sj]);
    }
    assert forall|k: u64| k != s[h].0 implies (has_id(r, k) <==> has_id(s, k)) by {
        if has_id(r, k) {
            let i = choose|i: int| 0 <= i < r.len() && r[i].0 == k;
            let si = if i < h { i } else { i + 1 };
            assert(s[si].0 == k);
        }
        if has_id(s, k) {
            let i = choose|i: int| 0 <= i < s.len() && s[i].0 == k;
            assert(i != h);
            let ri = if i < h { i } else { i - 1 };
            assert(r[ri].0 == k);
        }
    }
    if has_id(r, s[h].0) {
        let i = choose|i: int| 0 <= i < r.len() && r[i].0 == s[h].0;
        let si = if i < h { i } else { i + 1 };
        assert(s[si].0 == s[h].0);
    }
}

/// Replacing an entry under the same key keeps keys unique.
pub proof fn lemma_update_keeps_ids<T>(s: Seq<(u64, T)>, h: int, e: (u64, T))
    requires
        ids_unique(s),
        0 <= h < s.len(),
        e.0 == s[h].0,
    ensures
        ids_unique(s.update(h, e)),
        forall|k: u64| has_id(s.update(h, e), k) <==> has_id(s, k),
{
    let r = s.update(h, e);
    assert forall|k: u64| has_id(r, k) <==> has_id(s, k) by {
        if has_id(r, k) {
            let i = choose|i: int| 0 <= i < r.len() && r[i].0 == k;
            assert(s[i].0 == k);
        }
        if has_id(s, k) {
            let i = choose|i: int| 0 <= i < s.len() && s[i].0 == k;
            assert(r[i].0 == k);
        }
    }
}

} // verus!
