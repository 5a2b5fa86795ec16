//! The particle record shared by every other module.
use vstd::prelude::*;
use crate::single::Single;

verus! {

/// Marks a particle as removed; it waits for compaction and takes part in nothing.
pub const REMOVED: u32 = 0x4000_0000;

/// Marks a particle as held by a grab tool.
pub const GRABBED: u32 = 0x8000_0000;

/// The bits of the type word that name the material.
pub const MATERIAL_MASK: u32 = 0xff;

/// Content of a link slot that points at nobody.
pub const NO_LINK: i32 = -1;

/// One particle. Links hold the indices of up to six bonded neighbours.
#[derive(Clone, Copy, PartialEq, Eq, Debug)]
pub struct Particle {
    pub pos: [Single; 2],
    pub vel: [Single; 2],
    pub links: [i32; 6],
    pub charge: Single,
    pub angle: Single,
    pub temperature: Single,
    pub mat_type: u32,
    pub inv_mass: Single,
    pub grav_scale: Single,
}

impl Particle {
    /// Whether the particle carries the removal mark.
    pub open spec fn removed(self) -> bool {
        self.mat_type & REMOVED != 0
    }

    /// Whether a grab tool holds the particle.
    pub open spec fn grabbed(self) -> bool {
        self.mat_type & GRABBED != 0
    }

    /// Row of the material table that describes this particle: the low byte of the type word,
    /// held to the sixteen rows there are.
    pub open spec fn material_row(self) -> int {
        if self.mat_type & MATERIAL_MASK < 15 {
            (self.mat_type & MATERIAL_MASK) as int
        } else {
            15
        }
    }

    /// Everything but the links is equal.
    pub open spec fn same_but_links(self, other: Particle) -> bool {
        &&& self.pos == other.pos
        &&& self.vel == other.vel
        &&& self.charge == other.charge
        &&& self.angle == other.angle
        &&& self.temperature == other.temperature
        &&& self.mat_type == other.mat_type
        &&& self.inv_mass == other.inv_mass
        &&& self.grav_scale == other.grav_scale
    }

    /// Whether the particle carries the removal mark.
    pub fn is_removed(&self) -> (r: bool)
        ensures
            r == self.removed(),
    {
        self.mat_type & REMOVED != 0
    }

    /// Whether a grab tool holds the particle.
    pub fn is_grabbed(&self) -> (r: bool)
        ensures
            r == self.grabbed(),
    {
        self.mat_type & GRABBED != 0
    }

    /// Row of the material table that describes this particle.
    pub fn material(&self) -> (r: usize)
        ensures
            r == self.material_row(),
            r < 16,
    {
        let id: u32 = self.mat_type & MATERIAL_MASK;
        if id < 15 {
            id as usize
        } else {
            15
        }
    }

    /// Whether one of the six links holds `id`.
    pub fn has_link(&self, id: i32) -> (r: bool)
        ensures
            r == self.links@.contains(id),
    {
        let mut k: usize = 0;
        while k < 6
            invariant
                k <= 6,
                forall|m: int| 0 <= m < k ==> self.links@[m] != id,
            decreases 6 - k,
        {
            if self.links[k] == id {
                assert(self.links@[k as int] == id);
                return true;
            }
            k += 1;
        }
        false
    }
}

/// Six empty link slots.
pub fn no_links() -> (r: [i32; 6])
    ensures
        forall|k: int| 0 <= k < 6 ==> r@[k] == NO_LINK,
{
    [NO_LINK; 6]
}

/// The marks of a particle are two bits of its type word, and its material the low byte of it, held
/// to the sixteen rows of the table. No mark changes the material, and no material sets a mark.
pub proof fn law_type_word_holds_marks_and_material(p: Particle, removed: bool, grabbed: bool, row: usize)
    requires
        call_ensures(Particle::is_removed, (&p,), removed),
        call_ensures(Particle::is_grabbed, (&p,), grabbed),
        call_ensures(Particle::material, (&p,), row),
    ensures
        removed == (p.mat_type & 0x4000_0000 != 0),
        grabbed == (p.mat_type & 0x8000_0000 != 0),
        removed == p.removed(),
        grabbed == p.grabbed(),
        row == p.material_row(),
        p.mat_type & 0xff <= 15 ==> row == p.mat_type & 0xff,
        p.mat_type & 0xff > 15 ==> row == 15,
{
}

/// A slot is searched for what it holds, and an empty one holds -1.
pub proof fn law_slots_hold_their_links(p: Particle, id: i32, found: bool, empty: [i32; 6], k: int)
    requires
        call_ensures(Particle::has_link, (&p, id), found),
        call_ensures(no_links, (), empty),
        0 <= k < 6,
    ensures
        p.links@[k] == id ==> found,
        found ==> exists|j: int| 0 <= j < 6 && #[trigger] p.links@[j] == id,
        empty@[k] == -1,
        NO_LINK == -1,
{
    if p.links@[k] == id {
        assert(p.links@.contains(id));
    }
}

} // verus!
