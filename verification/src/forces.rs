//! Which forces act on a particle, and what happens to one that has left the number line.
use vstd::prelude::*;
use crate::particle::{no_links, Particle, NO_LINK};
use crate::single::{num, Single, MINUS_ONE, ONE};

verus! {

/// 0.001: an inverse mass below it is that of a pinned particle.
pub const PINNED_BELOW: u32 = 0x3a83_126f;

/// -0.001: a gravity factor above it is an ordinary one.
pub const WEIGHTED_ABOVE: u32 = 0xba83_126f;

/// -0.0001: a gravity factor below it is a resistance budget.
pub const BUDGET_BELOW: u32 = 0xb8d1_b717;

/// -0.3: the gravity factor of a boiling particle.
pub const BOILING_LIFT: u32 = 0xbe99_999a;

/// A NaN.
pub const NOT_A_NUMBER: u32 = 0x7fc0_0000;

/// 20000: both coordinates of the place where removed particles are parked.
pub const PARKED: u32 = 0x469c_4000;

/// Most gravity sources a step listens to.
pub const GRAVITY_SOURCES: u32 = 8;

/// What a step does with a particle before any force is computed.
#[derive(Clone, Copy, Debug, PartialEq, Eq)]
pub enum Admission {
    /// The particle takes part.
    Active,
    /// The particle is returned as given and is moved by nothing.
    Settled(Particle),
}

impl Particle {
    /// Position and velocity are all finite.
    pub open spec fn whereabouts_known(self) -> bool {
        &&& self.pos@[0].finite()
        &&& self.pos@[1].finite()
        &&& self.vel@[0].finite()
        &&& self.vel@[1].finite()
    }

    /// The particle has a mass that can be moved.
    pub open spec fn movable(self) -> bool {
        num(PINNED_BELOW).less(self.inv_mass.absolute())
    }

    /// The particle is pinned.
    pub open spec fn pinned(self) -> bool {
        self.inv_mass.absolute().less(num(PINNED_BELOW))
    }

    /// The particle floats and carries a resistance budget in its gravity factor.
    pub open spec fn budgeted(self) -> bool {
        self.grav_scale.less(num(BUDGET_BELOW))
    }

    /// Gravity acts on the particle.
    pub open spec fn weighted(self) -> bool {
        self.movable() && num(WEIGHTED_ABOVE).less(self.grav_scale)
    }

    /// The particle is hotter than `melt_temp` and of the kind that melts.
    pub open spec fn melted(self, melt_temp: Single) -> bool {
        num(0).at_most(self.grav_scale) && melt_temp.less(self.temperature)
    }

    /// The particle is hotter than the boiling point, and there is one.
    pub open spec fn boiling(self, boil_temp: Single) -> bool {
        boil_temp.less(self.temperature) && num(0).less(boil_temp)
    }

    /// Heat reaches the particle only to a twentieth: it is pinned or floats.
    pub open spec fn sluggish(self) -> bool {
        self.pinned() || self.budgeted()
    }

    /// The same particle put back at `(0, refuge_y)`, at rest, cold and without links.
    pub open spec fn rescued(self, refuge_y: Single, to: Particle) -> bool {
        &&& to.pos@ == seq![num(0), refuge_y]
        &&& to.vel@ == seq![num(0), num(0)]
        &&& to.temperature == num(0)
        &&& forall|k: int| 0 <= k < 6 ==> to.links@[k] == NO_LINK
        &&& to.charge == self.charge
        &&& to.angle == self.angle
        &&& to.mat_type == self.mat_type
        &&& to.inv_mass == self.inv_mass
        &&& to.grav_scale == self.grav_scale
    }
}

/// Sign of a number as a number: 1, -1 or NaN.
pub open spec fn sign_of(x: Single) -> Single {
    if x.nan() {
        num(NOT_A_NUMBER)
    } else if x.negative() {
        num(MINUS_ONE)
    } else {
        num(ONE)
    }
}

/// Decides whether a particle takes part in a step. One whose position or velocity is no longer
/// finite is put back at `(0, refuge_y)`; a removed one stays as it is.
pub fn admission(p: &Particle, refuge_y: Single) -> (r: Admission)
    ensures
        !p.whereabouts_known() ==> r is Settled && p.rescued(refuge_y, r->Settled_0),
        p.whereabouts_known() && p.removed() ==> r == Admission::Settled(*p),
        p.whereabouts_known() && !p.removed() ==> r == Admission::Active,
{
    if !p.pos[0].is_finite() || !p.pos[1].is_finite() || !p.vel[0].is_finite()
        || !p.vel[1].is_finite() {
        let zero = Single::from_bits(0);
        let mut q: Particle = *p;
        q.pos = [zero, refuge_y];
        q.vel = [zero, zero];
        q.temperature = zero;
        q.links = no_links();
        assert(q.pos@ =~= seq![zero, refuge_y]);
        assert(q.vel@ =~= seq![zero, zero]);
        return Admission::Settled(q);
    }
    if p.is_removed() {
        return Admission::Settled(*p);
    }
    Admission::Active
}

/// Whether the particle has a mass that can be moved.
pub fn is_movable(p: &Particle) -> (r: bool)
    ensures
        r == p.movable(),
{
    p.inv_mass.abs().gt(Single::from_bits(PINNED_BELOW))
}

/// Whether the particle is pinned.
pub fn is_pinned(p: &Particle) -> (r: bool)
    ensures
        r == p.pinned(),
{
    p.inv_mass.abs().lt(Single::from_bits(PINNED_BELOW))
}

/// Whether the particle floats on a resistance budget.
pub fn is_budgeted(p: &Particle) -> (r: bool)
    ensures
        r == p.budgeted(),
{
    p.grav_scale.lt(Single::from_bits(BUDGET_BELOW))
}

/// Whether gravity acts on the particle.
pub fn feels_gravity(p: &Particle) -> (r: bool)
    ensures
        r == p.weighted(),
{
    is_movable(p) && p.grav_scale.gt(Single::from_bits(WEIGHTED_ABOVE))
}

/// The factor that turns gravity round: the sign of the inverse mass, or -0.3 for a particle
/// that boils.
pub fn gravity_sign(p: &Particle, boil_temp: Single) -> (r: Single)
    ensures
        r == if p.boiling(boil_temp) {
            num(BOILING_LIFT)
        } else {
            sign_of(p.inv_mass)
        },
{
    if p.temperature.gt(boil_temp) && boil_temp.gt(Single::from_bits(0)) {
        Single::from_bits(BOILING_LIFT)
    } else if p.inv_mass.is_nan() {
        Single::from_bits(NOT_A_NUMBER)
    } else if p.inv_mass.bits >= crate::single::SIGN_BIT {
        Single::from_bits(MINUS_ONE)
    } else {
        Single::from_bits(ONE)
    }
}

/// How many gravity sources a step listens to.
pub fn gravity_source_count(given: u32) -> (r: usize)
    ensures
        r == if given <= GRAVITY_SOURCES {
            given
        } else {
            GRAVITY_SOURCES
        },
{
    if given <= GRAVITY_SOURCES {
        given as usize
    } else {
        GRAVITY_SOURCES as usize
    }
}

/// Whether a gravity source at distance `dist`, of reach `radius`, pulls the particle.
pub fn is_attracted(p: &Particle, dist: Single, radius: Single) -> (r: bool)
    ensures
        r == (num(0).less(dist) && dist.less(radius) && p.weighted()),
{
    dist.gt(Single::from_bits(0)) && dist.lt(radius) && feels_gravity(p)
}

/// Whether the particle is hotter than `melt_temp` and of the kind that melts.
pub fn is_melted(p: &Particle, melt_temp: Single) -> (r: bool)
    ensures
        r == p.melted(melt_temp),
{
    p.grav_scale.ge(Single::from_bits(0)) && p.temperature.gt(melt_temp)
}

/// Drops every link of a particle that has melted.
pub fn shed_links(p: &Particle, melt_temp: Single) -> (r: Particle)
    ensures
        r.same_but_links(*p),
        p.melted(melt_temp) ==> forall|k: int| 0 <= k < 6 ==> r.links@[k] == NO_LINK,
        p.melted(melt_temp) ==> r.links@ == seq![
            NO_LINK,
            NO_LINK,
            NO_LINK,
            NO_LINK,
            NO_LINK,
            NO_LINK,
        ],
        !p.melted(melt_temp) ==> r == *p,
{
    if is_melted(p, melt_temp) {
        let mut q: Particle = *p;
        q.links = no_links();
        assert(q.links@ =~= seq![NO_LINK, NO_LINK, NO_LINK, NO_LINK, NO_LINK, NO_LINK]);
        q
    } else {
        *p
    }
}

/// How much of a heat gain a particle takes up.
#[derive(Clone, Copy, Debug, PartialEq, Eq, Structural)]
pub enum HeatShare {
    Nothing,
    Full,
    Twentieth,
}

/// How much of a heat gain `heat` the particle takes up: nothing if it is no gain, a twentieth
/// if the particle is pinned or floats, otherwise all of it.
pub open spec fn share_of(p: Particle, heat: Single) -> HeatShare {
    if !num(0).less(heat) {
        HeatShare::Nothing
    } else if p.sluggish() {
        HeatShare::Twentieth
    } else {
        HeatShare::Full
    }
}

/// How much of a heat gain the particle takes up.
pub fn heat_share(p: &Particle, heat: Single) -> (r: HeatShare)
    ensures
        r == share_of(*p, heat),
{
    if heat.gt(Single::from_bits(0)) {
        if is_pinned(p) || is_budgeted(p) {
            HeatShare::Twentieth
        } else {
            HeatShare::Full
        }
    } else {
        HeatShare::Nothing
    }
}

/// The numbers behind the braking of a floating particle.
#[derive(Clone, Copy, Debug, PartialEq, Eq)]
pub struct BrakeReading {
    /// Speed.
    pub speed: Single,
    /// Impulse that the speed stands for.
    pub impulse: Single,
    /// Resistance budget: the gravity factor without its sign.
    pub budget: Single,
    /// Gravity factor that holds what is left of the budget after the impulse.
    pub left: Single,
    /// Temperature after the whole speed has been turned into heat.
    pub stopped_temperature: Single,
    /// Velocity after the budget has been spent.
    pub slowed_vel: [Single; 2],
    /// Temperature after the budget has been spent.
    pub slowed_temperature: Single,
}

/// `to` is the particle after braking: a floating one that moves is stopped, if its budget covers
/// the impulse; otherwise it is slowed and from then on weightless.
pub open spec fn braked(p: Particle, m: BrakeReading, to: Particle) -> bool {
    if !(p.budgeted() && num(0).less(m.speed)) {
        to == p
    } else if m.impulse.at_most(m.budget) {
        &&& to.vel@ == seq![num(0), num(0)]
        &&& to == (Particle {
            vel: to.vel,
            grav_scale: m.left,
            temperature: m.stopped_temperature,
            ..p
        })
    } else {
        to == (Particle {
            vel: m.slowed_vel,
            grav_scale: num(0),
            temperature: m.slowed_temperature,
            ..p
        })
    }
}

/// Brakes a floating particle that moves.
pub fn brake(p: &Particle, m: &BrakeReading) -> (r: Particle)
    ensures
        braked(*p, *m, r),
{
    let mut q: Particle = *p;
    if is_budgeted(p) && m.speed.gt(Single::from_bits(0)) {
        if m.impulse.le(m.budget) {
            let zero = Single::from_bits(0);
            q.vel = [zero, zero];
            assert(q.vel@ =~= seq![zero, zero]);
            q.grav_scale = m.left;
            q.temperature = m.stopped_temperature;
        } else {
            q.vel = m.slowed_vel;
            q.grav_scale = Single::from_bits(0);
            q.temperature = m.slowed_temperature;
        }
    }
    q
}

/// A particle is never movable and pinned at once, and one that is pinned is not attracted.
pub proof fn law_pinned_is_not_movable(p: Particle)
    ensures
        p.pinned() ==> !p.movable() && !p.weighted(),
{
}

/// A particle that has left the number line is put back at `(0, refuge_y)`, at rest, cold and
/// unlinked, with everything else it had; a removed one stays as it is; any other takes part.
pub proof fn law_lost_particles_are_put_back(p: Particle, refuge_y: Single, r: Admission, k: int)
    requires
        call_ensures(admission, (&p, refuge_y), r),
        0 <= k < 6,
    ensures
        ({
            let known = p.pos@[0].bits % 0x8000_0000 < 0x7f80_0000 && p.pos@[1].bits % 0x8000_0000
                < 0x7f80_0000 && p.vel@[0].bits % 0x8000_0000 < 0x7f80_0000 && p.vel@[1].bits
                % 0x8000_0000 < 0x7f80_0000;
            &&& known && p.mat_type & 0x4000_0000 == 0 ==> r is Active
            &&& known && p.mat_type & 0x4000_0000 != 0 ==> r == Admission::Settled(p)
            &&& !known ==> r is Settled
            &&& !known ==> {
                let q = r->Settled_0;
                &&& q.pos@[0].bits == 0
                &&& q.pos@[1] == refuge_y
                &&& q.vel@[0].bits == 0
                &&& q.vel@[1].bits == 0
                &&& q.temperature.bits == 0
                &&& q.links@[k] == -1
                &&& q.charge == p.charge
                &&& q.angle == p.angle
                &&& q.mat_type == p.mat_type
                &&& q.inv_mass == p.inv_mass
                &&& q.grav_scale == p.grav_scale
            }
        }),
{
}

/// What decides which forces act: an inverse mass above 0.001 either way makes a particle movable,
/// below it pinned; a gravity factor below -0.0001 is a budget; gravity takes a movable particle
/// with a factor above -0.001, and a source takes such a one inside its radius, but not at its
/// centre; a particle that does not float melts above its melting point.
pub proof fn law_forces_go_by_mass_and_factor(
    p: Particle,
    dist: Single,
    radius: Single,
    melt_temp: Single,
    movable: bool,
    pinned: bool,
    budgeted: bool,
    heavy: bool,
    attracted: bool,
    melted: bool,
)
    requires
        call_ensures(is_movable, (&p,), movable),
        call_ensures(is_pinned, (&p,), pinned),
        call_ensures(is_budgeted, (&p,), budgeted),
        call_ensures(feels_gravity, (&p,), heavy),
        call_ensures(is_attracted, (&p, dist, radius), attracted),
        call_ensures(is_melted, (&p, melt_temp), melted),
    ensures
        movable == num(0x3a83_126f).less(num((p.inv_mass.bits % 0x8000_0000) as u32)),
        pinned == num((p.inv_mass.bits % 0x8000_0000) as u32).less(num(0x3a83_126f)),
        budgeted == p.grav_scale.less(num(0xb8d1_b717)),
        heavy == (movable && num(0xba83_126f).less(p.grav_scale)),
        attracted == (heavy && num(0).less(dist) && dist.less(radius)),
        melted == (num(0).at_most(p.grav_scale) && melt_temp.less(p.temperature)),
        movable == p.movable(),
        pinned == p.pinned(),
        budgeted == p.budgeted(),
        heavy == p.weighted(),
        melted == p.melted(melt_temp),
{
}

/// Gravity has the sign of the inverse mass, and lifts what boils by 0.3; a boiling point of zero or
/// less is none.
pub proof fn law_gravity_has_the_sign_of_the_mass(p: Particle, boil_temp: Single, r: Single)
    requires
        call_ensures(gravity_sign, (&p, boil_temp), r),
    ensures
        boil_temp.less(p.temperature) && num(0).less(boil_temp) ==> r.bits == 0xbe99_999a,
        !(boil_temp.less(p.temperature) && num(0).less(boil_temp)) ==> {
            &&& p.inv_mass.bits <= 0x7f80_0000 ==> r.bits == 0x3f80_0000
            &&& 0x8000_0000 <= p.inv_mass.bits <= 0xff80_0000 ==> r.bits == 0xbf80_0000
            &&& p.inv_mass.bits % 0x8000_0000 > 0x7f80_0000 ==> r.nan()
        },
{
}

/// A step listens to every source it is given, up to eight.
pub proof fn law_up_to_eight_sources_pull(given: u32, r: usize)
    requires
        call_ensures(gravity_source_count, (given,), r),
    ensures
        given <= 8 ==> r == given,
        given > 8 ==> r == 8,
{
}

/// A particle that has melted loses all its links, any other keeps them; nothing else changes.
pub proof fn law_melting_sheds_all_links(p: Particle, melt_temp: Single, r: Particle, k: int)
    requires
        call_ensures(shed_links, (&p, melt_temp), r),
        0 <= k < 6,
    ensures
        num(0).at_most(p.grav_scale) && melt_temp.less(p.temperature) ==> r.links@[k] == -1,
        !(num(0).at_most(p.grav_scale) && melt_temp.less(p.temperature)) ==> r.links@[k]
            == p.links@[k],
        r.pos == p.pos,
        r.vel == p.vel,
        r.charge == p.charge,
        r.angle == p.angle,
        r.temperature == p.temperature,
        r.mat_type == p.mat_type,
        r.inv_mass == p.inv_mass,
        r.grav_scale == p.grav_scale,
{
}

/// A gain of heat is taken whole, or to a twentieth by a particle that is pinned or floats; a loss
/// is not taken at all.
pub proof fn law_heat_is_shared_out(p: Particle, heat: Single, r: HeatShare)
    requires
        call_ensures(heat_share, (&p, heat), r),
    ensures
        r is Nothing <==> !num(0).less(heat),
        r is Twentieth <==> num(0).less(heat) && (p.grav_scale.less(num(0xb8d1_b717))
            || p.inv_mass.absolute().less(num(0x3a83_126f))),
        r is Full <==> num(0).less(heat) && !p.grav_scale.less(num(0xb8d1_b717))
            && !p.inv_mass.absolute().less(num(0x3a83_126f)),
{
}

/// A floating particle that moves is brought to rest where its budget covers the impulse, and keeps
/// what is left of it; otherwise it is slowed and has no budget any more. Any other particle, or one
/// that does not move, stays as it is.
pub proof fn law_brake_stops_or_slows(p: Particle, m: BrakeReading, r: Particle)
    requires
        call_ensures(brake, (&p, &m), r),
    ensures
        p.grav_scale.less(num(0xb8d1_b717)) && num(0).less(m.speed) && m.impulse.at_most(m.budget)
            ==> {
            &&& r.vel@[0].bits == 0
            &&& r.vel@[1].bits == 0
            &&& r.grav_scale == m.left
            &&& r.temperature == m.stopped_temperature
        },
        p.grav_scale.less(num(0xb8d1_b717)) && num(0).less(m.speed) && !m.impulse.at_most(m.budget)
            ==> {
            &&& r.vel == m.slowed_vel
            &&& r.grav_scale.bits == 0
            &&& r.temperature == m.slowed_temperature
        },
        !(p.grav_scale.less(num(0xb8d1_b717)) && num(0).less(m.speed)) ==> r == p,
        r.pos == p.pos,
        r.links == p.links,
        r.charge == p.charge,
        r.angle == p.angle,
        r.mat_type == p.mat_type,
        r.inv_mass == p.inv_mass,
{
}

} // verus!
