//! What a step makes of one particle before it moves: forces, links, neighbours, heat, charge and
//! tools, in this order.
use vstd::prelude::*;
use crate::bonds::{bond_fate, names_active, settle_bonds, BondFate, BondReading};
use crate::contacts::{
    contact_of, law_meeting_only_makes_bonds, lemma_meeting_looks_at_neighbors, links_after,
    meet_neighbors, search_radius, Contact, ContactReading,
};
use crate::cpu_physics::{
    cells_on_grid, law_lists_depend_on_the_particles, law_neighbors_are_complete,
    law_neighbors_stay_below, on_grid, same_but_removed, same_cells, Cell, CpuPhysics,
};
use crate::forces::{
    admission, brake, braked, feels_gravity, heat_share, share_of, shed_links, Admission,
    BrakeReading, HeatShare,
};
use crate::params::SimParams;
use crate::particle::{Particle, GRABBED, NO_LINK};
use crate::ports::{count_links, used_slots};
use crate::settle::{law_pinned_stays_put, rigid, settled_residue, settles_to, Motion, Walls};
use crate::single::{num, Single};
use crate::tools::{
    apply_tool, carries, erases, inject_charge, law_only_erasers_remove, releases, starts_grab,
    tooled, ToolReading, ERASE_BRUSH, ERASE_RECT, IDLE, KEEP_MATERIAL, MODIFY,
};

verus! {

/// The numbers behind a particle's step. Each is computed for the state that the particle has
/// when it is needed.
pub struct ParticleReadings {
    /// Where a lost particle is put back.
    pub refuge_y: Single,
    /// Velocity after gravity and the centres of attraction.
    pub pulled_vel: [Single; 2],
    /// One for each link slot.
    pub bonds: [BondReading; 6],
    /// 0.8 times the melting point.
    pub softening: Single,
    /// The cell in which the particle stands.
    pub cell: Cell,
    /// One for each particle found around the cell.
    pub contacts: Vec<ContactReading>,
    /// Velocity after the impulses of links and neighbours.
    pub pushed_vel: [Single; 2],
    /// The heat that links and neighbours made.
    pub heat: Single,
    /// Temperature with all of that heat, and with a twentieth of it.
    pub heated: Single,
    pub heated_twentieth: Single,
    /// Charge after levelling out with the neighbours and leaking, and after leaking alone.
    pub leveled_charge: Single,
    pub leaked_charge: Single,
    /// What the tool needs.
    pub tool: ToolReading,
    /// Velocity after damping.
    pub damped_vel: [Single; 2],
    /// Speed lost by damping.
    pub speed_loss: Single,
    /// Temperature with all of the heat that the lost speed makes, and with a twentieth of it.
    pub drag_heated: Single,
    pub drag_heated_twentieth: Single,
    /// What braking needs.
    pub brake: BrakeReading,
}

/// What a step makes of a particle, and what happened on the way.
pub struct Outcome {
    pub particle: Particle,
    /// What became of each link.
    pub fates: [BondFate; 6],
    /// What passed between the particle and each one found around it.
    pub contacts: Vec<Contact>,
    /// The position correction collected so far is to be dropped.
    pub drops_correction: bool,
}

/// The particle after gravity.
pub open spec fn pulled(p: Particle, m: ParticleReadings) -> Particle {
    if p.weighted() {
        Particle { vel: m.pulled_vel, ..p }
    } else {
        p
    }
}

/// The link in slot `k` that is put to the test: none, where the particle has melted.
pub open spec fn tested_link(p: Particle, params: SimParams, k: int) -> i32 {
    if p.melted(params.materials@[p.material_row()].melt_temp) {
        NO_LINK
    } else {
        p.links@[k]
    }
}

/// What becomes of the link in slot `k`.
pub open spec fn fate_of(
    i: int,
    p: Particle,
    particles: Seq<Particle>,
    params: SimParams,
    m: ParticleReadings,
    k: int,
) -> BondFate {
    bond_fate(i, p, tested_link(p, params, k), particles, params, m.bonds@[k])
}

/// The links that are left.
pub open spec fn kept_links(
    i: int,
    p: Particle,
    particles: Seq<Particle>,
    params: SimParams,
    m: ParticleReadings,
) -> Seq<i32> {
    Seq::new(
        6,
        |k: int|
            if fate_of(i, p, particles, params, m, k) == BondFate::Broken {
                NO_LINK
            } else {
                tested_link(p, params, k)
            },
    )
}

/// How many cells the particle looks around itself.
pub open spec fn sight(p: Particle, links: Seq<i32>, m: ParticleReadings) -> int {
    if m.softening.less(p.temperature) || used_slots(links, 6) < 6 {
        4
    } else {
        2
    }
}

/// The particles found around it.
pub open spec fn found_around(engine: CpuPhysics, m: ParticleReadings, radius: int) -> Seq<u32> {
    engine.around(m.cell, radius).map_values(|j: int| j as u32)
}

/// A temperature after a gain of heat of which the particle takes its share.
pub open spec fn warmed(
    p: Particle,
    heat: Single,
    all: Single,
    twentieth: Single,
) -> Single {
    match share_of(p, heat) {
        HeatShare::Nothing => p.temperature,
        HeatShare::Full => all,
        HeatShare::Twentieth => twentieth,
    }
}

/// Some neighbour's charge counts.
pub open spec fn any_spreads(contacts: Seq<Contact>) -> bool {
    exists|n: int| 0 <= n < contacts.len() && (#[trigger] contacts[n]).spreads
}

/// The particle after impulses, heat and charge.
pub open spec fn pushed(p: Particle, params: SimParams, m: ParticleReadings, contacts: Seq<Contact>) -> Particle {
    Particle {
        vel: m.pushed_vel,
        temperature: warmed(p, m.heat, m.heated, m.heated_twentieth),
        charge: if num(0).at_most(params.apply_charge) && m.tool.cursor_dist.less(
            params.grab_radius,
        ) {
            params.apply_charge
        } else if any_spreads(contacts) {
            m.leveled_charge
        } else {
            m.leaked_charge
        },
        ..p
    }
}

/// The particle after damping.
pub open spec fn damped(p: Particle, m: ParticleReadings) -> Particle {
    Particle {
        vel: m.damped_vel,
        temperature: warmed(p, m.speed_loss, m.drag_heated, m.drag_heated_twentieth),
        ..p
    }
}

/// The neighbours have been met: `met` is the particle with the bonds it has made.
pub open spec fn neighbors_met(
    i: int,
    p: Particle,
    particles: Seq<Particle>,
    params: SimParams,
    m: ParticleReadings,
    found: Seq<u32>,
    met: Particle,
    contacts: Seq<Contact>,
) -> bool {
    &&& met.same_but_links(p)
    &&& met.links@ == links_after(
        i,
        p,
        particles,
        params,
        m.tool.cursor_dist,
        found,
        m.contacts@,
        found.len() as int,
    )
    &&& contacts.len() == found.len()
    &&& forall|n: int|
        0 <= n < found.len() ==> #[trigger] contacts[n] == contact_of(
            i,
            p,
            links_after(i, p, particles, params, m.tool.cursor_dist, found, m.contacts@, n),
            particles,
            params,
            m.tool.cursor_dist,
            found[n] as int,
            m.contacts@[n],
        )
}

/// The stages of an active particle: `bonded` after its links were tested, `met` after the
/// neighbours, `acted` after the tool.
pub open spec fn stages(
    i: int,
    particles: Seq<Particle>,
    params: SimParams,
    engine: CpuPhysics,
    m: ParticleReadings,
    bonded: Particle,
    met: Particle,
    acted: Particle,
    out: Outcome,
) -> bool {
    let p = pulled(particles[i], m);
    let links = kept_links(i, p, particles, params, m);
    &&& bonded.same_but_links(p)
    &&& bonded.links@ == links
    &&& forall|k: int|
        0 <= k < 6 ==> #[trigger] out.fates@[k] == fate_of(i, p, particles, params, m, k)
    &&& neighbors_met(
        i,
        bonded,
        particles,
        params,
        m,
        found_around(engine, m, sight(p, links, m)),
        met,
        out.contacts@,
    )
    &&& tooled(pushed(met, params, m, out.contacts@), params, m.tool, acted)
    &&& out.drops_correction == (carries(params.drag_mode) && met.grabbed())
    &&& if params.is_paused_flag != 0 {
        out.particle == acted
    } else {
        braked(damped(acted, m), m.brake, out.particle)
    }
}

/// What a step makes of particle `i`.
pub open spec fn computed(
    i: int,
    particles: Seq<Particle>,
    params: SimParams,
    engine: CpuPhysics,
    m: ParticleReadings,
    out: Outcome,
) -> bool {
    let p = particles[i];
    if !p.whereabouts_known() {
        &&& p.rescued(m.refuge_y, out.particle)
        &&& forall|k: int| 0 <= k < 6 ==> out.fates@[k] == BondFate::Broken
        &&& out.contacts@.len() == 0
        &&& !out.drops_correction
    } else if p.removed() {
        &&& out.particle == p
        &&& forall|k: int| 0 <= k < 6 ==> out.fates@[k] == BondFate::Broken
        &&& out.contacts@.len() == 0
        &&& !out.drops_correction
    } else {
        exists|bonded: Particle, met: Particle, acted: Particle|
            stages(i, particles, params, engine, m, bonded, met, acted, out)
    }
}

/// A temperature after a gain of heat of which the particle takes its share.
fn warm(p: &Particle, heat: Single, all: Single, twentieth: Single) -> (r: Single)
    ensures
        r == warmed(*p, heat, all, twentieth),
{
    match heat_share(p, heat) {
        HeatShare::Nothing => p.temperature,
        HeatShare::Full => all,
        HeatShare::Twentieth => twentieth,
    }
}

/// Whether some neighbour's charge counts.
fn spreads_any(contacts: &Vec<Contact>) -> (r: bool)
    ensures
        r == any_spreads(contacts@),
{
    let mut n: usize = 0;
    while n < contacts.len()
        invariant
            n <= contacts@.len(),
            forall|a: int| 0 <= a < n ==> !(#[trigger] contacts@[a]).spreads,
        decreases contacts@.len() - n,
    {
        if contacts[n].spreads {
            assert(contacts@[n as int].spreads);
            return true;
        }
        n += 1;
    }
    false
}

/// Computes what a step makes of particle `i`.
pub fn compute_particle(
    i: usize,
    particles: &Vec<Particle>,
    params: &SimParams,
    engine: &CpuPhysics,
    m: &ParticleReadings,
) -> (out: Outcome)
    requires
        i < particles@.len() <= i32::MAX,
        engine.wf(),
        engine.heads_below(particles@.len() as int),
        on_grid(m.cell@[0] as int, m.cell@[1] as int),
        particles@[i as int].whereabouts_known() && !particles@[i as int].removed() ==> forall|k: int|
            0 <= k < 6 && names_active(
                #[trigger] tested_link(particles@[i as int], *params, k),
                params.active_count,
            ) ==> tested_link(particles@[i as int], *params, k) < particles@.len(),
        particles@[i as int].whereabouts_known() && !particles@[i as int].removed()
            ==> m.contacts@.len() == engine.around(
            m.cell,
            sight(
                pulled(particles@[i as int], *m),
                kept_links(
                    i as int,
                    pulled(particles@[i as int], *m),
                    particles@,
                    *params,
                    *m,
                ),
                *m,
            ),
        ).len(),
    ensures
        computed(i as int, particles@, *params, *engine, *m, out),
{
    match admission(&particles[i], m.refuge_y) {
        Admission::Settled(particle) => {
            return Outcome {
                particle,
                fates: [BondFate::Broken; 6],
                contacts: Vec::new(),
                drops_correction: false,
            };
        },
        Admission::Active => {},
    }
    let mut p: Particle = particles[i];
    if feels_gravity(&p) {
        p.vel = m.pulled_vel;
    }
    let melt_temp: Single = params.materials[p.material()].melt_temp;
    let shed: Particle = shed_links(&p, melt_temp);
    proof {
        assert forall|k: int|
            0 <= k < 6 && names_active(
                #[trigger] shed.links@[k],
                params.active_count,
            ) implies shed.links@[k] < particles@.len() by {
            assert(shed.links@[k] == tested_link(particles@[i as int], *params, k));
        }
    }
    let (bonded, fates) = settle_bonds(i, &shed, particles, params, &m.bonds);
    proof {
        assert(bonded.links@ =~= kept_links(i as int, p, particles@, *params, *m));
    }
    let used: u32 = count_links(&bonded.links);
    let radius: i32 = search_radius(&bonded, used, m.softening);
    let found: Vec<u32> = engine.neighbors(m.cell, radius);
    proof {
        let around = engine.around(m.cell, radius as int);
        law_neighbors_stay_below(*engine, particles@.len() as int, m.cell, radius as int);
        let plain = found@.map_values(|j: u32| j as int);
        assert forall|n: int| 0 <= n < found@.len() implies #[trigger] found@[n]
            < particles@.len() by {
            assert(plain[n] == around[n]);
        }
        assert(found@ =~= found_around(*engine, *m, radius as int)) by {
            assert forall|n: int| 0 <= n < found@.len() implies found@[n] == found_around(
                *engine,
                *m,
                radius as int,
            )[n] by {
                assert(plain[n] == around[n]);
            }
        }
    }
    let (met, contacts) = meet_neighbors(
        i,
        &bonded,
        particles,
        params,
        m.tool.cursor_dist,
        &found,
        &m.contacts,
    );
    let mut q: Particle = met;
    q.vel = m.pushed_vel;
    q.temperature = warm(&met, m.heat, m.heated, m.heated_twentieth);
    q.charge = if spreads_any(&contacts) {
        m.leveled_charge
    } else {
        m.leaked_charge
    };
    let charged: Particle = inject_charge(&q, params, m.tool.cursor_dist);
    let (acted, drops_correction) = apply_tool(&charged, params, &m.tool);
    let particle: Particle = if params.is_paused_flag != 0 {
        acted
    } else {
        let mut d: Particle = acted;
        d.vel = m.damped_vel;
        d.temperature = warm(&acted, m.speed_loss, m.drag_heated, m.drag_heated_twentieth);
        brake(&d, &m.brake)
    };
    let out = Outcome { particle, fates, contacts, drops_correction };
    proof {
        assert(stages(
            i as int,
            particles@,
            *params,
            *engine,
            *m,
            bonded,
            met,
            acted,
            out,
        ));
    }
    out
}

/// A removed particle takes part in nothing: whatever the numbers are, it comes out as it went in.
pub proof fn law_removed_takes_no_part(
    i: int,
    particles: Seq<Particle>,
    params: SimParams,
    engine: CpuPhysics,
    m: ParticleReadings,
    out: Outcome,
)
    requires
        computed(i, particles, params, engine, m, out),
        particles[i].whereabouts_known(),
        particles[i].removed(),
    ensures
        out.particle == particles[i],
{
}

/// A lost particle is put back with known whereabouts, if the place for it is known.
pub proof fn law_lost_is_found(
    i: int,
    particles: Seq<Particle>,
    params: SimParams,
    engine: CpuPhysics,
    m: ParticleReadings,
    out: Outcome,
)
    requires
        computed(i, particles, params, engine, m, out),
        !particles[i].whereabouts_known(),
        m.refuge_y.finite(),
    ensures
        out.particle.whereabouts_known(),
        out.particle.mat_type == particles[i].mat_type,
{
}

/// The links that a particle has after its step lead to active particles: each was kept, and the
/// other end had it too, or was made, and the other end had a free slot.
pub proof fn law_links_lead_to_partners(
    i: int,
    particles: Seq<Particle>,
    params: SimParams,
    engine: CpuPhysics,
    m: ParticleReadings,
    out: Outcome,
    k: int,
)
    requires
        computed(i, particles, params, engine, m, out),
        engine.wf(),
        engine.heads_below(particles.len() as int),
        0 <= i < particles.len() <= i32::MAX,
        particles[i].whereabouts_known(),
        !particles[i].removed(),
        0 <= k < 6,
        out.particle.links@[k] != NO_LINK,
    ensures
        0 <= out.particle.links@[k] < params.active_count,
        particles[out.particle.links@[k] as int].links@.contains(i as i32)
            || particles[out.particle.links@[k] as int].links@.contains(NO_LINK),
{
    let (bonded, met, acted) = choose|bonded: Particle, met: Particle, acted: Particle|
        stages(i, particles, params, engine, m, bonded, met, acted, out);
    let p = pulled(particles[i], m);
    let links = kept_links(i, p, particles, params, m);
    let radius = sight(p, links, m);
    let found = found_around(engine, m, radius);
    law_neighbors_stay_below(engine, particles.len() as int, m.cell, radius);
    assert forall|a: int| 0 <= a < found.len() implies #[trigger] found[a] <= i32::MAX by {
        assert(found[a] == engine.around(m.cell, radius)[a] as u32);
    }
    law_meeting_only_makes_bonds(
        i,
        bonded,
        particles,
        params,
        m.tool.cursor_dist,
        found,
        m.contacts@,
        found.len() as int,
    );
    assert(out.particle.links@ == acted.links@);
    assert(acted.links@[k] != NO_LINK ==> acted.links@[k] == met.links@[k]);
    let l = met.links@[k];
    if bonded.links@[k] != NO_LINK {
        assert(bonded.links@[k] == links[k]);
        assert(l == tested_link(p, params, k));
        assert(fate_of(i, p, particles, params, m, k) != BondFate::Broken);
    }
}

/// Without a tool at work, a step's forces and links do not change where a particle stands, what
/// it is made of or how heavy it is: these change only when it moves.
pub proof fn law_forces_leave_the_place(
    i: int,
    particles: Seq<Particle>,
    params: SimParams,
    engine: CpuPhysics,
    m: ParticleReadings,
    out: Outcome,
)
    requires
        computed(i, particles, params, engine, m, out),
        particles[i].whereabouts_known(),
        params.drag_mode == IDLE,
    ensures
        out.particle.pos == particles[i].pos,
        out.particle.mat_type == particles[i].mat_type,
        out.particle.inv_mass == particles[i].inv_mass,
        !particles[i].budgeted() ==> out.particle.grav_scale == particles[i].grav_scale,
{
}

/// A pinned particle that no tool holds and that does not float stays in its place through a
/// whole step, and is at rest after it, whatever the tool is: only what erases under the brush or in
/// a rectangle takes it away, and only the modifying brush makes something else of it.
pub proof fn law_pinned_stays_through_a_step(
    i: int,
    particles: Seq<Particle>,
    params: SimParams,
    engine: CpuPhysics,
    m: ParticleReadings,
    out: Outcome,
    motion: Motion,
    walls: Walls,
    to: Particle,
)
    requires
        computed(i, particles, params, engine, m, out),
        settles_to(out.particle, params, motion, walls, to),
        particles[i].whereabouts_known(),
        params.drag_mode != ERASE_BRUSH,
        params.drag_mode != ERASE_RECT,
        params.drag_mode != MODIFY,
        rigid(particles[i]),
        !particles[i].budgeted(),
        !particles[i].grabbed(),
    ensures
        to.pos@ == particles[i].pos@,
        to.vel@ == seq![num(0), num(0)],
{
    law_pinned_stays_put(out.particle, params, motion, walls, to);
}

/// A removed particle stays removed through a whole step, whatever the tool is.
pub proof fn law_removed_stays_removed(
    i: int,
    particles: Seq<Particle>,
    params: SimParams,
    engine: CpuPhysics,
    m: ParticleReadings,
    out: Outcome,
    motion: Motion,
    walls: Walls,
    to: Particle,
)
    requires
        computed(i, particles, params, engine, m, out),
        settles_to(out.particle, params, motion, walls, to),
        particles[i].removed(),
    ensures
        to.removed(),
{
}

/// A step removes nothing unless its tool erases, or its brush sets what is no plain material.
pub proof fn law_nothing_is_removed_unasked(
    i: int,
    particles: Seq<Particle>,
    params: SimParams,
    engine: CpuPhysics,
    m: ParticleReadings,
    out: Outcome,
    motion: Motion,
    walls: Walls,
    to: Particle,
)
    requires
        computed(i, particles, params, engine, m, out),
        settles_to(out.particle, params, motion, walls, to),
        !particles[i].removed(),
        !erases(params.drag_mode),
        params.mod_mat <= 0xff || params.mod_mat == KEEP_MATERIAL,
    ensures
        !to.removed(),
{
    if particles[i].whereabouts_known() {
        let (bonded, met, acted) = choose|bonded: Particle, met: Particle, acted: Particle|
            stages(i, particles, params, engine, m, bonded, met, acted, out);
        law_only_erasers_remove(pushed(met, params, m, out.contacts@), params, m.tool, acted);
    }
}

/// Letting go undoes taking hold, over two whole steps: a particle without marks is marked by the
/// first exactly if it can be moved and stands under the cursor, and has its old type word after
/// the second. A particle that is lost in between is put back instead.
pub proof fn law_release_undoes_grab_over_steps(
    i: int,
    particles: Seq<Particle>,
    grab: SimParams,
    engine: CpuPhysics,
    m: ParticleReadings,
    out: Outcome,
    motion: Motion,
    walls: Walls,
    held: Particle,
    later: Seq<Particle>,
    release: SimParams,
    later_engine: CpuPhysics,
    later_m: ParticleReadings,
    later_out: Outcome,
    later_motion: Motion,
    later_walls: Walls,
    freed: Particle,
)
    requires
        particles[i].whereabouts_known(),
        !particles[i].removed(),
        !particles[i].grabbed(),
        starts_grab(grab.drag_mode),
        computed(i, particles, grab, engine, m, out),
        settles_to(out.particle, grab, motion, walls, held),
        later[i] == held,
        held.whereabouts_known(),
        releases(release.drag_mode),
        computed(i, later, release, later_engine, later_m, later_out),
        settles_to(later_out.particle, release, later_motion, later_walls, freed),
    ensures
        held.mat_type == if m.tool.cursor_dist.less(grab.grab_radius) && particles[i].movable() {
            particles[i].mat_type | GRABBED
        } else {
            particles[i].mat_type
        },
        freed.mat_type == particles[i].mat_type,
        !freed.grabbed(),
{
    let w = particles[i].mat_type;
    assert(w & 0x8000_0000u32 == 0 ==> (w | 0x8000_0000u32) & 0x7fff_ffffu32 == w) by (bit_vector);
    assert((w | 0x8000_0000u32) & 0x8000_0000u32 != 0) by (bit_vector);
    assert((w | 0x8000_0000u32) & 0x4000_0000u32 == w & 0x4000_0000u32) by (bit_vector);
    let (bonded, met, acted) = choose|bonded: Particle, met: Particle, acted: Particle|
        stages(i, particles, grab, engine, m, bonded, met, acted, out);
    assert(met.mat_type == w && met.inv_mass == particles[i].inv_mass);
    assert(!held.removed());
    let (bonded2, met2, acted2) = choose|bonded: Particle, met: Particle, acted: Particle|
        stages(i, later, release, later_engine, later_m, bonded, met, acted, later_out);
    assert(met2.mat_type == held.mat_type);
}

/// A particle whose links are different, and whose distance to itself counts as none, has
/// different links after its step as well, and none to itself.
pub proof fn law_links_stay_distinct(
    i: int,
    particles: Seq<Particle>,
    params: SimParams,
    engine: CpuPhysics,
    m: ParticleReadings,
    out: Outcome,
    a: int,
    b: int,
)
    requires
        computed(i, particles, params, engine, m, out),
        engine.wf(),
        engine.heads_below(particles.len() as int),
        0 <= i < particles.len() <= i32::MAX,
        particles[i].whereabouts_known(),
        !particles[i].removed(),
        forall|j: int, k: int|
            0 <= j < k < 6 && #[trigger] particles[i].links@[j] >= 0
                && #[trigger] particles[i].links@[k] >= 0 ==> particles[i].links@[j]
                != particles[i].links@[k],
        forall|k: int|
            0 <= k < 6 && #[trigger] particles[i].links@[k] == i ==> m.bonds@[k].dist == num(0),
        0 <= a < b < 6,
    ensures
        out.particle.links@[a] != i && out.particle.links@[b] != i,
        out.particle.links@[a] != NO_LINK ==> 0 <= out.particle.links@[a] < params.active_count,
        out.particle.links@[b] != NO_LINK ==> 0 <= out.particle.links@[b] < params.active_count,
        out.particle.links@[a] != NO_LINK ==> out.particle.links@[a] != out.particle.links@[b],
{
    let (bonded, met, acted) = choose|bonded: Particle, met: Particle, acted: Particle|
        stages(i, particles, params, engine, m, bonded, met, acted, out);
    let p = pulled(particles[i], m);
    let links = kept_links(i, p, particles, params, m);
    let radius = sight(p, links, m);
    let found = found_around(engine, m, radius);
    law_neighbors_stay_below(engine, particles.len() as int, m.cell, radius);
    assert forall|n: int| 0 <= n < found.len() implies #[trigger] found[n] <= i32::MAX by {
        assert(found[n] == engine.around(m.cell, radius)[n] as u32);
    }
    law_meeting_only_makes_bonds(
        i,
        bonded,
        particles,
        params,
        m.tool.cursor_dist,
        found,
        m.contacts@,
        found.len() as int,
    );
    assert(out.particle.links@ == acted.links@);
    assert forall|k: int| 0 <= k < 6 implies {
        &&& #[trigger] met.links@[k] != i
        &&& met.links@[k] != NO_LINK ==> 0 <= met.links@[k] < params.active_count
        &&& acted.links@[k] == NO_LINK || acted.links@[k] == met.links@[k]
    } by {
        assert(bonded.links@[k] == links[k]);
        if bonded.links@[k] != NO_LINK {
            assert(fate_of(i, p, particles, params, m, k) != BondFate::Broken);
            assert(met.links@[k] == particles[i].links@[k]);
        }
    }
    assert(met.links@[a] != i && met.links@[b] != i);
    assert(bonded.links@[a] == links[a] && bonded.links@[b] == links[b]);
    if bonded.links@[a] != NO_LINK && bonded.links@[b] != NO_LINK {
        assert(met.links@[a] == particles[i].links@[a]);
        assert(met.links@[b] == particles[i].links@[b]);
    }
}

/// The readings of particle `i` in two lists of particles are the same, but for links that lead
/// to a removed one.
pub open spec fn same_readings(
    i: int,
    particles: Seq<Particle>,
    params: SimParams,
    m: ParticleReadings,
    other: ParticleReadings,
) -> bool {
    &&& other == (ParticleReadings { bonds: other.bonds, ..m })
    &&& forall|k: int|
        0 <= k < 6 && names_active(
            tested_link(particles[i], params, k),
            params.active_count,
        ) && !particles[tested_link(particles[i], params, k) as int].removed()
            ==> #[trigger] other.bonds@[k] == m.bonds@[k]
}

/// What a step makes of a particle depends on the particles before the step alone, and on those of
/// them that are not removed: removed ones influence no other, and lists left over from earlier
/// steps make no difference. The particle, what happened to it, and what its motion makes of it
/// are the same in both.
pub proof fn law_step_depends_on_what_is_there(
    i: int,
    particles: Seq<Particle>,
    cells: Seq<Cell>,
    engine: CpuPhysics,
    m: ParticleReadings,
    out: Outcome,
    others: Seq<Particle>,
    other_cells: Seq<Cell>,
    other_engine: CpuPhysics,
    other_m: ParticleReadings,
    other_out: Outcome,
    params: SimParams,
    n: int,
    motion: Motion,
    walls: Walls,
    to: Particle,
    other_to: Particle,
)
    requires
        same_but_removed(particles, others),
        same_cells(particles, cells, other_cells, n),
        cells_on_grid(cells, n),
        engine.lists(particles, cells, n),
        other_engine.lists(others, other_cells, n),
        0 <= i < n <= particles.len() <= i32::MAX,
        params.active_count <= particles.len(),
        particles[i] == others[i],
        same_readings(i, particles, params, m, other_m),
        computed(i, particles, params, engine, m, out),
        computed(i, others, params, other_engine, other_m, other_out),
        settles_to(out.particle, params, motion, walls, to),
        settles_to(other_out.particle, params, motion, walls, other_to),
    ensures
        out.particle == other_out.particle,
        out.fates@ == other_out.fates@,
        out.contacts@ == other_out.contacts@,
        out.drops_correction == other_out.drops_correction,
        to == other_to,
        settled_residue(out.particle, motion) == settled_residue(other_out.particle, motion),
{
    lemma_same_outcome(
        i,
        particles,
        cells,
        engine,
        m,
        out,
        others,
        other_cells,
        other_engine,
        other_m,
        other_out,
        params,
        n,
    );
    lemma_same_particle(to, other_to);
}

/// Lists left over from earlier steps make no difference: whatever is measured, as long as it is
/// measured from the particles before the step and from what is found around a cell, two engines
/// with the same residue leave the same particle and the same residue.
pub proof fn law_stale_lists_make_no_difference(
    i: int,
    particles: Seq<Particle>,
    cells: Seq<Cell>,
    params: SimParams,
    engine: CpuPhysics,
    other_engine: CpuPhysics,
    n: int,
    measured: spec_fn(spec_fn(Cell, int) -> Seq<int>) -> ParticleReadings,
    moved: spec_fn(ParticleReadings, [Single; 2]) -> Motion,
    out: Outcome,
    other_out: Outcome,
    walls: Walls,
    to: Particle,
    other_to: Particle,
)
    requires
        cells_on_grid(cells, n),
        engine.lists(particles, cells, n),
        other_engine.lists(particles, cells, n),
        engine.pos_residue@ == other_engine.pos_residue@,
        0 <= i < n <= particles.len() <= i32::MAX,
        params.active_count <= particles.len(),
        computed(i, particles, params, engine, readings_by(measured, engine), out),
        computed(
            i,
            particles,
            params,
            other_engine,
            readings_by(measured, other_engine),
            other_out,
        ),
        settles_to(
            out.particle,
            params,
            moved(readings_by(measured, engine), engine.pos_residue@[i]),
            walls,
            to,
        ),
        settles_to(
            other_out.particle,
            params,
            moved(readings_by(measured, other_engine), other_engine.pos_residue@[i]),
            walls,
            other_to,
        ),
    ensures
        to == other_to,
        settled_residue(
            out.particle,
            moved(readings_by(measured, engine), engine.pos_residue@[i]),
        ) == settled_residue(
            other_out.particle,
            moved(readings_by(measured, other_engine), other_engine.pos_residue@[i]),
        ),
{
    let finds = |cell: Cell, radius: int| engine.around(cell, radius);
    let other_finds = |cell: Cell, radius: int| other_engine.around(cell, radius);
    assert forall|cell: Cell, radius: int| #[trigger] finds(cell, radius) == other_finds(
        cell,
        radius,
    ) by {
        law_lists_depend_on_the_particles(
            engine,
            particles,
            cells,
            other_engine,
            particles,
            cells,
            n,
            cell,
            radius,
        );
    }
    assert(finds =~= other_finds);
    let m = readings_by(measured, engine);
    assert(m == readings_by(measured, other_engine));
    law_step_depends_on_what_is_there(
        i,
        particles,
        cells,
        engine,
        m,
        out,
        particles,
        cells,
        other_engine,
        m,
        other_out,
        params,
        n,
        moved(m, engine.pos_residue@[i]),
        walls,
        to,
        other_to,
    );
}

/// The readings that are measured from what an engine finds around a cell.
pub open spec fn readings_by(
    measured: spec_fn(spec_fn(Cell, int) -> Seq<int>) -> ParticleReadings,
    engine: CpuPhysics,
) -> ParticleReadings {
    measured(|cell: Cell, radius: int| engine.around(cell, radius))
}

/// What is there to be measured: the particles, without those that are removed.
pub open spec fn visible(particles: Seq<Particle>) -> Seq<Option<Particle>> {
    Seq::new(
        particles.len(),
        |j: int|
            if particles[j].removed() {
                None
            } else {
                Some(particles[j])
            },
    )
}

/// The readings that are measured from what is visible and from what an engine finds around a cell.
pub open spec fn readings_of(
    measured: spec_fn(Seq<Option<Particle>>, spec_fn(Cell, int) -> Seq<int>) -> ParticleReadings,
    particles: Seq<Particle>,
    engine: CpuPhysics,
) -> ParticleReadings {
    measured(visible(particles), |cell: Cell, radius: int| engine.around(cell, radius))
}

/// A removed particle influences no other. Whatever is measured, as long as it is measured from the
/// particles that are there (a reading of a link to a removed one may be anything), and whatever
/// the motion makes of that, two steps on particles that differ in removed ones only leave the same
/// particle and the same residue at every place where one was that is not removed.
pub proof fn law_removed_influence_no_other(
    i: int,
    particles: Seq<Particle>,
    cells: Seq<Cell>,
    engine: CpuPhysics,
    m: ParticleReadings,
    out: Outcome,
    others: Seq<Particle>,
    other_cells: Seq<Cell>,
    other_engine: CpuPhysics,
    other_m: ParticleReadings,
    other_out: Outcome,
    params: SimParams,
    n: int,
    measured: spec_fn(Seq<Option<Particle>>, spec_fn(Cell, int) -> Seq<int>) -> ParticleReadings,
    moved: spec_fn(ParticleReadings, [Single; 2]) -> Motion,
    walls: Walls,
    to: Particle,
    other_to: Particle,
)
    requires
        same_but_removed(particles, others),
        same_cells(particles, cells, other_cells, n),
        cells_on_grid(cells, n),
        engine.lists(particles, cells, n),
        other_engine.lists(others, other_cells, n),
        engine.pos_residue@[i] == other_engine.pos_residue@[i],
        0 <= i < n <= particles.len() <= i32::MAX,
        params.active_count <= particles.len(),
        !particles[i].removed(),
        same_readings(i, particles, params, readings_of(measured, particles, engine), m),
        same_readings(i, others, params, readings_of(measured, others, other_engine), other_m),
        computed(i, particles, params, engine, m, out),
        computed(i, others, params, other_engine, other_m, other_out),
        settles_to(
            out.particle,
            params,
            moved(readings_of(measured, particles, engine), engine.pos_residue@[i]),
            walls,
            to,
        ),
        settles_to(
            other_out.particle,
            params,
            moved(readings_of(measured, others, other_engine), other_engine.pos_residue@[i]),
            walls,
            other_to,
        ),
    ensures
        to == other_to,
        settled_residue(
            out.particle,
            moved(readings_of(measured, particles, engine), engine.pos_residue@[i]),
        ) == settled_residue(
            other_out.particle,
            moved(readings_of(measured, others, other_engine), other_engine.pos_residue@[i]),
        ),
{
    let finds = |cell: Cell, radius: int| engine.around(cell, radius);
    let other_finds = |cell: Cell, radius: int| other_engine.around(cell, radius);
    assert forall|cell: Cell, radius: int| #[trigger] finds(cell, radius) == other_finds(
        cell,
        radius,
    ) by {
        law_lists_depend_on_the_particles(
            engine,
            particles,
            cells,
            other_engine,
            others,
            other_cells,
            n,
            cell,
            radius,
        );
    }
    assert(finds =~= other_finds);
    assert forall|j: int| 0 <= j < particles.len() implies visible(particles)[j] == visible(
        others,
    )[j] by {
        assert(particles[j] == others[j] || particles[j].removed() && others[j].removed());
    }
    assert(visible(particles) =~= visible(others));
    let plain = readings_of(measured, particles, engine);
    assert(plain == readings_of(measured, others, other_engine));
    assert(particles[i] == others[i]);
    assert forall|k: int|
        0 <= k < 6 && names_active(
            tested_link(particles[i], params, k),
            params.active_count,
        ) && !particles[tested_link(particles[i], params, k) as int].removed() implies
        #[trigger] other_m.bonds@[k] == m.bonds@[k] by {
        let link = tested_link(particles[i], params, k) as int;
        assert(particles[link] == others[link] || particles[link].removed()
            && others[link].removed());
        assert(m.bonds@[k] == plain.bonds@[k]);
        assert(other_m.bonds@[k] == plain.bonds@[k]);
    }
    law_step_depends_on_what_is_there(
        i,
        particles,
        cells,
        engine,
        m,
        out,
        others,
        other_cells,
        other_engine,
        other_m,
        other_out,
        params,
        n,
        moved(plain, engine.pos_residue@[i]),
        walls,
        to,
        other_to,
    );
}

/// Particles with the same contents are equal.
proof fn lemma_same_particle(p: Particle, q: Particle)
    requires
        p.pos@ == q.pos@,
        p.vel@ == q.vel@,
        p.links@ == q.links@,
        p.charge == q.charge,
        p.angle == q.angle,
        p.temperature == q.temperature,
        p.mat_type == q.mat_type,
        p.inv_mass == q.inv_mass,
        p.grav_scale == q.grav_scale,
    ensures
        p == q,
{
    assert(p.pos =~= q.pos);
    assert(p.vel =~= q.vel);
    assert(p.links =~= q.links);
}

/// A tool makes one thing of a particle.
proof fn lemma_same_effect(p: Particle, params: SimParams, m: ToolReading, to: Particle, other: Particle)
    requires
        tooled(p, params, m, to),
        tooled(p, params, m, other),
    ensures
        to == other,
{
    assert(to.links@ =~= other.links@);
    lemma_same_particle(to, other);
}

/// Braking makes one thing of a particle.
proof fn lemma_same_braking(p: Particle, m: BrakeReading, to: Particle, other: Particle)
    requires
        braked(p, m, to),
        braked(p, m, other),
    ensures
        to == other,
{
    lemma_same_particle(to, other);
}

/// A link has one fate in two lists of particles that differ in removed ones only.
proof fn lemma_same_fate(
    i: int,
    p: Particle,
    particles: Seq<Particle>,
    m: ParticleReadings,
    others: Seq<Particle>,
    other_m: ParticleReadings,
    params: SimParams,
    k: int,
)
    requires
        same_but_removed(particles, others),
        params.active_count <= particles.len(),
        p == pulled(particles[i], m),
        same_readings(i, particles, params, m, other_m),
        0 <= k < 6,
    ensures
        fate_of(i, p, particles, params, m, k) == fate_of(i, p, others, params, other_m, k),
{
    let link = tested_link(p, params, k);
    assert(link == tested_link(particles[i], params, k));
    if names_active(link, params.active_count) {
        let other = others[link as int];
        assert(particles[link as int] == other || particles[link as int].removed()
            && other.removed());
        assert(!particles[link as int].removed() ==> other_m.bonds@[k] == m.bonds@[k]);
    }
}

/// The outcome is the same in two lists of particles that differ in removed ones only.
#[verifier::rlimit(30)]
proof fn lemma_same_outcome(
    i: int,
    particles: Seq<Particle>,
    cells: Seq<Cell>,
    engine: CpuPhysics,
    m: ParticleReadings,
    out: Outcome,
    others: Seq<Particle>,
    other_cells: Seq<Cell>,
    other_engine: CpuPhysics,
    other_m: ParticleReadings,
    other_out: Outcome,
    params: SimParams,
    n: int,
)
    requires
        same_but_removed(particles, others),
        same_cells(particles, cells, other_cells, n),
        cells_on_grid(cells, n),
        engine.lists(particles, cells, n),
        other_engine.lists(others, other_cells, n),
        0 <= i < n <= particles.len() <= i32::MAX,
        params.active_count <= particles.len(),
        particles[i] == others[i],
        same_readings(i, particles, params, m, other_m),
        computed(i, particles, params, engine, m, out),
        computed(i, others, params, other_engine, other_m, other_out),
    ensures
        out.particle == other_out.particle,
        out.fates@ == other_out.fates@,
        out.contacts@ == other_out.contacts@,
        out.drops_correction == other_out.drops_correction,
{
    if !particles[i].whereabouts_known() || particles[i].removed() {
        assert(out.fates@ =~= other_out.fates@);
        assert(out.contacts@ =~= other_out.contacts@);
        assert(out.particle.links@ =~= other_out.particle.links@);
        lemma_same_particle(out.particle, other_out.particle);
    } else {
        let (bonded, met, acted) = choose|bonded: Particle, met: Particle, acted: Particle|
            stages(i, particles, params, engine, m, bonded, met, acted, out);
        let (bonded2, met2, acted2) = choose|bonded: Particle, met: Particle, acted: Particle|
            stages(i, others, params, other_engine, other_m, bonded, met, acted, other_out);
        let p = pulled(particles[i], m);
        assert(p == pulled(others[i], other_m));
        assert forall|k: int| 0 <= k < 6 implies fate_of(i, p, particles, params, m, k) == fate_of(
            i,
            p,
            others,
            params,
            other_m,
            k,
        ) by {
            lemma_same_fate(i, p, particles, m, others, other_m, params, k);
        }
        let links = kept_links(i, p, particles, params, m);
        assert(links =~= kept_links(i, p, others, params, other_m));
        assert(out.fates@ =~= other_out.fates@);
        lemma_same_particle(bonded, bonded2);
        let radius = sight(p, links, m);
        let found = found_around(engine, m, radius);
        law_lists_depend_on_the_particles(
            engine,
            particles,
            cells,
            other_engine,
            others,
            other_cells,
            n,
            m.cell,
            radius,
        );
        law_neighbors_are_complete(engine, particles, cells, n, m.cell, radius);
        assert(found == found_around(other_engine, other_m, radius));
        assert forall|a: int| 0 <= a < found.len() implies particles[#[trigger] found[a] as int]
            == others[found[a] as int] by {
            let j = engine.around(m.cell, radius)[a];
            assert(engine.around(m.cell, radius).contains(j));
            assert(found[a] == j as u32);
            let _ = others[j];
        }
        assert forall|a: int| 0 <= a <= found.len() implies #[trigger] links_after(
            i,
            bonded,
            particles,
            params,
            m.tool.cursor_dist,
            found,
            m.contacts@,
            a,
        ) == links_after(
            i,
            bonded,
            others,
            params,
            m.tool.cursor_dist,
            found,
            m.contacts@,
            a,
        ) by {
            lemma_meeting_looks_at_neighbors(
                i,
                bonded,
                particles,
                others,
                params,
                m.tool.cursor_dist,
                found,
                m.contacts@,
                a,
            );
        }
        lemma_same_particle(met, met2);
        assert forall|a: int| 0 <= a < found.len() implies out.contacts@[a]
            == other_out.contacts@[a] by {
            assert(particles[found[a] as int] == others[found[a] as int]);
        }
        assert(out.contacts@ =~= other_out.contacts@);
        lemma_same_effect(pushed(met, params, m, out.contacts@), params, m.tool, acted, acted2);
        if params.is_paused_flag == 0 {
            lemma_same_braking(damped(acted, m), m.brake, out.particle, other_out.particle);
        }
    }
}

/// The step of an active particle is made of its stages, each on what the one before has left:
/// gravity, where it acts; the links that melting sheds; the links that break; the neighbours around
/// the cell, as far as the particle looks; impulses, heat and charge; the charge under the cursor;
/// the tool; and, unless the scene is paused, damping with its heat, and the brake.
pub proof fn law_step_goes_through_its_stages(
    i: usize,
    particles: Vec<Particle>,
    params: SimParams,
    engine: CpuPhysics,
    m: ParticleReadings,
    out: Outcome,
    heavy: bool,
    pulled_p: Particle,
    shed: Particle,
    settled: (Particle, [BondFate; 6]),
    used: u32,
    radius: i32,
    found: Vec<u32>,
    met: (Particle, Vec<Contact>),
    share: HeatShare,
    pushed_p: Particle,
    charged: Particle,
    acted: (Particle, bool),
    drag_share: HeatShare,
    damped_p: Particle,
    last: Particle,
)
    requires
        i < particles@.len() <= i32::MAX,
        engine.wf(),
        engine.heads_below(particles@.len() as int),
        on_grid(m.cell@[0] as int, m.cell@[1] as int),
        particles@[i as int].pos@[0].finite() && particles@[i as int].pos@[1].finite(),
        particles@[i as int].vel@[0].finite() && particles@[i as int].vel@[1].finite(),
        particles@[i as int].mat_type & 0x4000_0000 == 0,
        forall|k: int|
            0 <= k < 6 && names_active(
                #[trigger] tested_link(particles@[i as int], params, k),
                params.active_count,
            ) ==> tested_link(particles@[i as int], params, k) < particles@.len(),
        m.contacts@.len() == engine.around(
            m.cell,
            sight(
                pulled(particles@[i as int], m),
                kept_links(i as int, pulled(particles@[i as int], m), particles@, params, m),
                m,
            ),
        ).len(),
        call_ensures(compute_particle, (i, &particles, &params, &engine, &m), out),
        call_ensures(feels_gravity, (&particles@[i as int],), heavy),
        pulled_p == (Particle {
            vel: if heavy {
                m.pulled_vel
            } else {
                particles@[i as int].vel
            },
            ..particles@[i as int]
        }),
        call_ensures(
            shed_links,
            (&pulled_p, params.materials@[pulled_p.material_row()].melt_temp),
            shed,
        ),
        call_ensures(settle_bonds, (i, &shed, &particles, &params, &m.bonds), settled),
        call_ensures(count_links, (&settled.0.links,), used),
        call_ensures(search_radius, (&settled.0, used, m.softening), radius),
        call_ensures(CpuPhysics::neighbors, (&engine, m.cell, radius), found),
        call_ensures(
            meet_neighbors,
            (i, &settled.0, &particles, &params, m.tool.cursor_dist, &found, &m.contacts),
            met,
        ),
        call_ensures(heat_share, (&met.0, m.heat), share),
        pushed_p == (Particle {
            vel: m.pushed_vel,
            temperature: match share {
                HeatShare::Nothing => met.0.temperature,
                HeatShare::Full => m.heated,
                HeatShare::Twentieth => m.heated_twentieth,
            },
            charge: if exists|n: int| 0 <= n < met.1@.len() && (#[trigger] met.1@[n]).spreads {
                m.leveled_charge
            } else {
                m.leaked_charge
            },
            ..met.0
        }),
        call_ensures(inject_charge, (&pushed_p, &params, m.tool.cursor_dist), charged),
        call_ensures(apply_tool, (&charged, &params, &m.tool), acted),
        call_ensures(heat_share, (&acted.0, m.speed_loss), drag_share),
        damped_p == (Particle {
            vel: m.damped_vel,
            temperature: match drag_share {
                HeatShare::Nothing => acted.0.temperature,
                HeatShare::Full => m.drag_heated,
                HeatShare::Twentieth => m.drag_heated_twentieth,
            },
            ..acted.0
        }),
        call_ensures(brake, (&damped_p, &m.brake), last),
    ensures
        params.is_paused_flag != 0 ==> out.particle == acted.0,
        params.is_paused_flag == 0 ==> out.particle == last,
        out.fates@ == settled.1@,
        out.contacts@ == met.1@,
        out.drops_correction == acted.1,
{
    let (bonded2, met2, acted2) = choose|bonded: Particle, met: Particle, acted: Particle|
        stages(i as int, particles@, params, engine, m, bonded, met, acted, out);
    let p = pulled(particles@[i as int], m);
    assert(p == pulled_p);
    assert forall|k: int| 0 <= k < 6 && names_active(#[trigger] shed.links@[k], params.active_count)
        implies shed.links@[k] < particles@.len() by {
        assert(shed.links@[k] == tested_link(particles@[i as int], params, k));
    }
    let links = kept_links(i as int, p, particles@, params, m);
    assert forall|k: int| 0 <= k < 6 implies #[trigger] settled.1@[k] == fate_of(
        i as int,
        p,
        particles@,
        params,
        m,
        k,
    ) by {
        assert(shed.links@[k] == tested_link(p, params, k));
    }
    assert forall|k: int| 0 <= k < 6 implies #[trigger] settled.0.links@[k] == links[k] by {
        let _ = settled.1@[k];
        assert(shed.links@[k] == tested_link(p, params, k));
    }
    assert(settled.0.links@ =~= links);
    lemma_same_particle(settled.0, bonded2);
    assert(radius == sight(p, links, m));
    law_neighbors_stay_below(engine, particles@.len() as int, m.cell, radius as int);
    let around = engine.around(m.cell, radius as int);
    let plain = found@.map_values(|j: u32| j as int);
    assert(plain == around);
    assert forall|n: int| 0 <= n < found@.len() implies #[trigger] found@[n] < particles@.len() by {
        assert(plain[n] == around[n]);
    }
    assert(found@ =~= found_around(engine, m, radius as int)) by {
        assert forall|n: int| 0 <= n < found@.len() implies found@[n] == found_around(
            engine,
            m,
            radius as int,
        )[n] by {
            assert(plain[n] == around[n]);
        }
    }
    lemma_same_particle(met.0, met2);
    assert(out.contacts@ =~= met.1@) by {
        assert forall|n: int| 0 <= n < met.1@.len() implies out.contacts@[n] == met.1@[n] by {}
    }
    assert(out.fates@ =~= settled.1@);
    assert(any_spreads(met.1@) == exists|n: int|
        0 <= n < met.1@.len() && (#[trigger] met.1@[n]).spreads);
    assert(charged == pushed(met.0, params, m, out.contacts@));
    lemma_same_effect(charged, params, m.tool, acted.0, acted2);
    if params.is_paused_flag == 0 {
        assert(damped_p == damped(acted.0, m));
        lemma_same_braking(damped_p, m.brake, out.particle, last);
    }
}

/// Without a tool a step changes no place, material, mass, angle or mark. In a paused scene the
/// particle then has the velocity after the impulses. Otherwise it has the damped one, unless it
/// floats and moves: then the brake stops it where the budget covers the impulse, and what is left
/// of the budget is its gravity factor, or slows it, and it has no budget any more.
pub proof fn law_step_ends_with_the_brake(
    i: usize,
    particles: Vec<Particle>,
    params: SimParams,
    engine: CpuPhysics,
    m: ParticleReadings,
    out: Outcome,
)
    requires
        i < particles@.len() <= i32::MAX,
        engine.wf(),
        engine.heads_below(particles@.len() as int),
        on_grid(m.cell@[0] as int, m.cell@[1] as int),
        particles@[i as int].pos@[0].finite() && particles@[i as int].pos@[1].finite(),
        particles@[i as int].vel@[0].finite() && particles@[i as int].vel@[1].finite(),
        particles@[i as int].mat_type & 0x4000_0000 == 0,
        forall|k: int|
            0 <= k < 6 && names_active(
                #[trigger] tested_link(particles@[i as int], params, k),
                params.active_count,
            ) ==> tested_link(particles@[i as int], params, k) < particles@.len(),
        m.contacts@.len() == engine.around(
            m.cell,
            sight(
                pulled(particles@[i as int], m),
                kept_links(i as int, pulled(particles@[i as int], m), particles@, params, m),
                m,
            ),
        ).len(),
        params.drag_mode < 2 || params.drag_mode > 14,
        call_ensures(compute_particle, (i, &particles, &params, &engine, &m), out),
    ensures
        ({
            let p = particles@[i as int];
            let q = out.particle;
            let floats = p.grav_scale.less(num(0xb8d1_b717)) && num(0).less(m.brake.speed);
            &&& params.is_paused_flag != 0 ==> q.vel == m.pushed_vel && q.grav_scale == p.grav_scale
            &&& params.is_paused_flag == 0 && !floats ==> q.vel == m.damped_vel && q.grav_scale
                == p.grav_scale
            &&& params.is_paused_flag == 0 && floats && m.brake.impulse.at_most(m.brake.budget) ==> {
                &&& q.vel@[0].bits == 0
                &&& q.vel@[1].bits == 0
                &&& q.grav_scale == m.brake.left
                &&& q.temperature == m.brake.stopped_temperature
            }
            &&& params.is_paused_flag == 0 && floats && !m.brake.impulse.at_most(m.brake.budget)
                ==> {
                &&& q.vel == m.brake.slowed_vel
                &&& q.grav_scale.bits == 0
                &&& q.temperature == m.brake.slowed_temperature
            }
            &&& q.pos == p.pos
            &&& q.angle == p.angle
            &&& q.mat_type == p.mat_type
            &&& q.inv_mass == p.inv_mass
            &&& !out.drops_correction
        }),
{
    let (bonded, met, acted) = choose|bonded: Particle, met: Particle, acted: Particle|
        stages(i as int, particles@, params, engine, m, bonded, met, acted, out);
    assert(acted == pushed(met, params, m, out.contacts@));
}

/// Without a tool, the heat of links and neighbours and that of damping are taken one after the
/// other, whole or to a twentieth by a particle that is pinned or floats, and only where they are
/// gains. Under the cursor the charge is the one asked for; elsewhere it levels out where some
/// neighbour's counts, and leaks.
pub proof fn law_step_shares_heat_and_charge(
    i: usize,
    particles: Vec<Particle>,
    params: SimParams,
    engine: CpuPhysics,
    m: ParticleReadings,
    out: Outcome,
    n: int,
)
    requires
        i < particles@.len() <= i32::MAX,
        engine.wf(),
        engine.heads_below(particles@.len() as int),
        on_grid(m.cell@[0] as int, m.cell@[1] as int),
        particles@[i as int].pos@[0].finite() && particles@[i as int].pos@[1].finite(),
        particles@[i as int].vel@[0].finite() && particles@[i as int].vel@[1].finite(),
        particles@[i as int].mat_type & 0x4000_0000 == 0,
        forall|k: int|
            0 <= k < 6 && names_active(
                #[trigger] tested_link(particles@[i as int], params, k),
                params.active_count,
            ) ==> tested_link(particles@[i as int], params, k) < particles@.len(),
        m.contacts@.len() == engine.around(
            m.cell,
            sight(
                pulled(particles@[i as int], m),
                kept_links(i as int, pulled(particles@[i as int], m), particles@, params, m),
                m,
            ),
        ).len(),
        params.drag_mode < 2 || params.drag_mode > 14,
        call_ensures(compute_particle, (i, &particles, &params, &engine, &m), out),
    ensures
        ({
            let p = particles@[i as int];
            let q = out.particle;
            let slow = p.grav_scale.less(num(0xb8d1_b717)) || p.inv_mass.absolute().less(
                num(0x3a83_126f),
            );
            let floats = p.grav_scale.less(num(0xb8d1_b717)) && num(0).less(m.brake.speed);
            let asked = num(0).at_most(params.apply_charge) && m.tool.cursor_dist.less(
                params.grab_radius,
            );
            let warm = if !num(0).less(m.heat) {
                p.temperature
            } else if slow {
                m.heated_twentieth
            } else {
                m.heated
            };
            &&& params.is_paused_flag != 0 ==> q.temperature == warm
            &&& params.is_paused_flag == 0 && !floats && !num(0).less(m.speed_loss)
                ==> q.temperature == warm
            &&& params.is_paused_flag == 0 && !floats && num(0).less(m.speed_loss) && slow
                ==> q.temperature == m.drag_heated_twentieth
            &&& params.is_paused_flag == 0 && !floats && num(0).less(m.speed_loss) && !slow
                ==> q.temperature == m.drag_heated
            &&& asked ==> q.charge == params.apply_charge
            &&& !asked && 0 <= n < out.contacts@.len() && out.contacts@[n].spreads ==> q.charge
                == m.leveled_charge
            &&& !asked && (forall|a: int|
                0 <= a < out.contacts@.len() ==> !(#[trigger] out.contacts@[a]).spreads)
                ==> q.charge == m.leaked_charge
        }),
{
    let (bonded, met, acted) = choose|bonded: Particle, met: Particle, acted: Particle|
        stages(i as int, particles@, params, engine, m, bonded, met, acted, out);
    assert(acted == pushed(met, params, m, out.contacts@));
    if 0 <= n < out.contacts@.len() && out.contacts@[n].spreads {
        assert(any_spreads(out.contacts@));
    }
}

/// A removed particle is left exactly as it is, and a lost one is put back at rest, cold and
/// unlinked, with everything else it had; neither meets anyone.
pub proof fn law_step_passes_others_by(
    i: usize,
    particles: Vec<Particle>,
    params: SimParams,
    engine: CpuPhysics,
    m: ParticleReadings,
    out: Outcome,
    k: int,
)
    requires
        i < particles@.len() <= i32::MAX,
        engine.wf(),
        engine.heads_below(particles@.len() as int),
        on_grid(m.cell@[0] as int, m.cell@[1] as int),
        !particles@[i as int].pos@[0].finite() || !particles@[i as int].pos@[1].finite()
            || !particles@[i as int].vel@[0].finite() || !particles@[i as int].vel@[1].finite()
            || particles@[i as int].mat_type & 0x4000_0000 != 0,
        call_ensures(compute_particle, (i, &particles, &params, &engine, &m), out),
        0 <= k < 6,
    ensures
        ({
            let p = particles@[i as int];
            let q = out.particle;
            let known = p.pos@[0].finite() && p.pos@[1].finite() && p.vel@[0].finite()
                && p.vel@[1].finite();
            &&& known ==> q == p
            &&& !known ==> {
                &&& q.pos@[0].bits == 0
                &&& q.pos@[1] == m.refuge_y
                &&& q.vel@[0].bits == 0
                &&& q.vel@[1].bits == 0
                &&& q.temperature.bits == 0
                &&& q.links@[k] == -1
                &&& q.charge == p.charge
                &&& q.angle == p.angle
                &&& q.mat_type == p.mat_type
                &&& q.inv_mass == p.inv_mass
                &&& q.grav_scale == p.grav_scale
            }
        }),
        out.contacts@.len() == 0,
        out.fates@[k] is Broken,
        !out.drops_correction,
{
}

} // verus!
