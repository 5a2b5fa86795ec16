//! Materials: their definitions, the editable book of them, and the table of properties that
//! the simulation reads.
use vstd::prelude::*;
use crate::single::Single;

verus! {

/// Rows of the property table, and the most materials a book takes.
pub const MATERIAL_ROWS: usize = 16;

/// Materials below this number are built in: they can be neither edited nor removed.
pub const FIRST_CUSTOM: u32 = 8;

/// Property flag: the material is soft.
pub const FLAG_SOFT: u32 = 1;

/// Property flag: two colours are mixed.
pub const FLAG_NOISY: u32 = 2;

/// Property flag: the material is a fluid.
pub const FLAG_FLUID: u32 = 4;

/// What is written down about a material. An optional entry that is absent is filled in from
/// the material's number.
#[derive(Clone, Debug, PartialEq, Eq)]
pub struct MaterialDef {
    pub name: String,
    pub color: [u8; 4],
    pub color2: Option<[u8; 4]>,
    pub mass: Single,
    pub diameter: Single,
    pub conn_dist_mult: Single,
    pub link_dist_strength: Single,
    pub link_angle_strength: Single,
    pub melt_temp: Single,
    pub boil_temp: Option<Single>,
    pub is_soft: Option<bool>,
    pub is_noisy: Option<bool>,
    pub surface_tension: Option<Single>,
}

/// One row of the property table. Colours are bytes per channel and the breaking angle is in
/// degrees; both are scaled when the table is uploaded.
#[derive(Clone, Copy, Debug, PartialEq, Eq)]
pub struct MaterialPropsWGSL {
    pub base_color: [u8; 4],
    pub color2: [u8; 4],
    pub conn_dist: Single,
    pub len_break: Single,
    pub ang_break: Single,
    pub melt_temp: Single,
    pub boil_temp: Single,
    pub flags: u32,
    pub surface_tension: Single,
}

/// A channel value raised by `amount`, at most 255.
pub open spec fn raised(channel: u8, amount: int) -> int {
    if channel + amount <= 255 {
        channel + amount
    } else {
        255
    }
}

/// Whether material `i` mixes two colours when its definition does not say.
pub open spec fn noisy_by_number(i: int) -> bool {
    i == 1 || i == 4 || i == 5 || i == 7
}

/// Whether material `i` is soft when its definition does not say.
pub open spec fn soft_by_number(i: int) -> bool {
    i == 3 || i == 7
}

/// Boiling point of material `i` when its definition does not say: 2500, 3500, 600, 5930, 400
/// or 1500 degrees.
pub open spec fn boil_by_number(i: int) -> u32 {
    if i == 1 {
        0x451c_4000
    } else if i == 2 {
        0x455a_c000
    } else if i == 3 {
        0x4416_0000
    } else if i == 6 {
        0x45b9_5000
    } else if i == 7 {
        0x43c8_0000
    } else {
        0x44bb_8000
    }
}

/// Second colour of material `i` when its definition does not give one: the first colour, a
/// lighter version of it for the rocks, white for silicone.
pub open spec fn second_by_number(i: int, color: Seq<u8>) -> Seq<u8> {
    if i == 7 {
        seq![255u8, 255u8, 255u8, 255u8]
    } else if noisy_by_number(i) {
        seq![
            raised(color[0], 76) as u8,
            raised(color[1], 76) as u8,
            raised(color[2], 76) as u8,
            color[3],
        ]
    } else {
        color
    }
}

/// The value that an optional entry stands for.
pub open spec fn entry_or<T>(entry: Option<T>, otherwise: T) -> T {
    match entry {
        Some(v) => v,
        None => otherwise,
    }
}

impl MaterialDef {
    /// Whether the definition, as material `i`, mixes two colours.
    pub open spec fn noisy(self, i: int) -> bool {
        entry_or(self.is_noisy, noisy_by_number(i))
    }

    /// Whether the definition, as material `i`, is soft.
    pub open spec fn soft(self, i: int) -> bool {
        entry_or(self.is_soft, soft_by_number(i))
    }

    /// The property row of the definition as material `i`.
    pub open spec fn described_by(self, i: int, row: MaterialPropsWGSL) -> bool {
        &&& row.base_color@ == self.color@
        &&& row.color2@ == match self.color2 {
            Some(c) => c@,
            None => second_by_number(i, self.color@),
        }
        &&& row.conn_dist == self.conn_dist_mult
        &&& row.len_break == self.link_dist_strength
        &&& row.ang_break == self.link_angle_strength
        &&& row.melt_temp == self.melt_temp
        &&& row.boil_temp == entry_or(self.boil_temp, Single { bits: boil_by_number(i) })
        &&& row.surface_tension == entry_or(
            self.surface_tension,
            Single {
                bits: if i == 0 {
                    0x3e99_999a
                } else {
                    0
                },
            },
        )
        &&& row.flags == (if self.soft(i) {
            FLAG_SOFT as int
        } else {
            0
        }) + (if self.noisy(i) {
            FLAG_NOISY as int
        } else {
            0
        }) + (if i == 0 {
            FLAG_FLUID as int
        } else {
            0
        })
    }

    /// Equal in every entry, the name by its characters.
    pub open spec fn same_as(self, other: MaterialDef) -> bool {
        &&& self.name@ == other.name@
        &&& self.color@ == other.color@
        &&& self.color2 == other.color2
        &&& self.mass == other.mass
        &&& self.diameter == other.diameter
        &&& self.conn_dist_mult == other.conn_dist_mult
        &&& self.link_dist_strength == other.link_dist_strength
        &&& self.link_angle_strength == other.link_angle_strength
        &&& self.melt_temp == other.melt_temp
        &&& self.boil_temp == other.boil_temp
        &&& self.is_soft == other.is_soft
        &&& self.is_noisy == other.is_noisy
        &&& self.surface_tension == other.surface_tension
    }
}

/// A channel value raised by `amount`, at most 255.
pub fn raise_channel(channel: u8, amount: u8) -> (r: u8)
    ensures
        r == raised(channel, amount as int),
{
    let sum: u16 = channel as u16 + amount as u16;
    if sum <= 255 {
        sum as u8
    } else {
        255
    }
}

/// The property row of definition `m` as material `i`.
pub fn material_props(i: usize, m: &MaterialDef) -> (r: MaterialPropsWGSL)
    ensures
        m.described_by(i as int, r),
{
    let noisy_default = i == 1 || i == 4 || i == 5 || i == 7;
    let soft_default = i == 3 || i == 7;
    let boil_default: u32 = if i == 1 {
        0x451c_4000
    } else if i == 2 {
        0x455a_c000
    } else if i == 3 {
        0x4416_0000
    } else if i == 6 {
        0x45b9_5000
    } else if i == 7 {
        0x43c8_0000
    } else {
        0x44bb_8000
    };
    let color2: [u8; 4] = match m.color2 {
        Some(c) => c,
        None => if noisy_default {
            if i == 7 {
                [255u8, 255u8, 255u8, 255u8]
            } else {
                [
                    raise_channel(m.color[0], 76),
                    raise_channel(m.color[1], 76),
                    raise_channel(m.color[2], 76),
                    m.color[3],
                ]
            }
        } else {
            m.color
        },
    };
    let noisy = match m.is_noisy {
        Some(b) => b,
        None => noisy_default,
    };
    let soft = match m.is_soft {
        Some(b) => b,
        None => soft_default,
    };
    let boil_temp = match m.boil_temp {
        Some(t) => t,
        None => Single { bits: boil_default },
    };
    let surface_tension = match m.surface_tension {
        Some(t) => t,
        None => if i == 0 {
            Single { bits: 0x3e99_999a }
        } else {
            Single { bits: 0 }
        },
    };
    let mut flags: u32 = 0;
    if soft {
        flags = flags | FLAG_SOFT;
    }
    if noisy {
        flags = flags | FLAG_NOISY;
    }
    if i == 0 {
        flags = flags | FLAG_FLUID;
    }
    proof {
        assert(0u32 | 1 == 1 && 0u32 | 2 == 2 && 1u32 | 2 == 3 && 0u32 | 4 == 4 && 1u32 | 4 == 5
            && 2u32 | 4 == 6 && 3u32 | 4 == 7) by (bit_vector);
    }
    let row = MaterialPropsWGSL {
        base_color: m.color,
        color2,
        conn_dist: m.conn_dist_mult,
        len_break: m.link_dist_strength,
        ang_break: m.link_angle_strength,
        melt_temp: m.melt_temp,
        boil_temp,
        flags,
        surface_tension,
    };
    assert(row.color2@ =~= match m.color2 {
        Some(c) => c@,
        None => second_by_number(i as int, m.color@),
    });
    row
}

/// The row of a material that is not defined.
pub open spec fn blank_row(row: MaterialPropsWGSL) -> bool {
    &&& row.base_color@ == seq![0u8, 0u8, 0u8, 0u8]
    &&& row.color2@ == seq![0u8, 0u8, 0u8, 0u8]
    &&& row.conn_dist.bits == 0
    &&& row.len_break.bits == 0
    &&& row.ang_break.bits == 0
    &&& row.melt_temp.bits == 0
    &&& row.boil_temp.bits == 0
    &&& row.flags == 0
    &&& row.surface_tension.bits == 0
}

/// The rows describe the first sixteen materials; where there are fewer, the rest is blank.
pub open spec fn table_rows(materials: Seq<MaterialDef>, rows: Seq<MaterialPropsWGSL>) -> bool {
    &&& rows.len() == 16
    &&& forall|i: int|
        0 <= i < 16 ==> if i < materials.len() {
            materials[i].described_by(i, #[trigger] rows[i])
        } else {
            blank_row(rows[i])
        }
}

/// The property table: a row for each of the first sixteen materials, the rest blank.
pub fn material_table(materials: &Vec<MaterialDef>) -> (r: [MaterialPropsWGSL; 16])
    ensures
        table_rows(materials@, r@),
{
    let zero = Single { bits: 0 };
    let black: [u8; 4] = [0u8, 0u8, 0u8, 0u8];
    let blank = MaterialPropsWGSL {
        base_color: black,
        color2: black,
        conn_dist: zero,
        len_break: zero,
        ang_break: zero,
        melt_temp: zero,
        boil_temp: zero,
        flags: 0,
        surface_tension: zero,
    };
    assert(black@ =~= seq![0u8, 0u8, 0u8, 0u8]);
    assert(blank_row(blank));
    let mut table: [MaterialPropsWGSL; 16] = [blank; 16];
    let mut i: usize = 0;
    while i < 16 && i < materials.len()
        invariant
            i <= 16,
            i <= materials@.len(),
            blank_row(blank),
            forall|k: int|
                0 <= k < 16 ==> if k < i {
                    materials@[k].described_by(k, #[trigger] table@[k])
                } else {
                    blank_row(table@[k])
                },
        decreases 16 - i,
    {
        table[i] = material_props(i, &materials[i]);
        i += 1;
    }
    table
}

/// The entries of the material form.
#[derive(Clone, Debug)]
pub struct MaterialDraft {
    pub name: String,
    pub color: [u8; 4],
    pub color2: [u8; 4],
    pub is_noisy: bool,
    pub is_soft: bool,
    pub mass: Single,
    pub diameter: Single,
    pub conn_dist: Single,
    pub link_dist: Single,
    pub link_angle: Single,
    pub melt: Single,
    pub boil: Single,
    pub surface_tension: Single,
}

impl MaterialDraft {
    /// What the filled-in form defines. Every optional entry is given; without mixing, the
    /// second colour is the first.
    pub open spec fn defines(self, m: MaterialDef) -> bool {
        &&& m.name@ == self.name@
        &&& m.color@ == self.color@
        &&& m.color2 == Some(
            if self.is_noisy {
                self.color2
            } else {
                self.color
            },
        )
        &&& m.mass == self.mass
        &&& m.diameter == self.diameter
        &&& m.conn_dist_mult == self.conn_dist
        &&& m.link_dist_strength == self.link_dist
        &&& m.link_angle_strength == self.link_angle
        &&& m.melt_temp == self.melt
        &&& m.boil_temp == Some(self.boil)
        &&& m.is_soft == Some(self.is_soft)
        &&& m.is_noisy == Some(self.is_noisy)
        &&& m.surface_tension == Some(self.surface_tension)
    }

    /// The form as it opens on an existing definition.
    pub open spec fn shows(self, m: MaterialDef) -> bool {
        &&& self.name@ == m.name@
        &&& self.color@ == m.color@
        &&& self.color2 == entry_or(m.color2, m.color)
        &&& self.is_noisy == entry_or(m.is_noisy, false)
        &&& self.is_soft == entry_or(m.is_soft, false)
        &&& self.mass == m.mass
        &&& self.diameter == m.diameter
        &&& self.conn_dist == m.conn_dist_mult
        &&& self.link_dist == m.link_dist_strength
        &&& self.link_angle == m.link_angle_strength
        &&& self.melt == m.melt_temp
        &&& self.boil == entry_or(m.boil_temp, Single { bits: 0x44fa_0000 })
        &&& self.surface_tension == entry_or(m.surface_tension, Single { bits: 0 })
    }

    /// The definition that the filled-in form stands for.
    pub fn definition(&self) -> (r: MaterialDef)
        ensures
            self.defines(r),
    {
        MaterialDef {
            name: self.name.clone(),
            color: self.color,
            color2: if self.is_noisy {
                Some(self.color2)
            } else {
                Some(self.color)
            },
            mass: self.mass,
            diameter: self.diameter,
            conn_dist_mult: self.conn_dist,
            link_dist_strength: self.link_dist,
            link_angle_strength: self.link_angle,
            melt_temp: self.melt,
            boil_temp: Some(self.boil),
            is_soft: Some(self.is_soft),
            is_noisy: Some(self.is_noisy),
            surface_tension: Some(self.surface_tension),
        }
    }

    /// The form opened on an existing definition.
    pub fn of(m: &MaterialDef) -> (r: MaterialDraft)
        ensures
            r.shows(*m),
    {
        MaterialDraft {
            name: m.name.clone(),
            color: m.color,
            color2: match m.color2 {
                Some(c) => c,
                None => m.color,
            },
            is_noisy: match m.is_noisy {
                Some(b) => b,
                None => false,
            },
            is_soft: match m.is_soft {
                Some(b) => b,
                None => false,
            },
            mass: m.mass,
            diameter: m.diameter,
            conn_dist: m.conn_dist_mult,
            link_dist: m.link_dist_strength,
            link_angle: m.link_angle_strength,
            melt: m.melt_temp,
            boil: match m.boil_temp {
                Some(t) => t,
                None => Single { bits: 0x44fa_0000 },
            },
            surface_tension: match m.surface_tension {
                Some(t) => t,
                None => Single { bits: 0 },
            },
        }
    }
}

/// The list of materials and the one that is selected for spawning.
pub struct MaterialBook {
    pub materials: Vec<MaterialDef>,
    pub current: u32,
}

impl MaterialBook {
    /// The selection names a material.
    pub open spec fn selects_one(self) -> bool {
        self.current < self.materials@.len()
    }

    /// Whether material `mat` may be edited and removed.
    pub fn is_custom(mat: u32) -> (r: bool)
        ensures
            r == (mat >= FIRST_CUSTOM),
    {
        mat >= FIRST_CUSTOM
    }

    /// Takes material `idx` out and says whether there was one. A selection behind it moves up;
    /// if it was selected, the first material is selected instead.
    pub fn remove(&mut self, idx: usize) -> (r: bool)
        requires
            old(self).materials@.len() <= u32::MAX,
        ensures
            r == (idx < old(self).materials@.len()),
            !r ==> *final(self) == *old(self),
            r ==> final(self).materials@ == old(self).materials@.remove(idx as int),
            r ==> final(self).current == if old(self).current == idx {
                0
            } else if old(self).current > idx {
                old(self).current - 1
            } else {
                old(self).current as int
            },
            old(self).selects_one() && final(self).materials@.len() > 0
                ==> final(self).selects_one(),
    {
        if idx < self.materials.len() {
            self.materials.remove(idx);
            if self.current == idx as u32 {
                self.current = 0;
            } else if self.current > idx as u32 {
                self.current = self.current - 1;
            }
            true
        } else {
            false
        }
    }

    /// Appends a material and selects it, if fewer than sixteen are there; says whether it did.
    pub fn add(&mut self, draft: &MaterialDraft) -> (r: bool)
        ensures
            r == (old(self).materials@.len() < MATERIAL_ROWS),
            !r ==> *final(self) == *old(self),
            r ==> {
                &&& final(self).materials@.len() == old(self).materials@.len() + 1
                &&& final(self).materials@.drop_last() == old(self).materials@
                &&& draft.defines(final(self).materials@.last())
                &&& final(self).current == final(self).materials@.len() - 1
            },
            old(self).materials@.len() <= MATERIAL_ROWS ==> final(self).materials@.len()
                <= MATERIAL_ROWS,
    {
        if self.materials.len() < MATERIAL_ROWS {
            let ghost before = self.materials@;
            self.materials.push(draft.definition());
            assert(self.materials@.drop_last() == before);
            self.current = (self.materials.len() - 1) as u32;
            true
        } else {
            false
        }
    }

    /// Rewrites material `idx`, if there is one.
    pub fn replace(&mut self, idx: usize, draft: &MaterialDraft)
        ensures
            final(self).current == old(self).current,
            final(self).materials@.len() == old(self).materials@.len(),
            forall|k: int|
                0 <= k < final(self).materials@.len() ==> if k == idx {
                    draft.defines(#[trigger] final(self).materials@[k])
                } else {
                    final(self).materials@[k] == old(self).materials@[k]
                },
    {
        if idx < self.materials.len() {
            self.materials[idx] = draft.definition();
        }
    }

    /// Mass, as the spawning tools need it, of material `mat`; 1 for a material that is not
    /// there.
    pub fn mass_of(&self, mat: u32) -> (r: Single)
        ensures
            r == if mat < self.materials@.len() {
                self.materials@[mat as int].mass
            } else {
                Single { bits: 0x3f80_0000 }
            },
    {
        if (mat as usize) < self.materials.len() {
            self.materials[mat as usize].mass
        } else {
            Single { bits: 0x3f80_0000 }
        }
    }

    /// Spacing factor of material `mat`; 1.5 for a material that is not there.
    pub fn spacing_of(&self, mat: u32) -> (r: Single)
        ensures
            r == if mat < self.materials@.len() {
                self.materials@[mat as int].conn_dist_mult
            } else {
                Single { bits: 0x3fc0_0000 }
            },
    {
        if (mat as usize) < self.materials.len() {
            self.materials[mat as usize].conn_dist_mult
        } else {
            Single { bits: 0x3fc0_0000 }
        }
    }
}

/// Saving a form that was opened and not touched leaves a definition as it is, if that
/// definition had all its entries and a second colour equal to the first where it does not mix.
pub proof fn law_untouched_form_changes_nothing(m: MaterialDef, d: MaterialDraft, saved: MaterialDef)
    requires
        d.shows(m),
        d.defines(saved),
        m.is_noisy is Some,
        m.is_soft is Some,
        m.boil_temp is Some,
        m.surface_tension is Some,
        m.color2 == Some(
            if m.is_noisy == Some(true) {
                m.color2->0
            } else {
                m.color
            },
        ),
    ensures
        saved.same_as(m),
{
    assert(d.color =~= m.color);
}

/// A channel is raised by the amount, up to the brightest.
pub proof fn law_channels_are_raised_to_the_brightest(channel: u8, amount: u8, r: u8)
    requires
        call_ensures(raise_channel, (channel, amount), r),
    ensures
        channel + amount <= 255 ==> r == channel + amount,
        channel + amount > 255 ==> r == 255,
{
}

/// A property row holds what the definition says. What it leaves out is filled in by the number of
/// the material: 1, 4, 5 and 7 mix two colours, 3 and 7 are soft, 0 has surface tension and is, of
/// all of them, the fluid; each has its boiling point. The rocks mix in a lighter colour, silicone
/// white.
pub proof fn law_row_follows_the_definition(i: usize, m: MaterialDef, r: MaterialPropsWGSL, c: int)
    requires
        call_ensures(material_props, (i, &m), r),
        0 <= c < 4,
    ensures
        r.base_color@[c] == m.color@[c],
        m.color2 is Some ==> r.color2@[c] == m.color2->0@[c],
        m.color2 is None && i == 7 ==> r.color2@[c] == 255,
        m.color2 is None && (i == 1 || i == 4 || i == 5) && c < 3 && m.color@[c] + 76 <= 255
            ==> r.color2@[c] == m.color@[c] + 76,
        m.color2 is None && (i == 1 || i == 4 || i == 5) && c < 3 && m.color@[c] + 76 > 255
            ==> r.color2@[c] == 255,
        m.color2 is None && (i == 1 || i == 4 || i == 5) && c == 3 ==> r.color2@[c] == m.color@[c],
        m.color2 is None && i != 1 && i != 4 && i != 5 && i != 7 ==> r.color2@[c] == m.color@[c],
        r.conn_dist == m.conn_dist_mult,
        r.len_break == m.link_dist_strength,
        r.ang_break == m.link_angle_strength,
        r.melt_temp == m.melt_temp,
        m.boil_temp is Some ==> r.boil_temp == m.boil_temp->0,
        m.boil_temp is None ==> r.boil_temp.bits == if i == 1 {
            0x451c_4000u32
        } else if i == 2 {
            0x455a_c000
        } else if i == 3 {
            0x4416_0000
        } else if i == 6 {
            0x45b9_5000
        } else if i == 7 {
            0x43c8_0000
        } else {
            0x44bb_8000
        },
        m.surface_tension is Some ==> r.surface_tension == m.surface_tension->0,
        m.surface_tension is None && i == 0 ==> r.surface_tension.bits == 0x3e99_999a,
        m.surface_tension is None && i != 0 ==> r.surface_tension.bits == 0,
        r.flags < 8,
        (r.flags % 2 == 1) == match m.is_soft {
            Some(soft) => soft,
            None => i == 3 || i == 7,
        },
        (r.flags / 2 % 2 == 1) == match m.is_noisy {
            Some(noisy) => noisy,
            None => i == 1 || i == 4 || i == 5 || i == 7,
        },
        (r.flags / 4 == 1) == (i == 0),
{
}

/// The table has a row for each of the first sixteen materials, as the material alone gives it, and
/// blank rows for those that are not there.
pub proof fn law_table_has_a_row_for_each(
    materials: Vec<MaterialDef>,
    r: [MaterialPropsWGSL; 16],
    i: int,
    row: MaterialPropsWGSL,
)
    requires
        call_ensures(material_table, (&materials,), r),
        0 <= i < 16,
        i < materials@.len() ==> call_ensures(material_props, (i as usize, &materials@[i]), row),
    ensures
        i < materials@.len() ==> {
            &&& r@[i].base_color@ == row.base_color@
            &&& r@[i].color2@ == row.color2@
            &&& r@[i].conn_dist == row.conn_dist
            &&& r@[i].len_break == row.len_break
            &&& r@[i].ang_break == row.ang_break
            &&& r@[i].melt_temp == row.melt_temp
            &&& r@[i].boil_temp == row.boil_temp
            &&& r@[i].flags == row.flags
            &&& r@[i].surface_tension == row.surface_tension
        },
        i >= materials@.len() ==> {
            &&& (forall|c: int| 0 <= c < 4 ==> #[trigger] r@[i].base_color@[c] == 0)
            &&& (forall|c: int| 0 <= c < 4 ==> #[trigger] r@[i].color2@[c] == 0)
            &&& r@[i].conn_dist.bits == 0
            &&& r@[i].len_break.bits == 0
            &&& r@[i].ang_break.bits == 0
            &&& r@[i].melt_temp.bits == 0
            &&& r@[i].boil_temp.bits == 0
            &&& r@[i].flags == 0
            &&& r@[i].surface_tension.bits == 0
        },
{
    let _ = r@[i];
}

/// A form defines what it shows, with every entry given, and a second colour equal to the first
/// where it does not mix.
pub proof fn law_form_defines_what_it_shows(d: MaterialDraft, m: MaterialDef)
    requires
        call_ensures(MaterialDraft::definition, (&d,), m),
    ensures
        m.name@ == d.name@,
        m.color@ == d.color@,
        d.is_noisy ==> m.color2 == Some(d.color2),
        !d.is_noisy ==> m.color2 == Some(d.color),
        m.mass == d.mass,
        m.diameter == d.diameter,
        m.conn_dist_mult == d.conn_dist,
        m.link_dist_strength == d.link_dist,
        m.link_angle_strength == d.link_angle,
        m.melt_temp == d.melt,
        m.boil_temp == Some(d.boil),
        m.is_soft == Some(d.is_soft),
        m.is_noisy == Some(d.is_noisy),
        m.surface_tension == Some(d.surface_tension),
{
}

/// A form opens on what a definition says; what it leaves out opens as the first colour, neither
/// mixed nor soft, boiling at 2000, without surface tension.
pub proof fn law_form_opens_on_the_definition(m: MaterialDef, d: MaterialDraft)
    requires
        call_ensures(MaterialDraft::of, (&m,), d),
    ensures
        d.name@ == m.name@,
        d.color@ == m.color@,
        d.color2 == match m.color2 {
            Some(c) => c,
            None => m.color,
        },
        d.is_noisy == (m.is_noisy == Some(true)),
        d.is_soft == (m.is_soft == Some(true)),
        d.mass == m.mass,
        d.diameter == m.diameter,
        d.conn_dist == m.conn_dist_mult,
        d.link_dist == m.link_dist_strength,
        d.link_angle == m.link_angle_strength,
        d.melt == m.melt_temp,
        m.boil_temp is Some ==> d.boil == m.boil_temp->0,
        m.boil_temp is None ==> d.boil.bits == 0x44fa_0000,
        m.surface_tension is Some ==> d.surface_tension == m.surface_tension->0,
        m.surface_tension is None ==> d.surface_tension.bits == 0,
{
}

/// The first eight materials are built in, and a material that is not there has a mass of 1 and a
/// spacing of 1.5.
pub proof fn law_materials_are_looked_up(
    book: MaterialBook,
    mat: u32,
    custom: bool,
    mass: Single,
    spacing: Single,
)
    requires
        call_ensures(MaterialBook::is_custom, (mat,), custom),
        call_ensures(MaterialBook::mass_of, (&book, mat), mass),
        call_ensures(MaterialBook::spacing_of, (&book, mat), spacing),
    ensures
        custom == (mat >= 8),
        mat < book.materials@.len() ==> mass == book.materials@[mat as int].mass && spacing
            == book.materials@[mat as int].conn_dist_mult,
        mat >= book.materials@.len() ==> mass.bits == 0x3f80_0000 && spacing.bits == 0x3fc0_0000,
{
}

/// Removing a material takes out that one and closes up; the selection goes on naming the same
/// material, or the first where it named the one that is gone.
pub proof fn law_removing_a_material_closes_up(book: &mut MaterialBook, idx: usize, r: bool, k: int)
    requires
        old(book).materials@.len() <= u32::MAX,
        call_ensures(MaterialBook::remove, (book, idx), r),
    ensures
        r == (idx < old(book).materials@.len()),
        !r ==> *final(book) == *old(book),
        r ==> final(book).materials@.len() == old(book).materials@.len() - 1,
        r && 0 <= k < idx ==> final(book).materials@[k] == old(book).materials@[k],
        r && idx < k < old(book).materials@.len() ==> final(book).materials@[k - 1] == old(
            book,
        ).materials@[k],
        r && old(book).current == idx ==> final(book).current == 0,
        r && old(book).current < idx ==> final(book).current == old(book).current,
        r && old(book).current > idx ==> final(book).current == old(book).current - 1,
{
}

/// A material is added behind the others and selected, while there are fewer than sixteen; a sixteenth
/// is the last.
pub proof fn law_sixteen_materials_fit(
    book: &mut MaterialBook,
    draft: MaterialDraft,
    r: bool,
    m: MaterialDef,
    k: int,
)
    requires
        call_ensures(MaterialBook::add, (book, &draft), r),
        call_ensures(MaterialDraft::definition, (&draft,), m),
    ensures
        r == (old(book).materials@.len() < 16),
        !r ==> *final(book) == *old(book),
        r ==> {
            &&& final(book).materials@.len() == old(book).materials@.len() + 1
            &&& final(book).current == old(book).materials@.len()
            &&& ({
                let added = final(book).materials@[old(book).materials@.len() as int];
                &&& added.name@ == m.name@
                &&& added.color@ == m.color@
                &&& added.mass == m.mass
                &&& added.diameter == m.diameter
                &&& added.conn_dist_mult == m.conn_dist_mult
                &&& added.link_dist_strength == m.link_dist_strength
                &&& added.link_angle_strength == m.link_angle_strength
                &&& added.melt_temp == m.melt_temp
                &&& added.boil_temp == m.boil_temp
                &&& added.is_soft == m.is_soft
                &&& added.is_noisy == m.is_noisy
                &&& added.surface_tension == m.surface_tension
                &&& added.color2 == m.color2
            })
            &&& 0 <= k < old(book).materials@.len() ==> final(book).materials@[k] == old(
                book,
            ).materials@[k]
        },
{
    if r && 0 <= k < old(book).materials@.len() {
        assert(final(book).materials@.drop_last()[k] == final(book).materials@[k]);
    }
}

/// Rewriting a material puts what the form defines in its place and changes nothing else.
pub proof fn law_rewriting_changes_one_material(
    book: &mut MaterialBook,
    idx: usize,
    draft: MaterialDraft,
    done: (),
    m: MaterialDef,
    k: int,
)
    requires
        call_ensures(MaterialBook::replace, (book, idx, &draft), done),
        call_ensures(MaterialDraft::definition, (&draft,), m),
        0 <= k < old(book).materials@.len(),
    ensures
        final(book).current == old(book).current,
        final(book).materials@.len() == old(book).materials@.len(),
        k == idx ==> {
            let written = final(book).materials@[k];
            &&& written.name@ == m.name@
            &&& written.color@ == m.color@
            &&& written.mass == m.mass
            &&& written.diameter == m.diameter
            &&& written.conn_dist_mult == m.conn_dist_mult
            &&& written.link_dist_strength == m.link_dist_strength
            &&& written.link_angle_strength == m.link_angle_strength
            &&& written.melt_temp == m.melt_temp
            &&& written.boil_temp == m.boil_temp
            &&& written.is_soft == m.is_soft
            &&& written.is_noisy == m.is_noisy
            &&& written.surface_tension == m.surface_tension
            &&& written.color2 == m.color2
        },
        k != idx ==> final(book).materials@[k] == old(book).materials@[k],
{
    let _ = final(book).materials@[k];
}

} // verus!
