//! Which colours the panels use.
use vstd::prelude::*;
use crate::single::{num, Single};

verus! {

/// 1000.0: up to here a charge counts as small.
pub const SMALL_CHARGE: u32 = 0x447a_0000;

/// 100000.0: up to here a charge counts as medium.
pub const MEDIUM_CHARGE: u32 = 0x47c3_5000;

/// 0.7: a fill above it is good.
pub const GOOD_FILL: u32 = 0x3f33_3333;

/// 0.3: a fill above it will do.
pub const FAIR_FILL: u32 = 0x3e99_999a;

/// How a charge is placed between the two colours of its band.
#[derive(Clone, Copy, Debug, PartialEq, Eq, Structural)]
pub enum ChargeBand {
    /// Eased from no charge up to a small one.
    Small,
    /// Eased from a small charge up to a medium one.
    Medium,
    /// Swinging to and fro.
    Large,
}

/// A band and the colours at its ends.
#[derive(Clone, Copy, Debug, PartialEq, Eq)]
pub struct ChargeRamp {
    pub band: ChargeBand,
    pub from: [u8; 3],
    pub to: [u8; 3],
}

/// The band of a charge; a lost number is in the last one.
pub open spec fn band_of(q: Single) -> ChargeBand {
    if q.at_most(num(SMALL_CHARGE)) {
        ChargeBand::Small
    } else if q.at_most(num(MEDIUM_CHARGE)) {
        ChargeBand::Medium
    } else {
        ChargeBand::Large
    }
}

/// The colours at the ends of a band. Each band begins with the colour that the one before it
/// ends with.
pub open spec fn band_colors(band: ChargeBand) -> (Seq<u8>, Seq<u8>) {
    let base = seq![100u8, 150u8, 150u8];
    let purple = seq![81u8, 0u8, 122u8];
    let deep_blue = seq![0u8, 51u8, 255u8];
    let bright_blue = seq![102u8, 204u8, 255u8];
    match band {
        ChargeBand::Small => (base, purple),
        ChargeBand::Medium => (purple, deep_blue),
        ChargeBand::Large => (deep_blue, bright_blue),
    }
}

/// The band of a charge and its colours.
pub fn charge_ramp(q: Single) -> (r: ChargeRamp)
    ensures
        r.band == band_of(q),
        (r.from@, r.to@) == band_colors(r.band),
{
    let base: [u8; 3] = [100u8, 150u8, 150u8];
    let purple: [u8; 3] = [81u8, 0u8, 122u8];
    let deep_blue: [u8; 3] = [0u8, 51u8, 255u8];
    let bright_blue: [u8; 3] = [102u8, 204u8, 255u8];
    assert(base@ =~= seq![100u8, 150u8, 150u8]);
    assert(purple@ =~= seq![81u8, 0u8, 122u8]);
    assert(deep_blue@ =~= seq![0u8, 51u8, 255u8]);
    assert(bright_blue@ =~= seq![102u8, 204u8, 255u8]);
    if q.le(Single::from_bits(SMALL_CHARGE)) {
        ChargeRamp { band: ChargeBand::Small, from: base, to: purple }
    } else if q.le(Single::from_bits(MEDIUM_CHARGE)) {
        ChargeRamp { band: ChargeBand::Medium, from: purple, to: deep_blue }
    } else {
        ChargeRamp { band: ChargeBand::Large, from: deep_blue, to: bright_blue }
    }
}

/// The colour of a charge, where `blend` is the mixture of its band's colours in the place that the
/// charge has between them: without charge it is the plain colour, and at the upper end of a band
/// that of the end.
pub open spec fn color_of(q: Single, blend: Seq<u8>) -> Seq<u8> {
    if q.at_most(num(0)) {
        band_colors(ChargeBand::Small).0
    } else if q == num(SMALL_CHARGE) {
        band_colors(ChargeBand::Small).1
    } else if q == num(MEDIUM_CHARGE) {
        band_colors(ChargeBand::Medium).1
    } else {
        blend
    }
}

/// The colour of a charge.
pub fn charge_color(q: Single, blend: [u8; 3]) -> (r: [u8; 3])
    ensures
        r@ == color_of(q, blend@),
{
    let ramp: ChargeRamp = charge_ramp(q);
    if q.le(Single::from_bits(0)) {
        ramp.from
    } else if q.bits == SMALL_CHARGE || q.bits == MEDIUM_CHARGE {
        ramp.to
    } else {
        blend
    }
}

/// How a card of a panel stands out.
#[derive(Clone, Copy, Debug, PartialEq, Eq, Structural)]
pub enum Shade {
    Selected,
    Hovered,
    Idle,
}

/// How a card stands out: being selected goes before being pointed at.
pub fn shade(selected: bool, hovered: bool) -> (r: Shade)
    ensures
        r == if selected {
            Shade::Selected
        } else if hovered {
            Shade::Hovered
        } else {
            Shade::Idle
        },
{
    if selected {
        Shade::Selected
    } else if hovered {
        Shade::Hovered
    } else {
        Shade::Idle
    }
}

/// The ground of a material card.
pub fn card_ground(s: Shade) -> (r: [u8; 4])
    ensures
        r@ == match s {
            Shade::Selected => seq![60u8, 60u8, 60u8, 230u8],
            Shade::Hovered => seq![50u8, 50u8, 50u8, 200u8],
            Shade::Idle => seq![35u8, 35u8, 40u8, 180u8],
        },
{
    let r: [u8; 4] = match s {
        Shade::Selected => [60u8, 60u8, 60u8, 230u8],
        Shade::Hovered => [50u8, 50u8, 50u8, 200u8],
        Shade::Idle => [35u8, 35u8, 40u8, 180u8],
    };
    assert(r@ =~= match s {
        Shade::Selected => seq![60u8, 60u8, 60u8, 230u8],
        Shade::Hovered => seq![50u8, 50u8, 50u8, 200u8],
        Shade::Idle => seq![35u8, 35u8, 40u8, 180u8],
    });
    r
}

/// The colour of a bar that is filled to `ratio`.
pub fn bar_color(ratio: Single) -> (r: [u8; 3])
    ensures
        r@ == if num(GOOD_FILL).less(ratio) {
            seq![80u8, 200u8, 120u8]
        } else if num(FAIR_FILL).less(ratio) {
            seq![220u8, 180u8, 50u8]
        } else {
            seq![220u8, 80u8, 60u8]
        },
{
    let good: [u8; 3] = [80u8, 200u8, 120u8];
    let fair: [u8; 3] = [220u8, 180u8, 50u8];
    let poor: [u8; 3] = [220u8, 80u8, 60u8];
    assert(good@ =~= seq![80u8, 200u8, 120u8]);
    assert(fair@ =~= seq![220u8, 180u8, 50u8]);
    assert(poor@ =~= seq![220u8, 80u8, 60u8]);
    if ratio.gt(Single::from_bits(GOOD_FILL)) {
        good
    } else if ratio.gt(Single::from_bits(FAIR_FILL)) {
        fair
    } else {
        poor
    }
}

/// A charge that is none or negative has one colour, whatever is mixed, and so has the largest
/// charge of each of the first two bands: there the next band begins.
pub proof fn law_ends_of_bands_are_not_mixed(q: Single, blend: Seq<u8>)
    ensures
        q.at_most(num(0)) ==> color_of(q, blend) == seq![100u8, 150u8, 150u8],
        color_of(num(SMALL_CHARGE), blend) == band_colors(ChargeBand::Medium).0,
        color_of(num(MEDIUM_CHARGE), blend) == seq![0u8, 51u8, 255u8],
{
}

/// The colours run on without a break: a band begins with the colour that the one before it ends
/// with.
pub proof fn law_bands_join()
    ensures
        band_colors(ChargeBand::Small).1 == band_colors(ChargeBand::Medium).0,
        band_colors(ChargeBand::Medium).1 == band_colors(ChargeBand::Large).0,
{
}

/// A charge up to 1000 runs from grey to purple, one up to 100000 from purple to deep blue, and any
/// other between deep and bright blue; so does one that is no number.
pub proof fn law_charges_run_through_three_bands(q: Single, r: ChargeRamp)
    requires
        call_ensures(charge_ramp, (q,), r),
    ensures
        q.at_most(num(0x447a_0000)) ==> {
            &&& r.band is Small
            &&& r.from@ == seq![100u8, 150u8, 150u8]
            &&& r.to@ == seq![81u8, 0u8, 122u8]
        },
        num(0x447a_0000).less(q) && q.at_most(num(0x47c3_5000)) ==> {
            &&& r.band is Medium
            &&& r.from@ == seq![81u8, 0u8, 122u8]
            &&& r.to@ == seq![0u8, 51u8, 255u8]
        },
        q.nan() || num(0x47c3_5000).less(q) ==> {
            &&& r.band is Large
            &&& r.from@ == seq![0u8, 51u8, 255u8]
            &&& r.to@ == seq![102u8, 204u8, 255u8]
        },
{
}

/// A charge has the mixed colour but for the ends of the bands: none is grey, 1000 is purple, 100000
/// deep blue.
pub proof fn law_ends_have_their_own_color(q: Single, blend: [u8; 3], r: [u8; 3])
    requires
        call_ensures(charge_color, (q, blend), r),
    ensures
        q.at_most(num(0)) ==> r@ == seq![100u8, 150u8, 150u8],
        q.bits == 0x447a_0000 ==> r@ == seq![81u8, 0u8, 122u8],
        q.bits == 0x47c3_5000 ==> r@ == seq![0u8, 51u8, 255u8],
        !q.at_most(num(0)) && q.bits != 0x447a_0000 && q.bits != 0x47c3_5000 ==> r@ == blend@,
{
}

/// A selected card stands out more than one that is pointed at, and that more than any other; and
/// each has its ground.
pub proof fn law_cards_stand_out(selected: bool, hovered: bool, s: Shade, ground: [u8; 4])
    requires
        call_ensures(shade, (selected, hovered), s),
        call_ensures(card_ground, (s,), ground),
    ensures
        selected ==> s is Selected && ground@ == seq![60u8, 60u8, 60u8, 230u8],
        !selected && hovered ==> s is Hovered && ground@ == seq![50u8, 50u8, 50u8, 200u8],
        !selected && !hovered ==> s is Idle && ground@ == seq![35u8, 35u8, 40u8, 180u8],
{
}

/// A bar is green above 0.7, yellow above 0.3 and red otherwise.
pub proof fn law_bars_turn_red(ratio: Single, r: [u8; 3])
    requires
        call_ensures(bar_color, (ratio,), r),
    ensures
        num(0x3f33_3333).less(ratio) ==> r@ == seq![80u8, 200u8, 120u8],
        num(0x3e99_999a).less(ratio) && !num(0x3f33_3333).less(ratio) ==> r@ == seq![
            220u8,
            180u8,
            50u8,
        ],
        !num(0x3e99_999a).less(ratio) ==> r@ == seq![220u8, 80u8, 60u8],
{
}

} // verus!
