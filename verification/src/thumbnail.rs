//! Small square pictures of a scene: a dot for each particle on a plain ground.
use vstd::prelude::*;
use crate::material::MaterialDef;
use crate::particle::{Particle, MATERIAL_MASK};
use crate::single::{
    law_integer_parts_grow, num, Single, MINUS_ONE, QUARTER_KILO, SIGN_BIT,
};

verus! {

/// Width and height of a picture.
pub const SIDE: u32 = 256;

/// A picture. It is an `image::RgbaImage`, whose pixels the function `pixels` stands for.
#[verifier::external_body]
pub struct Picture {
    img: image::RgbaImage,
}

/// The pixels of a picture, row by row; each is red, green, blue and opacity.
pub uninterp spec fn pixels(p: Picture) -> Seq<Seq<[u8; 4]>>;

/// A square of pixels.
pub open spec fn square(rows: Seq<Seq<[u8; 4]>>) -> bool {
    &&& rows.len() == SIDE
    &&& forall|y: int| 0 <= y < SIDE ==> (#[trigger] rows[y]).len() == SIDE
}

/// Rows of one colour.
pub open spec fn filled(width: nat, height: nat, color: [u8; 4]) -> Seq<Seq<[u8; 4]>> {
    Seq::new(height, |y: int| Seq::new(width, |x: int| color))
}

/// A square of one colour.
pub open spec fn uniform(color: [u8; 4]) -> Seq<Seq<[u8; 4]>> {
    filled(SIDE as nat, SIDE as nat, color)
}

/// Calls `image::ImageBuffer::from_pixel`. The contract claims that the picture has the given
/// width and height and that every pixel has the given colour; the call panics where the bytes of
/// a row, or of all rows, outgrow a vector.
#[verifier::external_body]
fn plain(width: u32, height: u32, color: [u8; 4]) -> (r: Picture)
    requires
        4 * width <= i32::MAX,
        4 * width * height <= i32::MAX,
    ensures
        pixels(r) == filled(width as nat, height as nat, color),
{
    Picture { img: image::RgbaImage::from_pixel(width, height, image::Rgba(color)) }
}

/// Calls `image::ImageBuffer::put_pixel`. The contract claims that the one pixel changes and no
/// other; the call panics outside the picture.
#[verifier::external_body]
fn put_pixel(p: &mut Picture, x: u32, y: u32, color: [u8; 4])
    requires
        y < pixels(*old(p)).len(),
        x < pixels(*old(p))[y as int].len(),
    ensures
        pixels(*final(p)) == pixels(*old(p)).update(
            y as int,
            pixels(*old(p))[y as int].update(x as int, color),
        ),
{
    p.img.put_pixel(x, y, image::Rgba(color));
}

/// Calls `image::ImageBuffer::as_raw`. The contract claims that the bytes are those of the pixels,
/// row by row, four for each pixel.
#[verifier::external_body]
fn raw(p: &Picture) -> (r: Vec<u8>)
    requires
        square(pixels(*p)),
    ensures
        r@.len() == 4 * SIDE * SIDE,
        forall|y: int, x: int, c: int|
            0 <= y < SIDE && 0 <= x < SIDE && 0 <= c < 4 ==> r@[4 * (SIDE * y + x) + c]
                == #[trigger] pixels(*p)[y][x]@[c],
{
    p.img.as_raw().to_vec()
}

/// The bytes are those of the pixels, row by row, four for each pixel.
pub open spec fn spells(bytes: Seq<u8>, rows: Seq<Seq<[u8; 4]>>) -> bool {
    forall|y: int, x: int, c: int|
        0 <= y < SIDE && 0 <= x < SIDE && 0 <= c < 4 ==> bytes[4 * (SIDE * y + x) + c]
            == #[trigger] rows[y][x]@[c]
}

impl Picture {
    /// The bytes of the picture, row by row, four for each pixel.
    pub fn bytes(&self) -> (r: Vec<u8>)
        requires
            square(pixels(*self)),
        ensures
            r@.len() == 4 * SIDE * SIDE,
            forall|y: int, x: int, c: int|
                0 <= y < SIDE && 0 <= x < SIDE && 0 <= c < 4 ==> r@[4 * (SIDE * y + x) + c]
                    == #[trigger] pixels(*self)[y][x]@[c],
            spells(r@, pixels(*self)),
    {
        raw(self)
    }
}

/// A place on a picture, as it was computed.
#[derive(Clone, Copy, Debug, PartialEq, Eq)]
pub struct Spot {
    pub x: Single,
    pub y: Single,
}

/// A dot: where it goes, if it is on the picture, and its colour.
pub struct Dot {
    pub place: Option<(u32, u32)>,
    pub color: [u8; 4],
}

/// The rows after the first `n` dots were made, each over the ones before.
pub open spec fn dotted(ground: Seq<Seq<[u8; 4]>>, dots: Seq<Dot>, n: int) -> Seq<Seq<[u8; 4]>>
    decreases n,
{
    if n <= 0 {
        ground
    } else {
        let before = dotted(ground, dots, n - 1);
        match dots[n - 1].place {
            Some((x, y)) => before.update(
                y as int,
                before[y as int].update(x as int, dots[n - 1].color),
            ),
            None => before,
        }
    }
}

/// Every dot that goes somewhere goes on the picture.
pub open spec fn dots_fit(dots: Seq<Dot>) -> bool {
    forall|i: int|
        0 <= i < dots.len() ==> match (#[trigger] dots[i]).place {
            Some((x, y)) => x < SIDE && y < SIDE,
            None => true,
        }
}

proof fn lemma_dotted_square(ground: Seq<Seq<[u8; 4]>>, dots: Seq<Dot>, n: int)
    requires
        square(ground),
        dots_fit(dots),
        0 <= n <= dots.len(),
    ensures
        square(dotted(ground, dots, n)),
    decreases n,
{
    if n > 0 {
        lemma_dotted_square(ground, dots, n - 1);
        let _ = dots[n - 1];
    }
}

/// A picture with dots on a plain ground.
pub fn draw(ground: [u8; 4], dots: &Vec<Dot>) -> (r: Picture)
    requires
        dots_fit(dots@),
    ensures
        pixels(r) == dotted(uniform(ground), dots@, dots@.len() as int),
        square(pixels(r)),
{
    let mut p: Picture = plain(SIDE, SIDE, ground);
    let mut i: usize = 0;
    while i < dots.len()
        invariant
            i <= dots@.len(),
            dots_fit(dots@),
            pixels(p) == dotted(uniform(ground), dots@, i as int),
        decreases dots@.len() - i,
    {
        proof {
            lemma_dotted_square(uniform(ground), dots@, i as int);
            let _ = dots@[i as int];
        }
        match dots[i].place {
            Some((x, y)) => {
                put_pixel(&mut p, x, y, dots[i].color);
            },
            None => {},
        }
        i += 1;
    }
    proof {
        lemma_dotted_square(uniform(ground), dots@, dots@.len() as int);
    }
    p
}

/// The column or row of a coordinate of a whole scene: a fraction before the first still counts
/// as the first, and so does a lost coordinate.
pub open spec fn scene_cell(v: Single) -> Option<u32> {
    if v.nan() {
        Some(0)
    } else if v.at_most(num(MINUS_ONE)) || num(QUARTER_KILO).at_most(v) {
        None
    } else if v.negative() {
        Some(0)
    } else {
        Some(v.whole() as u32)
    }
}

/// The column or row of a coordinate of a blueprint.
pub open spec fn blueprint_cell(v: Single) -> Option<u32> {
    if num(0).at_most(v) && v.less(num(QUARTER_KILO)) {
        Some(
            if v.negative() {
                0
            } else {
                v.whole() as u32
            },
        )
    } else {
        None
    }
}

/// The place of two coordinates that are both on the picture.
pub open spec fn place_of(x: Option<u32>, y: Option<u32>) -> Option<(u32, u32)> {
    match (x, y) {
        (Some(x), Some(y)) => Some((x, y)),
        _ => None,
    }
}

/// The column or row of a coordinate of a whole scene.
fn cell_in_scene(v: Single) -> (r: Option<u32>)
    ensures
        r == scene_cell(v),
        r matches Some(c) ==> c < SIDE,
{
    if v.is_nan() {
        Some(0)
    } else if v.le(Single::from_bits(MINUS_ONE)) || v.ge(Single::from_bits(QUARTER_KILO)) {
        None
    } else if v.lt(Single::from_bits(0)) || v.bits == SIGN_BIT {
        Some(0)
    } else {
        Some(v.trunc())
    }
}

/// The column or row of a coordinate of a blueprint.
fn cell_in_blueprint(v: Single) -> (r: Option<u32>)
    ensures
        r == blueprint_cell(v),
        r matches Some(c) ==> c < SIDE,
{
    if v.ge(Single::from_bits(0)) && v.lt(Single::from_bits(QUARTER_KILO)) {
        if v.bits == SIGN_BIT {
            Some(0)
        } else {
            Some(v.trunc())
        }
    } else {
        None
    }
}

/// The place of two coordinates that are both on the picture.
fn both(x: Option<u32>, y: Option<u32>) -> (r: Option<(u32, u32)>)
    ensures
        r == place_of(x, y),
{
    match (x, y) {
        (Some(x), Some(y)) => Some((x, y)),
        _ => None,
    }
}

/// The colour of a particle on the picture of a whole scene.
pub open spec fn scene_color(p: Particle) -> Seq<u8> {
    let mat = p.mat_type & MATERIAL_MASK;
    if mat == 0 {
        seq![100u8, 150u8, 255u8, 255u8]
    } else if mat == 1 {
        seq![150u8, 150u8, 150u8, 255u8]
    } else if mat == 2 {
        seq![200u8, 200u8, 200u8, 255u8]
    } else if mat == 3 {
        seq![80u8, 80u8, 80u8, 255u8]
    } else {
        seq![255u8, 255u8, 255u8, 255u8]
    }
}

/// The colour of a particle of a blueprint: that of its material, or grey without one; opaque.
pub open spec fn blueprint_color(p: Particle, materials: Seq<MaterialDef>) -> Seq<u8> {
    let mat = (p.mat_type & MATERIAL_MASK) as int;
    if mat < materials.len() {
        seq![
            materials[mat].color@[0],
            materials[mat].color@[1],
            materials[mat].color@[2],
            255u8,
        ]
    } else {
        seq![200u8, 200u8, 200u8, 255u8]
    }
}

/// The dot of a particle on the picture of a whole scene.
pub fn scene_dot(p: &Particle, at: &Spot) -> (r: Dot)
    ensures
        r.place == place_of(scene_cell(at.x), scene_cell(at.y)),
        r.color@ == scene_color(*p),
        r.place matches Some((x, y)) ==> x < SIDE && y < SIDE,
{
    let mat: u32 = p.mat_type & MATERIAL_MASK;
    let color: [u8; 4] = if mat == 0 {
        [100u8, 150u8, 255u8, 255u8]
    } else if mat == 1 {
        [150u8, 150u8, 150u8, 255u8]
    } else if mat == 2 {
        [200u8, 200u8, 200u8, 255u8]
    } else if mat == 3 {
        [80u8, 80u8, 80u8, 255u8]
    } else {
        [255u8, 255u8, 255u8, 255u8]
    };
    assert(color@ =~= scene_color(*p));
    Dot { place: both(cell_in_scene(at.x), cell_in_scene(at.y)), color }
}

/// The colour of a particle as its material has it, or grey without one.
pub fn tint(p: &Particle, materials: &Vec<MaterialDef>) -> (r: [u8; 3])
    ensures
        r@ == blueprint_color(*p, materials@).subrange(0, 3),
{
    let mat: u32 = p.mat_type & MATERIAL_MASK;
    let r: [u8; 3] = if (mat as usize) < materials.len() {
        let c: [u8; 4] = materials[mat as usize].color;
        [c[0], c[1], c[2]]
    } else {
        [200u8, 200u8, 200u8]
    };
    assert(r@ =~= blueprint_color(*p, materials@).subrange(0, 3));
    r
}

/// The dot of a particle of a blueprint.
pub fn blueprint_dot(p: &Particle, at: &Spot, materials: &Vec<MaterialDef>) -> (r: Dot)
    ensures
        r.place == place_of(blueprint_cell(at.x), blueprint_cell(at.y)),
        r.color@ == blueprint_color(*p, materials@),
        r.place matches Some((x, y)) ==> x < SIDE && y < SIDE,
{
    let c: [u8; 3] = tint(p, materials);
    let color: [u8; 4] = [c[0], c[1], c[2], 255u8];
    assert(color@ =~= blueprint_color(*p, materials@)) by {
        let all = blueprint_color(*p, materials@);
        assert(c@[0] == all[0] && c@[1] == all[1] && c@[2] == all[2]);
    }
    Dot { place: both(cell_in_blueprint(at.x), cell_in_blueprint(at.y)), color }
}

/// The picture of a whole scene: particles on dark grey.
pub fn scene_picture(particles: &Vec<Particle>, spots: &Vec<Spot>) -> (r: Picture)
    requires
        spots@.len() == particles@.len(),
    ensures
        square(pixels(r)),
        exists|dots: Seq<Dot>, ground: [u8; 4]|
            {
                &&& ground@ == seq![40u8, 40u8, 40u8, 255u8]
                &&& dots.len() == particles@.len()
                &&& forall|i: int|
                    0 <= i < dots.len() ==> {
                        &&& (#[trigger] dots[i]).place == place_of(
                            scene_cell(spots@[i].x),
                            scene_cell(spots@[i].y),
                        )
                        &&& dots[i].color@ == scene_color(particles@[i])
                    }
                &&& pixels(r) == #[trigger] dotted(uniform(ground), dots, dots.len() as int)
            },
{
    let mut dots: Vec<Dot> = Vec::new();
    let mut i: usize = 0;
    while i < particles.len()
        invariant
            i <= particles@.len(),
            spots@.len() == particles@.len(),
            dots@.len() == i,
            dots_fit(dots@),
            forall|j: int|
                0 <= j < i ==> {
                    &&& (#[trigger] dots@[j]).place == place_of(
                        scene_cell(spots@[j].x),
                        scene_cell(spots@[j].y),
                    )
                    &&& dots@[j].color@ == scene_color(particles@[j])
                },
        decreases particles@.len() - i,
    {
        dots.push(scene_dot(&particles[i], &spots[i]));
        i += 1;
    }
    let ground: [u8; 4] = [40u8, 40u8, 40u8, 255u8];
    assert(ground@ =~= seq![40u8, 40u8, 40u8, 255u8]);
    draw(ground, &dots)
}

/// The picture of a blueprint: particles on dark blue-grey.
pub fn blueprint_picture(
    particles: &Vec<Particle>,
    spots: &Vec<Spot>,
    materials: &Vec<MaterialDef>,
) -> (r: Picture)
    requires
        spots@.len() == particles@.len(),
    ensures
        square(pixels(r)),
        exists|dots: Seq<Dot>, ground: [u8; 4]|
            {
                &&& ground@ == seq![40u8, 40u8, 50u8, 255u8]
                &&& dots.len() == particles@.len()
                &&& forall|i: int|
                    0 <= i < dots.len() ==> {
                        &&& (#[trigger] dots[i]).place == place_of(
                            blueprint_cell(spots@[i].x),
                            blueprint_cell(spots@[i].y),
                        )
                        &&& dots[i].color@ == blueprint_color(particles@[i], materials@)
                    }
                &&& pixels(r) == #[trigger] dotted(uniform(ground), dots, dots.len() as int)
            },
{
    let mut dots: Vec<Dot> = Vec::new();
    let mut i: usize = 0;
    while i < particles.len()
        invariant
            i <= particles@.len(),
            spots@.len() == particles@.len(),
            dots@.len() == i,
            dots_fit(dots@),
            forall|j: int|
                0 <= j < i ==> {
                    &&& (#[trigger] dots@[j]).place == place_of(
                        blueprint_cell(spots@[j].x),
                        blueprint_cell(spots@[j].y),
                    )
                    &&& dots@[j].color@ == blueprint_color(particles@[j], materials@)
                },
        decreases particles@.len() - i,
    {
        dots.push(blueprint_dot(&particles[i], &spots[i], materials));
        i += 1;
    }
    let ground: [u8; 4] = [40u8, 40u8, 50u8, 255u8];
    assert(ground@ =~= seq![40u8, 40u8, 50u8, 255u8]);
    draw(ground, &dots)
}

/// A pixel shows the last dot made there, or the ground where there is none.
pub proof fn law_pixel_shows_the_last_dot(
    ground: Seq<Seq<[u8; 4]>>,
    dots: Seq<Dot>,
    n: int,
    x: u32,
    y: u32,
)
    requires
        square(ground),
        dots_fit(dots),
        0 <= n <= dots.len(),
        x < SIDE,
        y < SIDE,
    ensures
        ({
            let shown = dotted(ground, dots, n)[y as int][x as int];
            ||| (shown == ground[y as int][x as int] && forall|i: int|
                0 <= i < n ==> (#[trigger] dots[i]).place != Some((x, y)))
            ||| exists|i: int|
                {
                    &&& 0 <= i < n
                    &&& (#[trigger] dots[i]).place == Some((x, y))
                    &&& shown == dots[i].color
                    &&& forall|j: int| i < j < n ==> (#[trigger] dots[j]).place != Some((x, y))
                }
        }),
    decreases n,
{
    if n > 0 {
        law_pixel_shows_the_last_dot(ground, dots, n - 1, x, y);
        lemma_dotted_square(ground, dots, n - 1);
        let before = dotted(ground, dots, n - 1);
        let shown = dotted(ground, dots, n)[y as int][x as int];
        if dots[n - 1].place == Some((x, y)) {
            assert(shown == dots[n - 1].color);
        } else {
            assert(shown == before[y as int][x as int]) by {
                match dots[n - 1].place {
                    Some((a, b)) => {
                        let _ = before[b as int].len();
                    },
                    None => {},
                }
            }
            if exists|i: int|
                {
                    &&& 0 <= i < n - 1
                    &&& (#[trigger] dots[i]).place == Some((x, y))
                    &&& before[y as int][x as int] == dots[i].color
                    &&& forall|j: int|
                        i < j < n - 1 ==> (#[trigger] dots[j]).place != Some((x, y))
                } {
                let i = choose|i: int|
                    {
                        &&& 0 <= i < n - 1
                        &&& (#[trigger] dots[i]).place == Some((x, y))
                        &&& before[y as int][x as int] == dots[i].color
                        &&& forall|j: int|
                            i < j < n - 1 ==> (#[trigger] dots[j]).place != Some((x, y))
                    };
                assert(dots[i].place == Some((x, y)));
            }
        }
    }
}

/// Where a particle of a whole scene goes: in the column and row of its integer parts, where these
/// are on the picture. A lost coordinate, and one less than one before the picture, counts as the
/// first.
pub proof fn law_scene_dots_go_where_they_are(p: Particle, at: Spot, r: Dot, x: u32, y: u32)
    requires
        call_ensures(scene_dot, (&p, &at), r),
        num(0).less(at.x) && at.x.less(num(0x4380_0000)) ==> call_ensures(Single::trunc, (at.x,), x),
        num(0).less(at.y) && at.y.less(num(0x4380_0000)) ==> call_ensures(Single::trunc, (at.y,), y),
    ensures
        ({
            let off_x = at.x.at_most(num(0xbf80_0000)) || num(0x4380_0000).at_most(at.x);
            let off_y = at.y.at_most(num(0xbf80_0000)) || num(0x4380_0000).at_most(at.y);
            let inner_x = num(0).less(at.x) && at.x.less(num(0x4380_0000));
            let inner_y = num(0).less(at.y) && at.y.less(num(0x4380_0000));
            &&& r.place is None <==> off_x || off_y
            &&& r.place matches Some((c, d)) ==> {
                &&& inner_x ==> c == x
                &&& !inner_x ==> c == 0
                &&& inner_y ==> d == y
                &&& !inner_y ==> d == 0
            }
        }),
{
    assert(num(0).whole() == 0);
}

/// What a particle of a whole scene looks like: bluish for the first material, then three greys, and
/// white for any other; opaque.
pub proof fn law_scene_dots_have_five_colors(p: Particle, at: Spot, r: Dot)
    requires
        call_ensures(scene_dot, (&p, &at), r),
    ensures
        ({
            let mat = p.mat_type & 0xff;
            let c = r.color@;
            &&& mat == 0 ==> c[0] == 100 && c[1] == 150 && c[2] == 255
            &&& mat == 1 ==> c[0] == 150 && c[1] == 150 && c[2] == 150
            &&& mat == 2 ==> c[0] == 200 && c[1] == 200 && c[2] == 200
            &&& mat == 3 ==> c[0] == 80 && c[1] == 80 && c[2] == 80
            &&& mat > 3 ==> c[0] == 255 && c[1] == 255 && c[2] == 255
            &&& c[3] == 255
        }),
{
}

/// Where a particle of a blueprint goes: in the column and row of its integer parts, where both
/// coordinates are on the picture, and nowhere otherwise.
pub proof fn law_blueprint_dots_go_where_they_are(
    p: Particle,
    at: Spot,
    materials: Vec<MaterialDef>,
    r: Dot,
    x: u32,
    y: u32,
)
    requires
        call_ensures(blueprint_dot, (&p, &at, &materials), r),
        num(0).less(at.x) && at.x.less(num(0x4380_0000)) ==> call_ensures(Single::trunc, (at.x,), x),
        num(0).less(at.y) && at.y.less(num(0x4380_0000)) ==> call_ensures(Single::trunc, (at.y,), y),
    ensures
        r.place is Some <==> num(0).at_most(at.x) && at.x.less(num(0x4380_0000)) && num(0).at_most(
            at.y,
        ) && at.y.less(num(0x4380_0000)),
        r.place matches Some((c, d)) ==> {
            &&& num(0).less(at.x) ==> c == x
            &&& !num(0).less(at.x) ==> c == 0
            &&& num(0).less(at.y) ==> d == y
            &&& !num(0).less(at.y) ==> d == 0
        },
{
    assert(num(0).whole() == 0);
}

/// A particle of a blueprint has the colour of its material, or grey without one, and is opaque.
pub proof fn law_blueprint_dots_have_their_material(
    p: Particle,
    at: Spot,
    materials: Vec<MaterialDef>,
    r: Dot,
    t: [u8; 3],
    c: int,
)
    requires
        call_ensures(blueprint_dot, (&p, &at, &materials), r),
        call_ensures(tint, (&p, &materials), t),
        0 <= c < 3,
    ensures
        p.mat_type & 0xff < materials@.len() ==> r.color@[c] == materials@[(p.mat_type
            & 0xff) as int].color@[c],
        p.mat_type & 0xff >= materials@.len() ==> r.color@[c] == 200,
        r.color@[3] == 255,
        t@[c] == r.color@[c],
{
    assert(t@[c] == blueprint_color(p, materials@)[c]);
}

/// On a drawn picture of 256 by 256, each pixel shows the last dot that goes there, or the ground
/// where none does.
pub proof fn law_drawn_pixel_shows_the_last_dot(
    ground: [u8; 4],
    dots: Vec<Dot>,
    r: Picture,
    x: u32,
    y: u32,
    i: int,
)
    requires
        forall|j: int|
            0 <= j < dots@.len() ==> match (#[trigger] dots@[j]).place {
                Some((a, b)) => a < 256 && b < 256,
                None => true,
            },
        call_ensures(draw, (ground, &dots), r),
        x < 256,
        y < 256,
    ensures
        pixels(r).len() == 256,
        pixels(r)[y as int].len() == 256,
        0 <= i < dots@.len() && dots@[i].place == Some((x, y)) && (forall|j: int|
            i < j < dots@.len() ==> (#[trigger] dots@[j]).place != Some((x, y)))
            ==> pixels(r)[y as int][x as int] == dots@[i].color,
        (forall|j: int| 0 <= j < dots@.len() ==> (#[trigger] dots@[j]).place != Some((x, y)))
            ==> pixels(r)[y as int][x as int] == ground,
{
    assert(dots_fit(dots@));
    law_pixel_shows_the_last_dot(uniform(ground), dots@, dots@.len() as int, x, y);
    let _ = pixels(r)[y as int].len();
}

/// The picture of a scene shows in each pixel the last particle that goes there, and dark grey where
/// none does. The one of a blueprint does the same on a bluish ground.
pub proof fn law_pictures_show_the_last_particle(
    particles: Vec<Particle>,
    spots: Vec<Spot>,
    materials: Vec<MaterialDef>,
    scene: Picture,
    blueprint: Picture,
    x: u32,
    y: u32,
    i: int,
    dot: Dot,
    blue: Dot,
)
    requires
        spots@.len() == particles@.len(),
        call_ensures(scene_picture, (&particles, &spots), scene),
        call_ensures(blueprint_picture, (&particles, &spots, &materials), blueprint),
        x < 256,
        y < 256,
        0 <= i < particles@.len() || particles@.len() == 0,
        particles@.len() > 0 ==> call_ensures(scene_dot, (&particles@[i], &spots@[i]), dot),
        particles@.len() > 0 ==> call_ensures(
            blueprint_dot,
            (&particles@[i], &spots@[i], &materials),
            blue,
        ),
    ensures
        particles@.len() > 0 && dot.place == Some((x, y)) && (forall|j: int|
            i < j < particles@.len() ==> place_of(
                scene_cell((#[trigger] spots@[j]).x),
                scene_cell(spots@[j].y),
            ) != Some((x, y))) ==> pixels(scene)[y as int][x as int]@ == dot.color@,
        (forall|j: int|
            0 <= j < particles@.len() ==> place_of(
                scene_cell((#[trigger] spots@[j]).x),
                scene_cell(spots@[j].y),
            ) != Some((x, y))) ==> pixels(scene)[y as int][x as int]@ == seq![
            40u8,
            40u8,
            40u8,
            255u8,
        ],
        particles@.len() > 0 && blue.place == Some((x, y)) && (forall|j: int|
            i < j < particles@.len() ==> place_of(
                blueprint_cell((#[trigger] spots@[j]).x),
                blueprint_cell(spots@[j].y),
            ) != Some((x, y))) ==> pixels(blueprint)[y as int][x as int]@ == blue.color@,
        (forall|j: int|
            0 <= j < particles@.len() ==> place_of(
                blueprint_cell((#[trigger] spots@[j]).x),
                blueprint_cell(spots@[j].y),
            ) != Some((x, y))) ==> pixels(blueprint)[y as int][x as int]@ == seq![
            40u8,
            40u8,
            50u8,
            255u8,
        ],
{
    let (dots, ground) = choose|dots: Seq<Dot>, ground: [u8; 4]|
        {
            &&& ground@ == seq![40u8, 40u8, 40u8, 255u8]
            &&& dots.len() == particles@.len()
            &&& forall|k: int|
                0 <= k < dots.len() ==> {
                    &&& (#[trigger] dots[k]).place == place_of(
                        scene_cell(spots@[k].x),
                        scene_cell(spots@[k].y),
                    )
                    &&& dots[k].color@ == scene_color(particles@[k])
                }
            &&& pixels(scene) == #[trigger] dotted(uniform(ground), dots, dots.len() as int)
        };
    lemma_scene_dots_fit(spots@, dots);
    law_pixel_shows_the_last_dot(uniform(ground), dots, dots.len() as int, x, y);
    let (others, floor) = choose|dots: Seq<Dot>, ground: [u8; 4]|
        {
            &&& ground@ == seq![40u8, 40u8, 50u8, 255u8]
            &&& dots.len() == particles@.len()
            &&& forall|k: int|
                0 <= k < dots.len() ==> {
                    &&& (#[trigger] dots[k]).place == place_of(
                        blueprint_cell(spots@[k].x),
                        blueprint_cell(spots@[k].y),
                    )
                    &&& dots[k].color@ == blueprint_color(particles@[k], materials@)
                }
            &&& pixels(blueprint) == #[trigger] dotted(uniform(ground), dots, dots.len() as int)
        };
    lemma_blueprint_dots_fit(spots@, others);
    law_pixel_shows_the_last_dot(uniform(floor), others, others.len() as int, x, y);
    if particles@.len() > 0 {
        let _ = dots[i];
        let _ = others[i];
    }
    assert forall|j: int| 0 <= j < dots.len() implies (#[trigger] dots[j]).place == place_of(
        scene_cell(spots@[j].x),
        scene_cell(spots@[j].y),
    ) && others[j].place == place_of(blueprint_cell(spots@[j].x), blueprint_cell(spots@[j].y)) by {
        let _ = others[j];
        let _ = spots@[j];
    }
    assert forall|j: int| 0 <= j < others.len() implies (#[trigger] others[j]).place == place_of(
        blueprint_cell(spots@[j].x),
        blueprint_cell(spots@[j].y),
    ) by {
        let _ = spots@[j];
    }
}

proof fn lemma_scene_dots_fit(spots: Seq<Spot>, dots: Seq<Dot>)
    requires
        dots.len() == spots.len(),
        forall|k: int|
            0 <= k < dots.len() ==> (#[trigger] dots[k]).place == place_of(
                scene_cell(spots[k].x),
                scene_cell(spots[k].y),
            ),
    ensures
        dots_fit(dots),
{
    assert forall|k: int| 0 <= k < dots.len() implies match (#[trigger] dots[k]).place {
        Some((x, y)) => x < SIDE && y < SIDE,
        None => true,
    } by {
        lemma_cells_fit(spots[k].x);
        lemma_cells_fit(spots[k].y);
    }
}

proof fn lemma_blueprint_dots_fit(spots: Seq<Spot>, dots: Seq<Dot>)
    requires
        dots.len() == spots.len(),
        forall|k: int|
            0 <= k < dots.len() ==> (#[trigger] dots[k]).place == place_of(
                blueprint_cell(spots[k].x),
                blueprint_cell(spots[k].y),
            ),
    ensures
        dots_fit(dots),
{
    assert forall|k: int| 0 <= k < dots.len() implies match (#[trigger] dots[k]).place {
        Some((x, y)) => x < SIDE && y < SIDE,
        None => true,
    } by {
        lemma_cells_fit(spots[k].x);
        lemma_cells_fit(spots[k].y);
    }
}

/// A cell is on the picture.
proof fn lemma_cells_fit(v: Single)
    ensures
        scene_cell(v) matches Some(c) ==> c < SIDE,
        blueprint_cell(v) matches Some(c) ==> c < SIDE,
{
    if !v.negative() && v.less(num(QUARTER_KILO)) {
        law_integer_parts_grow(v, v);
    }
}

/// The bytes of a picture are its pixels, row by row: red, green, blue and opacity of each.
pub proof fn law_bytes_are_the_pixels(p: Picture, r: Vec<u8>, x: int, y: int, c: int)
    requires
        pixels(p).len() == 256,
        forall|row: int| 0 <= row < 256 ==> (#[trigger] pixels(p)[row]).len() == 256,
        call_ensures(Picture::bytes, (&p,), r),
        0 <= x < 256,
        0 <= y < 256,
        0 <= c < 4,
    ensures
        r@.len() == 4 * 256 * 256,
        r@[1024 * y + 4 * x + c] == pixels(p)[y][x]@[c],
{
    assert(square(pixels(p)));
    assert(4 * (SIDE * y + x) + c == 1024 * y + 4 * x + c);
    let _ = pixels(p)[y][x]@[c];
}

} // verus!
