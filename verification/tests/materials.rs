use particle_sandbox::material::{
    material_props, material_table, raise_channel, MaterialBook, MaterialDef, MaterialDraft,
};
use particle_sandbox::single::Single;

fn s(x: f32) -> Single {
    Single::from_bits(x.to_bits())
}

fn def(name: &str) -> MaterialDef {
    MaterialDef {
        name: String::from(name),
        color: [10, 200, 250, 9],
        color2: None,
        mass: s(2.0),
        diameter: s(1.0),
        conn_dist_mult: s(1.25),
        link_dist_strength: s(0.5),
        link_angle_strength: s(5.0),
        melt_temp: s(900.0),
        boil_temp: None,
        is_soft: None,
        is_noisy: None,
        surface_tension: None,
    }
}

#[test]
fn rows_fill_in_what_is_not_given() {
    let boil = [1500.0, 2500.0, 3500.0, 600.0, 1500.0, 1500.0, 5930.0, 400.0, 1500.0];
    let flags = [4, 2, 0, 1, 2, 2, 0, 3, 0];
    for i in 0..9 {
        let row = material_props(i, &def("x"));
        assert_eq!(row.boil_temp, s(boil[i]));
        assert_eq!(row.flags, flags[i]);
        assert_eq!(row.surface_tension, s(if i == 0 { 0.3 } else { 0.0 }));
        assert_eq!((row.conn_dist, row.len_break, row.ang_break), (s(1.25), s(0.5), s(5.0)));
        let second = match i {
            7 => [255, 255, 255],
            1 | 4 | 5 => [86, 255, 255],
            _ => [10, 200, 250],
        };
        assert_eq!(&row.color2[..3], &second);
        assert_eq!(&row.base_color[..3], &[10, 200, 250]);
    }
}

#[test]
fn rows_keep_what_is_given() {
    let mut m = def("x");
    m.color2 = Some([1, 2, 3, 4]);
    m.boil_temp = Some(s(77.0));
    m.is_soft = Some(true);
    m.is_noisy = Some(false);
    m.surface_tension = Some(s(0.9));
    let row = material_props(1, &m);
    assert_eq!(&row.color2[..3], &[1, 2, 3]);
    assert_eq!((row.boil_temp, row.flags, row.surface_tension), (s(77.0), 1, s(0.9)));
}

#[test]
fn the_table_has_sixteen_rows() {
    let many: Vec<MaterialDef> = (0..20).map(|_| def("x")).collect();
    let table = material_table(&many);
    assert_eq!(table.len(), 16);
    assert_eq!(table[15].melt_temp, s(900.0));
    let table = material_table(&many[..2].to_vec());
    assert_eq!(table[1].melt_temp, s(900.0));
    assert_eq!(table[2].melt_temp, s(0.0));
    assert_eq!(table[2].flags, 0);
    assert_eq!((raise_channel(200, 76), raise_channel(10, 76)), (255, 86));
}

fn book(n: usize, current: u32) -> MaterialBook {
    MaterialBook { materials: (0..n).map(|i| def(&format!("m{}", i))).collect(), current }
}

#[test]
fn removing_a_material_moves_the_selection() {
    let mut b = book(10, 8);
    assert!(b.remove(9));
    assert_eq!((b.materials.len(), b.current), (9, 8));
    assert!(b.remove(8));
    assert_eq!(b.current, 0);
    b.current = 5;
    assert!(b.remove(2));
    assert_eq!((b.current, b.materials[2].name.as_str()), (4, "m3"));
    assert!(!b.remove(7));
    assert_eq!(b.materials.len(), 7);
    assert!(MaterialBook::is_custom(8) && !MaterialBook::is_custom(7));
}

#[test]
fn sixteen_materials_fill_the_book() {
    let mut b = book(15, 0);
    let mut draft = MaterialDraft::of(&def("new"));
    draft.is_noisy = true;
    draft.color2 = [9, 9, 9, 255];
    assert!(b.add(&draft));
    assert_eq!((b.materials.len(), b.current), (16, 15));
    assert_eq!(b.materials[15].color2, Some([9, 9, 9, 255]));
    assert_eq!(b.materials[15].boil_temp, Some(s(2000.0)));
    assert!(!b.add(&draft));
    assert_eq!((b.materials.len(), b.current), (16, 15));
    draft.is_noisy = false;
    b.replace(3, &draft);
    assert_eq!(b.materials[3].color2, Some([10, 200, 250, 9]));
    b.replace(99, &draft);
    assert_eq!(b.materials.len(), 16);
    assert_eq!((b.mass_of(3), b.mass_of(99)), (s(2.0), s(1.0)));
    assert_eq!((b.spacing_of(3), b.spacing_of(99)), (s(1.25), s(1.5)));
}

#[test]
fn an_untouched_form_changes_nothing() {
    let mut m = def("x");
    m.color2 = Some(m.color);
    m.boil_temp = Some(s(5.0));
    m.is_soft = Some(true);
    m.is_noisy = Some(false);
    m.surface_tension = Some(s(0.1));
    assert_eq!(MaterialDraft::of(&m).definition(), m);
}
