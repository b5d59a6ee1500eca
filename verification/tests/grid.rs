use imf::{Sides, Tile, IMF};

#[test]
fn new_fills_one_layer() {
    let g = IMF::new(3, 2, Tile::Int(7));
    assert_eq!(g.width, 3);
    assert_eq!(g.height, 2);
    assert_eq!(g.layers, vec![vec![Tile::Int(7); 6]]);
}

#[test]
fn new_with_zero_dimension_has_an_empty_layer() {
    let g = IMF::new(0, 5, Tile::Int(1));
    assert_eq!(g.layers, vec![Vec::<Tile>::new()]);
    assert!(g.get(0, 0, 0).is_none());
}

#[test]
fn new_with_layers_fills_each_layer_with_its_own_tile() {
    let sides = Tile::Sides(Sides { n: 1, e: 2, s: 3, w: 4 });
    let g = IMF::new_with_layers(2, 2, vec![Tile::Int(0), sides]).unwrap();
    assert_eq!(g.width, 2);
    assert_eq!(g.height, 2);
    assert_eq!(g.layers.len(), 2);
    assert_eq!(g.layers[0], vec![Tile::Int(0); 4]);
    assert_eq!(g.layers[1], vec![sides; 4]);
}

#[test]
fn new_with_layers_without_layers() {
    let g = IMF::new_with_layers(4, 4, vec![]).unwrap();
    assert!(g.layers.is_empty());
    assert!(g.get(0, 0, 0).is_none());
}

#[test]
fn new_with_layers_rejects_a_cell_count_beyond_32_bits() {
    assert!(IMF::new_with_layers(65536, 65536, vec![]).is_err());
    assert!(IMF::new_with_layers(u32::MAX, 2, vec![Tile::Int(0)]).is_err());
    assert!(IMF::new_with_layers(65535, 65537, vec![]).is_ok());
}

#[test]
fn default_is_eight_by_eight_zeroes() {
    let g = IMF::default();
    assert_eq!(g.width, 8);
    assert_eq!(g.height, 8);
    assert_eq!(g.layers, vec![vec![Tile::Int(0); 64]]);
    assert!(g == IMF::new(8, 8, Tile::Int(0)));
}

#[test]
fn get_reads_row_major() {
    let mut g = IMF::new(2, 2, Tile::Int(0));
    g.layers[0] = vec![Tile::Int(1), Tile::Int(2), Tile::Int(3), Tile::Int(4)];
    assert_eq!(g.get(0, 0, 0), Some(&Tile::Int(1)));
    assert_eq!(g.get(1, 0, 0), Some(&Tile::Int(2)));
    assert_eq!(g.get(0, 1, 0), Some(&Tile::Int(3)));
    assert_eq!(g.get(1, 1, 0), Some(&Tile::Int(4)));
}

#[test]
fn get_out_of_range_is_none() {
    let g = IMF::new(3, 2, Tile::Int(9));
    assert_eq!(g.get(3, 0, 0), None);
    assert_eq!(g.get(0, 2, 0), None);
    assert_eq!(g.get(0, 0, 1), None);
    assert_eq!(g.get(u32::MAX, u32::MAX, 0), None);
    assert_eq!(g.get(2, 1, 0), Some(&Tile::Int(9)));
}

#[test]
fn get_at_x_equal_to_width_is_none() {
    let g = IMF::new(4, 4, Tile::Int(1));
    assert_eq!(g.get(4, 0, 0), None);
    assert_eq!(g.get(4, 3, 0), None);
    assert_eq!(g.coordinate_to_index(4, 0), None);
}

#[test]
fn get_on_a_short_layer_is_none() {
    let mut g = IMF::new(2, 2, Tile::Int(0));
    g.layers[0].truncate(3);
    assert_eq!(g.get(0, 1, 0), Some(&Tile::Int(0)));
    assert_eq!(g.get(1, 1, 0), None);
    assert_eq!(g.set(1, 1, 0, Tile::Int(5)), None);
}

#[test]
fn set_overwrites_one_cell() {
    let mut g = IMF::new_with_layers(3, 2, vec![Tile::Int(0), Tile::Int(1)]).unwrap();
    assert_eq!(g.set(2, 1, 1, Tile::Int(-4)), Some(()));
    assert_eq!(g.get(2, 1, 1), Some(&Tile::Int(-4)));
    let mut expected = vec![Tile::Int(1); 6];
    expected[5] = Tile::Int(-4);
    assert_eq!(g.layers[1], expected);
    assert_eq!(g.layers[0], vec![Tile::Int(0); 6]);
    assert_eq!(g.width, 3);
    assert_eq!(g.height, 2);
}

#[test]
fn set_out_of_range_changes_nothing() {
    let mut g = IMF::new(3, 2, Tile::Int(0));
    let before = g.clone();
    assert_eq!(g.set(3, 0, 0, Tile::Int(1)), None);
    assert_eq!(g.set(0, 2, 0, Tile::Int(1)), None);
    assert_eq!(g.set(0, 0, 1, Tile::Int(1)), None);
    assert!(g == before);
}

#[test]
fn get_layer_hands_out_the_cells() {
    let mut g = IMF::new_with_layers(2, 1, vec![Tile::Int(3), Tile::Int(4)]).unwrap();
    assert_eq!(g.get_layer(0), Some(&[Tile::Int(3), Tile::Int(3)][..]));
    assert_eq!(g.get_layer(1), Some(&[Tile::Int(4), Tile::Int(4)][..]));
    assert_eq!(g.get_layer(2), None);
    assert!(g.get_layer_mut(2).is_none());
}

#[test]
fn get_layer_mut_writes_through() {
    let mut g = IMF::new_with_layers(2, 1, vec![Tile::Int(3), Tile::Int(4)]).unwrap();
    {
        let cells = g.get_layer_mut(1).unwrap();
        assert_eq!(cells.len(), 2);
        cells[0] = Tile::Int(9);
    }
    assert_eq!(g.get(0, 0, 1), Some(&Tile::Int(9)));
    assert_eq!(g.get(1, 0, 1), Some(&Tile::Int(4)));
    assert_eq!(g.layers[0], vec![Tile::Int(3); 2]);
}

#[test]
fn coordinate_to_index_is_row_major() {
    let g = IMF::new(5, 3, Tile::Int(0));
    assert_eq!(g.coordinate_to_index(0, 0), Some(0));
    assert_eq!(g.coordinate_to_index(4, 0), Some(4));
    assert_eq!(g.coordinate_to_index(0, 1), Some(5));
    assert_eq!(g.coordinate_to_index(3, 2), Some(13));
    assert_eq!(g.coordinate_to_index(4, 2), Some(14));
    assert_eq!(g.coordinate_to_index(5, 0), None);
    assert_eq!(g.coordinate_to_index(0, 3), None);
}

#[test]
fn index_to_coordinate_is_row_major() {
    let g = IMF::new(5, 3, Tile::Int(0));
    assert_eq!(g.index_to_coordinate(0), Some((0, 0)));
    assert_eq!(g.index_to_coordinate(4), Some((4, 0)));
    assert_eq!(g.index_to_coordinate(5), Some((0, 1)));
    assert_eq!(g.index_to_coordinate(13), Some((3, 2)));
    assert_eq!(g.index_to_coordinate(14), Some((4, 2)));
    assert_eq!(g.index_to_coordinate(15), None);
    assert_eq!(g.index_to_coordinate(u64::MAX), None);
}

#[test]
fn index_to_coordinate_on_an_empty_grid_is_none() {
    let g = IMF::new(0, 3, Tile::Int(0));
    assert_eq!(g.index_to_coordinate(0), None);
    let h = IMF::new(3, 0, Tile::Int(0));
    assert_eq!(h.index_to_coordinate(0), None);
}

#[test]
fn coordinates_and_indices_are_inverse() {
    let g = IMF::new(7, 4, Tile::Int(0));
    for y in 0..4u32 {
        for x in 0..7u32 {
            let index = g.coordinate_to_index(x, y).unwrap();
            assert_eq!(index, u64::from(y) * 7 + u64::from(x));
            assert_eq!(g.index_to_coordinate(index), Some((x, y)));
        }
    }
    for index in 0..28u64 {
        let (x, y) = g.index_to_coordinate(index).unwrap();
        assert_eq!(g.coordinate_to_index(x, y), Some(index));
    }
}

#[test]
fn coordinate_to_index_does_not_overflow() {
    let g = IMF { width: u32::MAX, height: u32::MAX, layers: vec![] };
    assert_eq!(
        g.coordinate_to_index(u32::MAX - 1, u32::MAX - 1),
        Some(18446744065119617024)
    );
    assert_eq!(
        g.index_to_coordinate(18446744065119617024),
        Some((u32::MAX - 1, u32::MAX - 1))
    );
    assert_eq!(g.index_to_coordinate(18446744065119617025), None);
}

#[test]
fn grids_compare_by_dimensions_and_cells() {
    let a = IMF::new(2, 3, Tile::Int(1));
    let mut b = IMF::new(2, 3, Tile::Int(1));
    assert!(a == b);
    b.set(1, 2, 0, Tile::Int(2)).unwrap();
    assert!(a != b);
    assert!(IMF::new(2, 3, Tile::Int(1)) != IMF::new(3, 2, Tile::Int(1)));
    assert!(IMF::new(6, 1, Tile::Int(1)) != IMF::new(1, 6, Tile::Int(1)));
    let c = IMF::new_with_layers(2, 3, vec![Tile::Int(1), Tile::Int(1)]).unwrap();
    assert!(a != c);
    let sides = Tile::Sides(Sides { n: 1, e: 1, s: 1, w: 1 });
    assert!(a != IMF::new(2, 3, sides));
}

#[test]
fn tile_kinds() {
    let int = Tile::Int(5);
    let sides = Tile::Sides(Sides { n: 1, e: 2, s: 3, w: 4 });
    assert!(int.is_int());
    assert!(!int.is_sides());
    assert!(sides.is_sides());
    assert!(!sides.is_int());
}

#[test]
fn force_int_takes_the_north_value() {
    assert_eq!(Tile::Int(-5).force_int(), -5);
    assert_eq!(Tile::Sides(Sides { n: 1, e: 2, s: 3, w: 4 }).force_int(), 1);
}

#[test]
fn force_sides_spreads_a_plain_value() {
    assert_eq!(Tile::Int(6).force_sides(), Sides { n: 6, e: 6, s: 6, w: 6 });
    let sides = Sides { n: 1, e: 2, s: 3, w: 4 };
    assert_eq!(Tile::Sides(sides).force_sides(), sides);
}
