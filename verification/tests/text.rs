use imf::{ParseError, Stage};
use imf::{Sides, Tile, IMF};

fn ints(values: &[i16]) -> Vec<Tile> {
    values.iter().map(|v| Tile::Int(*v)).collect()
}

#[test]
fn plain_two_by_two() {
    let g = IMF::parse_v1(b"2\n2\n1,2,3,4,").unwrap();
    assert_eq!(g.width, 2);
    assert_eq!(g.height, 2);
    assert_eq!(g.layers, vec![ints(&[1, 2, 3, 4])]);
    assert_eq!(g.get(1, 0, 0), Some(&Tile::Int(2)));
    assert_eq!(g.get(0, 1, 0), Some(&Tile::Int(3)));
}

#[test]
fn plain_without_trailing_comma() {
    let g = IMF::parse_v1(b"2\n2\n1,2,3,4").unwrap();
    assert_eq!(g.layers, vec![ints(&[1, 2, 3, 4])]);
}

#[test]
fn plain_blank_lines_and_spaces_are_passed_over() {
    let g = IMF::parse_v1(b"\n \t\n  3 \r\n\n 2\n\n 1 , 2,\t3,\n\n4,5 ,,, -6 ,\n").unwrap();
    assert_eq!(g.width, 3);
    assert_eq!(g.height, 2);
    assert_eq!(g.layers, vec![ints(&[1, 2, 3, 4, 5, -6])]);
}

#[test]
fn plain_lines_are_joined_before_they_are_split() {
    assert_eq!(
        IMF::parse_v1(b"3\n1\n1,2\n3,4").map(|g| g.layers),
        Ok(vec![ints(&[1, 23, 4])])
    );
}

#[test]
fn plain_cell_range() {
    let g = IMF::parse_v1(b"2\n1\n-32768,32767").unwrap();
    assert_eq!(g.layers, vec![ints(&[i16::MIN, i16::MAX])]);
    assert_eq!(IMF::parse_v1(b"1\n1\n32768").err(), Some(ParseError::InvalidNumber));
    assert_eq!(IMF::parse_v1(b"1\n1\n-32769").err(), Some(ParseError::InvalidNumber));
    assert_eq!(
        IMF::parse_v1(b"1\n1\n99999999999999999999999999").err(),
        Some(ParseError::InvalidNumber)
    );
    assert_eq!(IMF::parse_v1(b"1\n1\n007").map(|g| g.layers), Ok(vec![ints(&[7])]));
}

#[test]
fn plain_one_cell_short_is_too_few() {
    assert_eq!(IMF::parse_v1(b"2\n2\n1,2,3,").err(), Some(ParseError::TooFewNumbers));
    assert_eq!(IMF::parse_v1(b"2\n2\n").err(), Some(ParseError::TooFewNumbers));
}

#[test]
fn plain_one_cell_over_is_too_many() {
    assert_eq!(IMF::parse_v1(b"2\n2\n1,2,3,4,5,").err(), Some(ParseError::TooManyNumbers));
    assert_eq!(IMF::parse_v1(b"0\n5\n1").err(), Some(ParseError::TooManyNumbers));
}

#[test]
fn plain_empty_grid() {
    let g = IMF::parse_v1(b"0\n5\n").unwrap();
    assert_eq!(g.width, 0);
    assert_eq!(g.height, 5);
    assert_eq!(g.layers, vec![Vec::<Tile>::new()]);
}

#[test]
fn plain_missing_dimensions() {
    assert_eq!(
        IMF::parse_v1(b"").err(),
        Some(ParseError::GrammarMismatch(Stage::Dimensions))
    );
    assert_eq!(
        IMF::parse_v1(b" \n\n\t").err(),
        Some(ParseError::GrammarMismatch(Stage::Dimensions))
    );
    assert_eq!(
        IMF::parse_v1(b"4\n").err(),
        Some(ParseError::GrammarMismatch(Stage::Dimensions))
    );
}

#[test]
fn plain_dimension_that_is_no_number() {
    assert_eq!(IMF::parse_v1(b"two\n2\n1,2,3,4").err(), Some(ParseError::InvalidNumber));
    assert_eq!(IMF::parse_v1(b"2 2\n1,2,3,4").err(), Some(ParseError::InvalidNumber));
    assert_eq!(IMF::parse_v1(b"2\n-2\n1,2,3,4").err(), Some(ParseError::InvalidNumber));
    assert_eq!(IMF::parse_v1(b"2,\n2\n1,2,3,4").err(), Some(ParseError::InvalidNumber));
    assert_eq!(IMF::parse_v1(b"4294967296\n1\n").err(), Some(ParseError::InvalidNumber));
    assert!(IMF::parse_v1(b"4294967295\n0\n").is_ok());
}

#[test]
fn plain_cell_that_is_no_number() {
    assert_eq!(IMF::parse_v1(b"2\n2\n1,x,3,4").err(), Some(ParseError::InvalidNumber));
    assert_eq!(IMF::parse_v1(b"2\n2\n1,2 3,4").err(), Some(ParseError::InvalidNumber));
    assert_eq!(IMF::parse_v1(b"2\n2\n1,-,3,4").err(), Some(ParseError::InvalidNumber));
    assert_eq!(IMF::parse_v1(b"2\n2\n1,2-,3,4").err(), Some(ParseError::InvalidNumber));
    assert_eq!(IMF::parse_v1(b"2\n2\n1,2,3,4,5,x").err(), Some(ParseError::InvalidNumber));
}

#[test]
fn marked_three_by_two() {
    let g = IMF::parse_v2(b"[v2]\n3,2;\n[\n1,2,3,\n4,5,6,\n]\n").unwrap();
    assert_eq!(g.width, 3);
    assert_eq!(g.height, 2);
    assert_eq!(g.layers, vec![ints(&[1, 2, 3, 4, 5, 6])]);
    assert_eq!(g.get(2, 1, 0), Some(&Tile::Int(6)));
}

#[test]
fn marked_with_five_numbers_is_too_few() {
    assert_eq!(
        IMF::parse_v2(b"[v2]\n3,2;\n[\n1,2,3,4,5,\n]\n").err(),
        Some(ParseError::TooFewNumbers)
    );
}

#[test]
fn marked_with_seven_numbers_is_too_many() {
    assert_eq!(
        IMF::parse_v2(b"[v2]\n3,2;\n[\n1,2,3,4,5,6,7,\n]\n").err(),
        Some(ParseError::TooManyNumbers)
    );
}

#[test]
fn marked_legend_is_passed_over() {
    let hex = IMF::parse_v2(b"[v2]\n2,1;\n0(ff0000)1(00ff00)\n[\n0,1,\n]\n").unwrap();
    assert_eq!(hex.layers, vec![ints(&[0, 1])]);
    let packed = IMF::parse_v2(b"[v2]\n2,1;\n0(16711680)1(65280)\n[0,1]").unwrap();
    assert!(packed == hex);
}

#[test]
fn marked_takes_the_first_dimensions_and_the_first_list() {
    let g = IMF::parse_v2(b"x12,3y;1,2;[a][7,-8][1,2,3];3,3;").unwrap();
    assert_eq!(g.width, 1);
    assert_eq!(g.height, 2);
    assert_eq!(g.layers, vec![ints(&[7, -8])]);
}

#[test]
fn marked_line_breaks_are_taken_out_first() {
    let g = IMF::parse_v2(b"[v\n2]1\n2,\n1;[\n1,2,3,4,5,\n6,7,8,9,10,11,1\n2]").unwrap();
    assert_eq!(g.width, 12);
    assert_eq!(g.height, 1);
    assert_eq!(g.layers, vec![ints(&[1, 2, 3, 4, 5, 6, 7, 8, 9, 10, 11, 12])]);
}

#[test]
fn marked_without_dimensions() {
    assert_eq!(
        IMF::parse_v2(b"[v2]\n[1,2,3]").err(),
        Some(ParseError::GrammarMismatch(Stage::Dimensions))
    );
    assert_eq!(
        IMF::parse_v2(b"[v2]\n3,2\n[1,2,3]").err(),
        Some(ParseError::GrammarMismatch(Stage::Dimensions))
    );
    assert_eq!(
        IMF::parse_v2(b"").err(),
        Some(ParseError::GrammarMismatch(Stage::Dimensions))
    );
}

#[test]
fn marked_without_a_list() {
    assert_eq!(
        IMF::parse_v2(b"[v2]\n3,2;\n1,2,3,4,5,6").err(),
        Some(ParseError::GrammarMismatch(Stage::CellList))
    );
    assert_eq!(
        IMF::parse_v2(b"[v2]\n3,2;\n[1,2,3,4,5,6").err(),
        Some(ParseError::GrammarMismatch(Stage::CellList))
    );
    assert_eq!(
        IMF::parse_v2(b"[v2]\n3,2;\n[1,2,x,4,5,6]").err(),
        Some(ParseError::GrammarMismatch(Stage::CellList))
    );
    assert_eq!(
        IMF::parse_v2(b"[v2]\n0,0;\n[,]").err(),
        Some(ParseError::GrammarMismatch(Stage::CellList))
    );
}

#[test]
fn marked_empty_list() {
    let g = IMF::parse_v2(b"[v2]\n0,0;\n[]").unwrap();
    assert_eq!(g.layers, vec![Vec::<Tile>::new()]);
    assert_eq!(
        IMF::parse_v2(b"[v2]\n1,1;\n[ ]").err(),
        Some(ParseError::TooFewNumbers)
    );
}

#[test]
fn marked_numbers_out_of_range() {
    assert_eq!(
        IMF::parse_v2(b"[v2]4294967296,1;[1]").err(),
        Some(ParseError::InvalidNumber)
    );
    assert_eq!(IMF::parse_v2(b"[v2]1,1;[40000]").err(), Some(ParseError::InvalidNumber));
    assert_eq!(IMF::parse_v2(b"[v2]1,1;[1-2]").err(), Some(ParseError::InvalidNumber));
    assert_eq!(IMF::parse_v2(b"[v2]2,1;[1 2]").err(), Some(ParseError::InvalidNumber));
}

#[test]
fn text_without_marker_is_plain() {
    let g = IMF::parse_text(b"2\n2\n1,2,3,4,").unwrap();
    assert!(g == IMF::parse_v1(b"2\n2\n1,2,3,4,").unwrap());
    assert_eq!(
        IMF::parse_text(b"3,2;[1,2,3,4,5,6]").err(),
        Some(ParseError::InvalidNumber)
    );
}

#[test]
fn text_with_marker_is_marked() {
    let g = IMF::parse_text(b"[v2]\n3,2;\n[\n1,2,3,4,5,6,\n]").unwrap();
    assert_eq!(g.width, 3);
    assert_eq!(g.layers, vec![ints(&[1, 2, 3, 4, 5, 6])]);
    let upper = IMF::parse_text(b"[V2]\n3,2;\n[\n1,2,3,4,5,6,\n]").unwrap();
    assert!(upper == g);
    let late = IMF::parse_text(b"3,2;\n[\n1,2,3,4,5,6,\n]\n[v2]").unwrap();
    assert!(late == g);
}

#[test]
fn text_with_another_version_is_refused() {
    assert_eq!(
        IMF::parse_text(b"[v3]\n3,2;\n[1,2,3,4,5,6]").err(),
        Some(ParseError::MalformedHeader)
    );
    assert_eq!(
        IMF::parse_text(b"[v1]\n2\n2\n1,2,3,4").err(),
        Some(ParseError::MalformedHeader)
    );
    assert_eq!(
        IMF::parse_text(b"[v02]\n1,1;[5]").map(|g| g.layers),
        Ok(vec![ints(&[5])])
    );
    assert_eq!(
        IMF::parse_text(b"[v99999999999999999999]1,1;[5]").err(),
        Some(ParseError::MalformedHeader)
    );
    assert_eq!(
        IMF::parse_text(b"[v4294967298]1,1;[5]").err(),
        Some(ParseError::MalformedHeader)
    );
}

fn sample() -> IMF {
    let mut g = IMF::new(3, 2, Tile::Int(0));
    let values = [0i16, -1, 10, 32767, -32768, 909];
    for (i, v) in values.iter().enumerate() {
        g.set(i as u32 % 3, i as u32 / 3, 0, Tile::Int(*v)).unwrap();
    }
    g
}

#[test]
fn plain_text_of_a_grid() {
    assert_eq!(
        sample().to_text_v1(),
        Some(b"3\n2\n0,-1,10,32767,-32768,909,\n".to_vec())
    );
}

#[test]
fn marked_text_of_a_grid() {
    assert_eq!(
        sample().to_text_v2(),
        Some(b"[v2]\n3,2;\n[\n0,-1,10,32767,-32768,909,\n]\n".to_vec())
    );
}

#[test]
fn text_of_wide_dimensions() {
    let g = IMF::new(4294967295, 0, Tile::Int(0));
    assert_eq!(g.to_text_v1(), Some(b"4294967295\n0\n\n".to_vec()));
    assert_eq!(g.to_text_v2(), Some(b"[v2]\n4294967295,0;\n[\n\n]\n".to_vec()));
    assert!(IMF::parse_v1(&g.to_text_v1().unwrap()).unwrap() == g);
    assert!(IMF::parse_v2(&g.to_text_v2().unwrap()).unwrap() == g);
}

#[test]
fn text_wants_one_full_layer() {
    let none = IMF::new_with_layers(2, 2, vec![]).unwrap();
    assert_eq!(none.to_text_v1(), None);
    assert_eq!(none.to_text_v2(), None);
    let two = IMF::new_with_layers(2, 2, vec![Tile::Int(0), Tile::Int(1)]).unwrap();
    assert_eq!(two.to_text_v1(), None);
    assert_eq!(two.to_text_v2(), None);
    let mut short = IMF::new(2, 2, Tile::Int(0));
    short.layers[0].pop();
    assert_eq!(short.to_text_v1(), None);
    assert_eq!(short.to_text_v2(), None);
}

#[test]
fn plain_text_round_trip() {
    let g = sample();
    let text = g.to_text_v1().unwrap();
    let back = IMF::parse_v1(&text).unwrap();
    assert!(back == g);
    assert_eq!(back.to_text_v1(), Some(text.clone()));
    assert!(IMF::parse_text(&text).unwrap() == g);
}

#[test]
fn marked_text_round_trip() {
    let g = sample();
    let text = g.to_text_v2().unwrap();
    let back = IMF::parse_v2(&text).unwrap();
    assert!(back == g);
    assert_eq!(back.to_text_v2(), Some(text.clone()));
    assert!(IMF::parse_text(&text).unwrap() == g);
}

#[test]
fn directional_cells_are_written_by_their_north_value() {
    let mut g = sample();
    g.set(1, 1, 0, Tile::Sides(Sides { n: -7, e: 1, s: 2, w: 3 })).unwrap();
    let text = g.to_text_v1().unwrap();
    assert_eq!(text, b"3\n2\n0,-1,10,32767,-7,909,\n".to_vec());
    let back = IMF::parse_v1(&text).unwrap();
    assert!(back != g);
    assert_eq!(back.get(1, 1, 0), Some(&Tile::Int(-7)));
    assert_eq!(back.to_text_v1(), Some(text));
    let marked = g.to_text_v2().unwrap();
    assert_eq!(IMF::parse_v2(&marked).unwrap().to_text_v2(), Some(marked));
}

#[test]
fn parse_errors_in_words() {
    assert_eq!(ParseError::MalformedHeader.message(), "Header: unknown version");
    assert_eq!(
        ParseError::GrammarMismatch(Stage::Dimensions).message(),
        "Dimensions: not found"
    );
    assert_eq!(ParseError::GrammarMismatch(Stage::CellList).message(), "Map: not found");
    assert_eq!(ParseError::InvalidNumber.message(), "Number: not a number of its range");
    assert_eq!(ParseError::TooFewNumbers.message(), "Map: too few numbers");
    assert_eq!(ParseError::TooManyNumbers.message(), "Map: too many numbers");
    assert_eq!(
        IMF::parse_v2(b"3,2;[1,2,3,4,5]").unwrap_err().message(),
        "Map: too few numbers"
    );
    assert_eq!(
        IMF::parse_v2(b"3,2;[1,2,3,4,5,6,7]").unwrap_err().message(),
        "Map: too many numbers"
    );
}
