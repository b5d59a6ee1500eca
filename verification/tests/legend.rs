use imf::{Color, Legend, LegendEntry};
use imf::ParseError;
use imf::{Tile, IMF};

fn entry(key: u32, r: u8, g: u8, b: u8) -> LegendEntry {
    LegendEntry { key, color: Color { r, g, b } }
}

#[test]
fn default_legend_has_ten_entries() {
    let legend = Legend::default();
    assert_eq!(
        legend.entries,
        vec![
            entry(0, 0, 0, 0),
            entry(1, 255, 255, 255),
            entry(2, 255, 0, 0),
            entry(3, 0, 255, 0),
            entry(4, 0, 0, 255),
            entry(5, 255, 255, 0),
            entry(6, 0, 255, 255),
            entry(7, 255, 0, 255),
            entry(8, 128, 128, 128),
            entry(9, 255, 128, 0),
        ]
    );
    for key in 0..10u32 {
        assert_eq!(legend.color_of(key), Some(legend.entries[key as usize].color));
    }
    assert_eq!(legend.color_of(10), None);
}

#[test]
fn color_of_takes_the_first_entry_for_a_key() {
    let legend = Legend { entries: vec![entry(7, 1, 2, 3), entry(40, 4, 5, 6), entry(7, 9, 9, 9)] };
    assert_eq!(legend.color_of(7), Some(Color { r: 1, g: 2, b: 3 }));
    assert_eq!(legend.color_of(40), Some(Color { r: 4, g: 5, b: 6 }));
    assert_eq!(legend.color_of(0), None);
    assert_eq!(Legend { entries: vec![] }.color_of(0), None);
}

#[test]
fn legend_of_a_marked_document() {
    let legend =
        Legend::parse_v2(b"[v2]\n2,1;\n0(ff0000)1(00FF00)12(0a0B0c)\n[\n0,1,\n]\n").unwrap();
    assert_eq!(
        legend.entries,
        vec![entry(0, 255, 0, 0), entry(1, 0, 255, 0), entry(12, 10, 11, 12)]
    );
}

#[test]
fn legend_is_the_first_run_of_groups() {
    let legend = Legend::parse_v2(b"x5(ffffff)6(000000) 7(111111)").unwrap();
    assert_eq!(legend.entries, vec![entry(5, 255, 255, 255), entry(6, 0, 0, 0)]);
    let split = Legend::parse_v2(b"5(fff\nfff)\n6(00\n0000)").unwrap();
    assert_eq!(split.entries, vec![entry(5, 255, 255, 255), entry(6, 0, 0, 0)]);
}

#[test]
fn document_without_legend_has_the_default_one() {
    let legend = Legend::parse_v2(b"[v2]\n2,1;\n[\n0,1,\n]\n").unwrap();
    assert_eq!(legend.entries, Legend::default().entries);
    assert_eq!(Legend::parse_v2(b"").unwrap().entries, Legend::default().entries);
    let near = Legend::parse_v2(b"0(ff00)1(gggggg)(ffffff)2(ffffff").unwrap();
    assert_eq!(near.entries, Legend::default().entries);
}

#[test]
fn legend_key_beyond_32_bits() {
    assert_eq!(
        Legend::parse_v2(b"4294967296(ffffff)").err(),
        Some(ParseError::InvalidNumber)
    );
    assert_eq!(
        Legend::parse_v2(b"1(000000)4294967296(ffffff)").err(),
        Some(ParseError::InvalidNumber)
    );
    assert_eq!(
        Legend::parse_v2(b"4294967295(ffffff)").unwrap().entries,
        vec![entry(4294967295, 255, 255, 255)]
    );
}

#[test]
fn legend_as_text() {
    let legend = Legend { entries: vec![entry(0, 255, 0, 0), entry(12, 10, 11, 12)] };
    assert_eq!(legend.to_text(), b"0(ff0000)12(0a0b0c)".to_vec());
    assert_eq!(Legend { entries: vec![] }.to_text(), Vec::<u8>::new());
    assert_eq!(
        Legend::default().to_text(),
        b"0(000000)1(ffffff)2(ff0000)3(00ff00)4(0000ff)5(ffff00)6(00ffff)7(ff00ff)8(808080)9(ff8000)"
            .to_vec()
    );
}

#[test]
fn marked_text_with_legend() {
    let mut g = IMF::new(2, 1, Tile::Int(0));
    g.set(1, 0, 0, Tile::Int(12)).unwrap();
    let legend = Legend { entries: vec![entry(0, 255, 0, 0), entry(12, 10, 11, 12)] };
    let text = g.to_text_v2_with_legend(&legend).unwrap();
    assert_eq!(text, b"[v2]\n2,1;\n0(ff0000)12(0a0b0c)\n[\n0,12,\n]\n".to_vec());
    assert!(IMF::parse_v2(&text).unwrap() == g);
    assert!(IMF::parse_text(&text).unwrap() == g);
    assert_eq!(Legend::parse_v2(&text).unwrap().entries, legend.entries);
}

#[test]
fn marked_text_with_an_empty_legend() {
    let g = IMF::new(2, 1, Tile::Int(3));
    let text = g.to_text_v2_with_legend(&Legend { entries: vec![] }).unwrap();
    assert_eq!(Some(text.clone()), g.to_text_v2());
    assert_eq!(Legend::parse_v2(&text).unwrap().entries, Legend::default().entries);
    let two = IMF::new_with_layers(2, 1, vec![Tile::Int(0), Tile::Int(1)]).unwrap();
    assert_eq!(two.to_text_v2_with_legend(&Legend::default()), None);
}
