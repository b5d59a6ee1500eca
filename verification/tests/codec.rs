use imf::{DecodeError, EncodeError};
use imf::{Sides, Tile, IMF};

fn counted(width: u32, height: u32) -> IMF {
    let mut g = IMF::new(width, height, Tile::Int(0));
    for i in 0..(width * height) {
        g.set(i % width, i / width, 0, Tile::Int(i as i16)).unwrap();
    }
    g
}

fn mixed() -> IMF {
    let mut g = IMF::new_with_layers(2, 2, vec![Tile::Int(0), Tile::Int(-1), Tile::Int(300)])
        .unwrap();
    g.set(1, 0, 0, Tile::Sides(Sides { n: 1, e: -2, s: 3, w: -4 })).unwrap();
    g.set(0, 1, 1, Tile::Sides(Sides { n: i16::MIN, e: i16::MAX, s: 0, w: -1 })).unwrap();
    g.set(1, 1, 2, Tile::Int(i16::MIN)).unwrap();
    g
}

#[test]
fn test_imf() {
    let mut imf =
        IMF::new_with_layers(3, 3, vec![Tile::Int(0), Tile::Int(1), Tile::Int(2)]).unwrap();
    imf.set(1, 0, 0, Tile::Int(1)).unwrap();
    println!("{:?}", imf);
    let bytes = imf.to_bytes();
    let imf2 = IMF::from_bytes(&bytes).unwrap();
    assert_eq!(imf.width, imf2.width);
    assert_eq!(imf.height, imf2.height);
    assert_eq!(imf.layers, imf2.layers);
}

#[test]
fn encoding_of_a_plain_cell() {
    let g = IMF::new(1, 1, Tile::Int(0x0102));
    assert_eq!(
        g.to_bytes(),
        vec![3, 1, 0, 0, 0, 1, 0, 0, 0, 1, 0, 0, 0, 0, 0x02, 0x01]
    );
}

#[test]
fn encoding_of_a_directional_cell() {
    let g = IMF::new(1, 1, Tile::Sides(Sides { n: 1, e: -2, s: 0x1234, w: i16::MIN }));
    assert_eq!(
        g.to_bytes(),
        vec![
            3, 1, 0, 0, 0, 1, 0, 0, 0, 1, 0, 0, 0, 1, 0x01, 0x00, 0xfe, 0xff, 0x34, 0x12, 0x00,
            0x80
        ]
    );
}

#[test]
fn encoding_writes_dimensions_low_byte_first() {
    let g = IMF::new_with_layers(0x0102_0304, 0, vec![Tile::Int(0), Tile::Int(0)]).unwrap();
    assert_eq!(
        g.to_bytes(),
        vec![3, 0x04, 0x03, 0x02, 0x01, 0, 0, 0, 0, 2, 0, 0, 0]
    );
}

#[test]
fn encoding_writes_layers_in_order() {
    let g = IMF::new_with_layers(2, 1, vec![Tile::Int(1), Tile::Int(2)]).unwrap();
    assert_eq!(
        g.to_bytes(),
        vec![3, 2, 0, 0, 0, 1, 0, 0, 0, 2, 0, 0, 0, 0, 1, 0, 0, 1, 0, 0, 2, 0, 0, 2, 0]
    );
}

#[test]
fn encode_selects_the_binary_version() {
    let g = counted(2, 2);
    assert_eq!(g.encode(3), Ok(g.to_bytes()));
}

#[test]
fn encode_selects_the_text_versions() {
    let g = counted(2, 2);
    assert_eq!(g.encode(1), Ok(b"2\n2\n0,1,2,3,\n".to_vec()));
    assert_eq!(g.encode(2), Ok(b"[v2]\n2,2;\n[\n0,1,2,3,\n]\n".to_vec()));
}

#[test]
fn encode_rejects_other_versions() {
    let g = counted(2, 2);
    assert_eq!(g.encode(0), Err(EncodeError::UnsupportedVersion));
    assert_eq!(g.encode(4), Err(EncodeError::UnsupportedVersion));
    assert_eq!(g.encode(255), Err(EncodeError::UnsupportedVersion));
    assert_eq!(mixed().encode(0), Err(EncodeError::UnsupportedVersion));
}

#[test]
fn encode_as_text_wants_one_full_layer() {
    assert_eq!(mixed().encode(1), Err(EncodeError::NotTextual));
    assert_eq!(mixed().encode(2), Err(EncodeError::NotTextual));
    let mut short = counted(2, 2);
    short.layers[0].pop();
    assert_eq!(short.encode(1), Err(EncodeError::NotTextual));
    assert!(short.encode(3).is_ok());
}

#[test]
fn decode_errors_in_words() {
    assert_eq!(DecodeError::Truncated.message(), "Binary: stream ends too early");
    assert_eq!(DecodeError::UnknownTag.message(), "Binary: unknown cell tag");
    assert_eq!(DecodeError::MalformedHeader.message(), "Header: unknown version");
    assert_eq!(EncodeError::UnsupportedVersion.message(), "Version: no such dialect");
    assert_eq!(EncodeError::NotTextual.message(), "Map: not one full layer");
}

#[test]
fn decode_reads_a_plain_and_a_directional_cell() {
    let bytes = vec![
        3, 2, 0, 0, 0, 1, 0, 0, 0, 1, 0, 0, 0, 0, 0xff, 0xff, 1, 0x01, 0x00, 0xfe, 0xff, 0x34,
        0x12, 0x00, 0x80,
    ];
    let g = IMF::decode(&bytes).unwrap();
    assert_eq!(g.width, 2);
    assert_eq!(g.height, 1);
    assert_eq!(
        g.layers,
        vec![vec![
            Tile::Int(-1),
            Tile::Sides(Sides { n: 1, e: -2, s: 0x1234, w: i16::MIN })
        ]]
    );
}

#[test]
fn decode_reads_wide_dimensions() {
    let bytes = vec![3, 0x04, 0x03, 0x02, 0x01, 0, 0, 0, 0, 2, 0, 0, 0];
    let g = IMF::decode(&bytes).unwrap();
    assert_eq!(g.width, 0x0102_0304);
    assert_eq!(g.height, 0);
    assert_eq!(g.layers, vec![Vec::<Tile>::new(), Vec::<Tile>::new()]);
}

#[test]
fn decode_ignores_bytes_behind_the_last_cell() {
    let mut bytes = counted(2, 2).to_bytes();
    bytes.extend_from_slice(&[9, 9, 9]);
    assert!(IMF::decode(&bytes).unwrap() == counted(2, 2));
}

#[test]
fn three_by_three_round_trip() {
    let g = counted(3, 3);
    assert_eq!(
        g.layers,
        vec![(0..9).map(Tile::Int).collect::<Vec<Tile>>()]
    );
    let back = IMF::from_bytes(&g.to_bytes()).unwrap();
    assert!(back == g);
    assert_eq!(back.width, 3);
    assert_eq!(back.height, 3);
    assert_eq!(back.layers, g.layers);
}

#[test]
fn mixed_layers_round_trip() {
    let g = mixed();
    let bytes = g.to_bytes();
    let back = IMF::decode(&bytes).unwrap();
    assert!(back == g);
    assert_eq!(back.to_bytes(), bytes);
}

#[test]
fn empty_grids_round_trip() {
    let no_layers = IMF::new_with_layers(4, 4, vec![]).unwrap();
    assert!(IMF::decode(&no_layers.to_bytes()).unwrap() == no_layers);
    let no_cells = IMF::new(0, 9, Tile::Int(1));
    assert!(IMF::decode(&no_cells.to_bytes()).unwrap() == no_cells);
}

#[test]
fn every_cut_of_an_encoding_is_truncated() {
    let bytes = mixed().to_bytes();
    for k in 0..bytes.len() {
        assert_eq!(IMF::decode(&bytes[..k]).err(), Some(DecodeError::Truncated));
        assert!(IMF::from_bytes(&bytes[..k]).is_none());
    }
    assert!(IMF::decode(&bytes).is_ok());
}

#[test]
fn cut_in_the_header_is_truncated() {
    assert_eq!(IMF::decode(&[]).err(), Some(DecodeError::Truncated));
    assert_eq!(IMF::decode(&[3]).err(), Some(DecodeError::Truncated));
    assert_eq!(
        IMF::decode(&[3, 1, 0, 0, 0, 1, 0, 0, 0, 1, 0, 0]).err(),
        Some(DecodeError::Truncated)
    );
}

#[test]
fn cut_in_a_cell_is_truncated() {
    let header = [3u8, 1, 0, 0, 0, 1, 0, 0, 0, 1, 0, 0, 0];
    let mut plain = header.to_vec();
    plain.extend_from_slice(&[0, 7]);
    assert_eq!(IMF::decode(&plain).err(), Some(DecodeError::Truncated));
    let mut directional = header.to_vec();
    directional.extend_from_slice(&[1, 1, 0, 2, 0, 3, 0, 4]);
    assert_eq!(IMF::decode(&directional).err(), Some(DecodeError::Truncated));
}

#[test]
fn missing_layer_is_truncated() {
    let bytes = vec![3, 1, 0, 0, 0, 1, 0, 0, 0, 2, 0, 0, 0, 0, 7, 0];
    assert_eq!(IMF::decode(&bytes).err(), Some(DecodeError::Truncated));
}

#[test]
fn huge_declared_size_is_truncated() {
    let bytes = vec![3, 0xff, 0xff, 0xff, 0xff, 0xff, 0xff, 0xff, 0xff, 1, 0, 0, 0, 0, 1, 0];
    assert_eq!(IMF::decode(&bytes).err(), Some(DecodeError::Truncated));
}

#[test]
fn unknown_tag_is_reported() {
    let bytes = vec![3, 1, 0, 0, 0, 1, 0, 0, 0, 1, 0, 0, 0, 2, 7, 0];
    assert_eq!(IMF::decode(&bytes).err(), Some(DecodeError::UnknownTag));
    assert!(IMF::from_bytes(&bytes).is_none());
}

#[test]
fn unknown_tag_in_a_later_cell_is_reported() {
    let mut bytes = mixed().to_bytes();
    let last = bytes.len() - 3;
    assert_eq!(bytes[last], 0);
    bytes[last] = 255;
    assert_eq!(IMF::decode(&bytes).err(), Some(DecodeError::UnknownTag));
}

#[test]
fn unknown_tag_comes_before_the_missing_rest() {
    let bytes = vec![3, 2, 0, 0, 0, 1, 0, 0, 0, 1, 0, 0, 0, 0, 7, 0, 2];
    assert_eq!(IMF::decode(&bytes).err(), Some(DecodeError::UnknownTag));
}

#[test]
fn other_versions_are_a_malformed_header() {
    let mut bytes = counted(2, 2).to_bytes();
    bytes[0] = 2;
    assert_eq!(IMF::decode(&bytes).err(), Some(DecodeError::MalformedHeader));
    assert_eq!(IMF::decode(&[1]).err(), Some(DecodeError::MalformedHeader));
    assert_eq!(IMF::decode(&[0, 0, 0]).err(), Some(DecodeError::MalformedHeader));
    assert!(IMF::from_bytes(&bytes).is_none());
}
