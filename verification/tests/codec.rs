use voxel_cad::decode_transformable_data;
use voxel_cad::encode_transformable_data;
use voxel_cad::Axis;
use voxel_cad::BoxCorner;
use voxel_cad::CornerOffsets;
use voxel_cad::Facing;
use voxel_cad::Flipped;
use voxel_cad::LittleColor;
use voxel_cad::LittlePos;
use voxel_cad::LittleTile;
use voxel_cad::ParseError;

#[test]
fn test_encode_transformable_data() {
    let ar = [-2147475454, -65538];
    let (flips, corner_offsets) = decode_transformable_data(&ar).expect("Failed to decode");
    let ar_cur = encode_transformable_data(flips, &corner_offsets).expect("Failed to encode");
    assert_eq!(ar, ar_cur.as_slice());
}

#[test]
fn test_payload_round_trip_multi_axis() {
    // presence bits spanning several corners and axes: each value must land
    // back in the slot it came from
    let mut offsets = CornerOffsets::new();
    offsets.set(BoxCorner::EUN, Axis::X, 5);
    offsets.set(BoxCorner::EUN, Axis::Z, -3);
    offsets.set(BoxCorner::EDS, Axis::Y, 7);
    offsets.set(BoxCorner::WDS, Axis::Z, 9);
    let flips = Flipped::from_bits_truncate(0b10_0101);
    let words = encode_transformable_data(flips, &offsets).expect("Failed to encode");
    let (flips2, offsets2) = decode_transformable_data(words.as_slice()).expect("Failed to decode");
    assert_eq!(flips2.bits(), 0b10_0101);
    assert_eq!(offsets2.get(BoxCorner::EUN, Axis::X), 5);
    assert_eq!(offsets2.get(BoxCorner::EUN, Axis::Z), -3);
    assert_eq!(offsets2.get(BoxCorner::EDS, Axis::Y), 7);
    assert_eq!(offsets2.get(BoxCorner::WDS, Axis::Z), 9);
    assert_eq!(offsets2.get(BoxCorner::EUN, Axis::Y), 0);
    assert_eq!(offsets2.get(BoxCorner::WDN, Axis::X), 0);
    assert_eq!(offsets, offsets2);
    let words2 = encode_transformable_data(flips2, &offsets2).expect("Failed to encode");
    assert_eq!(words, words2);
}

#[test]
fn test_payload_sparse() {
    // an all-zero table encodes to exactly one header word with no presence
    // bit set and no value word
    let offsets = CornerOffsets::new();
    let flips = Flipped::from_bits_truncate(0b10_1010);
    let words = encode_transformable_data(flips, &offsets).expect("Failed to encode");
    assert_eq!(words.len(), 1);
    let expected = (0x8000_0000u32 | (0b10_1010u32 << 24)) as i32;
    assert_eq!(words[0], expected);
    let (flips2, offsets2) = decode_transformable_data(words.as_slice()).expect("Failed to decode");
    assert_eq!(flips2.bits(), 0b10_1010);
    for i in 0..24 {
        assert_eq!(offsets2.get_index(i), 0);
    }
}

#[test]
fn test_payload_missing_values() {
    // a presence bit with zero trailing payload words must fail, not panic
    let header_only = [0x8000_0001u32 as i32];
    let r = decode_transformable_data(&header_only);
    assert!(matches!(r, Err(ParseError::InvalidFormat)));
}

#[test]
fn test_payload_empty() {
    let r = decode_transformable_data(&[]);
    assert!(matches!(r, Err(ParseError::InvalidFormat)));
}

#[test]
fn test_color_bijection() {
    let c = LittleColor::try_from(-1).expect("conversion is total");
    assert_eq!(c, LittleColor { r: 255, g: 255, b: 255, a: 255 });
    let v: i32 = c.try_into().expect("conversion is total");
    assert_eq!(v, -1);

    for v in [0i32, -1, 0x1234_5678, i32::MIN, i32::MAX, -123_456_789] {
        let c = LittleColor::try_from(v).expect("conversion is total");
        let v2: i32 = c.try_into().expect("conversion is total");
        assert_eq!(v, v2);
    }

    let c = LittleColor { r: 0x12, g: 0x34, b: 0x56, a: 0x78 };
    let v: i32 = c.try_into().expect("conversion is total");
    assert_eq!(v, 0x1234_5678);
    let c2 = LittleColor::try_from(v).expect("conversion is total");
    assert_eq!(c, c2);
}

#[test]
fn test_tile_box_round_trip() {
    let arr = vec![3, 0, 7, 4, 1, 8];
    let tile = LittleTile::try_from(arr.clone()).expect("Failed to decode");
    assert_eq!(
        tile,
        LittleTile::Box {
            min_pos: LittlePos { x: 3, y: 0, z: 7 },
            max_pos: LittlePos { x: 4, y: 1, z: 8 },
        }
    );
    let arr2 = tile.try_into().expect("Failed to encode");
    assert_eq!(arr, arr2);
}

#[test]
fn test_tile_transformable_round_trip() {
    let mut offsets = CornerOffsets::new();
    offsets.set(BoxCorner::WUS, Axis::Y, -12);
    offsets.set(BoxCorner::EDN, Axis::X, 300);
    let tile = LittleTile::TransformableBox {
        min_pos: LittlePos { x: -1, y: 2, z: -3 },
        max_pos: LittlePos { x: 4, y: 5, z: 6 },
        flips: Flipped::from_bits_truncate(0b00_0110),
        corner: offsets,
    };
    let arr = tile.duplicate().try_into().expect("Failed to encode");
    assert!(arr.len() >= 7);
    assert_eq!(&arr[0..6], &[-1, 2, -3, 4, 5, 6]);
    let tile2 = LittleTile::try_from(arr).expect("Failed to decode");
    assert_eq!(tile, tile2);
}

#[test]
fn test_tile_length_dispatch() {
    // exactly 6 integers decode as a plain box
    let tile = LittleTile::try_from(vec![0, 0, 0, 1, 1, 1]).expect("Failed to decode");
    assert!(matches!(tile, LittleTile::Box { .. }));

    // 0 to 5 integers always fail
    for n in 0..6usize {
        let arr: Vec<i32> = vec![7; n];
        let r = LittleTile::try_from(arr);
        assert!(matches!(r, Err(ParseError::InvalidFormat)));
    }

    // 7 or more decode as a deformed box when the payload is sound
    let arr = vec![0, 0, 0, 1, 1, 1, 0x8000_0000u32 as i32];
    let tile = LittleTile::try_from(arr).expect("Failed to decode");
    assert!(matches!(tile, LittleTile::TransformableBox { .. }));

    // and fail when a presence bit has no value word
    let arr = vec![0, 0, 0, 1, 1, 1, 0x8000_0001u32 as i32];
    let r = LittleTile::try_from(arr);
    assert!(matches!(r, Err(ParseError::InvalidFormat)));
}

#[test]
fn test_flipped_flags() {
    let f = Flipped::from_bits_truncate(0xFF);
    assert_eq!(f.bits(), 0x3F);
    let f = Flipped::from_bits_truncate(0b00_0011);
    assert!(f.contains(Facing::East));
    assert!(f.contains(Facing::West));
    assert!(!f.contains(Facing::South));
    assert!(!f.contains(Facing::Down));
    assert_eq!(Flipped::empty().bits(), 0);
}

#[test]
fn test_corner_offsets_table() {
    let mut offsets = CornerOffsets::new();
    for i in 0..24 {
        assert_eq!(offsets.get_index(i), 0);
    }
    offsets.set(BoxCorner::WDS, Axis::Z, i16::MIN);
    assert_eq!(offsets.get(BoxCorner::WDS, Axis::Z), i16::MIN);
    // the WDS corner is ordinal 7 and Z is ordinal 2, so the slot is 23
    assert_eq!(offsets.get_index(23), i16::MIN);
    offsets.set_index(0, 42);
    assert_eq!(offsets.get(BoxCorner::EUN, Axis::X), 42);
    assert_eq!(BoxCorner::EUN.ordinal(), 0);
    assert_eq!(BoxCorner::WDS.ordinal(), 7);
    assert_eq!(Axis::X.ordinal(), 0);
    assert_eq!(Axis::Z.ordinal(), 2);
}

#[test]
fn test_parse_error_message() {
    assert_eq!(ParseError::InvalidFormat.message(), "Invalid SNBT format");
}
