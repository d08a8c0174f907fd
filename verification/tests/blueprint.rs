use voxel_cad::Axis;
use voxel_cad::BoxCorner;
use voxel_cad::ColorBucket;
use voxel_cad::CornerOffsets;
use voxel_cad::Flipped;
use voxel_cad::LittleBlueprint;
use voxel_cad::LittleColor;
use voxel_cad::LittleGroup;
use voxel_cad::LittlePos;
use voxel_cad::LittleTile;
use voxel_cad::MaterialEntry;
use voxel_cad::ParseError;
use voxel_cad::TagCompound;
use voxel_cad::TagEntry;
use voxel_cad::TagNode;

#[test]
fn test_blueprint() {
    // the {id: "fixed"} structure sub-tree carried by every nested group
    let fixed = || TagCompound {
        entries: vec![TagEntry { name: "id".to_string(), value: TagNode::Str("fixed".to_string()) }],
    };
    // a group with a fixed structure, one material, and the given children
    let group = |material: &str, arrays: Vec<Vec<i32>>, children: Vec<TagNode>| -> TagCompound {
        let mut flat = vec![TagNode::IntArray(vec![-1])];
        for a in arrays {
            flat.push(TagNode::IntArray(a));
        }
        TagCompound {
            entries: vec![
                TagEntry { name: "grid".to_string(), value: TagNode::Int(4) },
                TagEntry { name: "c".to_string(), value: TagNode::List(children) },
                TagEntry { name: "s".to_string(), value: TagNode::Compound(fixed()) },
                TagEntry {
                    name: "t".to_string(),
                    value: TagNode::Compound(TagCompound {
                        entries: vec![TagEntry {
                            name: material.to_string(),
                            value: TagNode::List(flat),
                        }],
                    }),
                },
            ],
        }
    };

    let stone = group(
        "minecraft:stone",
        vec![
            vec![3, 0, 3, 4, 1, 4],
            vec![3, 0, 4, 4, 1, 5],
            vec![4, 0, 3, 5, 1, 4],
            vec![4, 0, 4, 5, 1, 5],
        ],
        vec![],
    );
    let lime = group("minecraft:lime_wool", vec![vec![0, 0, 4, 1, 1, 5]], vec![]);
    let purple = group(
        "minecraft:purple_wool",
        vec![vec![1, 0, 5, 2, 1, 6]],
        vec![TagNode::Compound(lime)],
    );
    let red = group(
        "minecraft:red_wool",
        vec![vec![2, 0, 6, 3, 1, 7]],
        vec![TagNode::Compound(purple)],
    );

    let root = TagCompound {
        entries: vec![
            TagEntry { name: "grid".to_string(), value: TagNode::Int(4) },
            TagEntry {
                name: "c".to_string(),
                value: TagNode::List(vec![TagNode::Compound(stone), TagNode::Compound(red)]),
            },
            TagEntry {
                name: "t".to_string(),
                value: TagNode::Compound(TagCompound {
                    entries: vec![TagEntry {
                        name: "minecraft:white_wool".to_string(),
                        value: TagNode::List(vec![
                            TagNode::IntArray(vec![-1]),
                            TagNode::IntArray(vec![3, 0, 7, 4, 1, 8]),
                        ]),
                    }],
                }),
            },
            TagEntry { name: "boxes".to_string(), value: TagNode::Int(8) },
            TagEntry { name: "tiles".to_string(), value: TagNode::Int(5) },
            TagEntry { name: "min".to_string(), value: TagNode::IntArray(vec![0, 0, 3]) },
            TagEntry { name: "size".to_string(), value: TagNode::IntArray(vec![5, 1, 5]) },
        ],
    };

    let little_blueprint =
        LittleBlueprint::try_from(&root).expect("Failed to convert SNBT to LittleBlueprint");
    let root2: TagCompound = LittleBlueprint::try_into(&little_blueprint)
        .expect("Failed to convert LittleBlueprint to SNBT");
    assert!(root.matches(&root2));
}

#[test]
fn test_blueprint_scenario() {
    // min (0,0,3) with size (5,1,5) derives max (5,1,8); the declared counts
    // are carried, not recomputed; the marker -1 denotes opaque white
    let root = TagCompound {
        entries: vec![
            TagEntry { name: "grid".to_string(), value: TagNode::Int(4) },
            TagEntry { name: "c".to_string(), value: TagNode::List(vec![]) },
            TagEntry {
                name: "t".to_string(),
                value: TagNode::Compound(TagCompound {
                    entries: vec![TagEntry {
                        name: "minecraft:white_wool".to_string(),
                        value: TagNode::List(vec![
                            TagNode::IntArray(vec![-1]),
                            TagNode::IntArray(vec![3, 0, 7, 4, 1, 8]),
                        ]),
                    }],
                }),
            },
            TagEntry { name: "boxes".to_string(), value: TagNode::Int(8) },
            TagEntry { name: "tiles".to_string(), value: TagNode::Int(5) },
            TagEntry { name: "min".to_string(), value: TagNode::IntArray(vec![0, 0, 3]) },
            TagEntry { name: "size".to_string(), value: TagNode::IntArray(vec![5, 1, 5]) },
        ],
    };

    let bp = LittleBlueprint::try_from(&root).expect("Failed to decode");
    assert_eq!(bp.boxes_cnt, 8);
    assert_eq!(bp.tiles_cnt, 5);
    assert_eq!(bp.min_pos, LittlePos { x: 0, y: 0, z: 3 });
    assert_eq!(bp.max_pos, LittlePos { x: 5, y: 1, z: 8 });
    assert_eq!(bp.top_group.grid, 4);
    assert_eq!(bp.top_group.children.len(), 0);
    assert_eq!(bp.top_group.tiles.len(), 1);
    assert_eq!(bp.top_group.tiles[0].material, "minecraft:white_wool");
    assert_eq!(bp.top_group.tiles[0].buckets.len(), 1);
    assert_eq!(
        bp.top_group.tiles[0].buckets[0].color,
        LittleColor { r: 255, g: 255, b: 255, a: 255 }
    );
    assert_eq!(
        bp.top_group.tiles[0].buckets[0].tiles,
        vec![LittleTile::Box {
            min_pos: LittlePos { x: 3, y: 0, z: 7 },
            max_pos: LittlePos { x: 4, y: 1, z: 8 },
        }]
    );

    let root2 = LittleBlueprint::try_into(&bp).expect("Failed to encode");
    assert!(root.matches(&root2));
}

#[test]
fn test_group_missing_grid() {
    let nbt = TagCompound {
        entries: vec![TagEntry {
            name: "t".to_string(),
            value: TagNode::Compound(TagCompound { entries: vec![] }),
        }],
    };
    let r = LittleGroup::try_from(&nbt);
    assert!(matches!(r, Err(ParseError::InvalidFormat)));
}

#[test]
fn test_group_missing_tiles() {
    let nbt = TagCompound {
        entries: vec![TagEntry { name: "grid".to_string(), value: TagNode::Int(16) }],
    };
    let r = LittleGroup::try_from(&nbt);
    assert!(matches!(r, Err(ParseError::InvalidFormat)));
}

#[test]
fn test_group_child_of_wrong_kind() {
    let nbt = TagCompound {
        entries: vec![
            TagEntry { name: "grid".to_string(), value: TagNode::Int(16) },
            TagEntry { name: "c".to_string(), value: TagNode::List(vec![TagNode::Int(1)]) },
            TagEntry {
                name: "t".to_string(),
                value: TagNode::Compound(TagCompound { entries: vec![] }),
            },
        ],
    };
    let r = LittleGroup::try_from(&nbt);
    assert!(matches!(r, Err(ParseError::InvalidFormat)));
}

#[test]
fn test_group_tile_of_wrong_kind() {
    let nbt = TagCompound {
        entries: vec![
            TagEntry { name: "grid".to_string(), value: TagNode::Int(16) },
            TagEntry {
                name: "t".to_string(),
                value: TagNode::Compound(TagCompound {
                    entries: vec![TagEntry {
                        name: "minecraft:stone".to_string(),
                        value: TagNode::List(vec![TagNode::Str("oops".to_string())]),
                    }],
                }),
            },
        ],
    };
    let r = LittleGroup::try_from(&nbt);
    assert!(matches!(r, Err(ParseError::InvalidFormat)));
}

#[test]
fn test_blueprint_bad_corner_arrays() {
    let base = |min: Vec<i32>, size: Vec<i32>| TagCompound {
        entries: vec![
            TagEntry { name: "grid".to_string(), value: TagNode::Int(1) },
            TagEntry {
                name: "t".to_string(),
                value: TagNode::Compound(TagCompound { entries: vec![] }),
            },
            TagEntry { name: "boxes".to_string(), value: TagNode::Int(0) },
            TagEntry { name: "tiles".to_string(), value: TagNode::Int(0) },
            TagEntry { name: "min".to_string(), value: TagNode::IntArray(min) },
            TagEntry { name: "size".to_string(), value: TagNode::IntArray(size) },
        ],
    };
    let r = LittleBlueprint::try_from(&base(vec![0, 0], vec![1, 1, 1]));
    assert!(matches!(r, Err(ParseError::InvalidFormat)));
    let r = LittleBlueprint::try_from(&base(vec![0, 0, 0], vec![1, 1, 1, 1]));
    assert!(matches!(r, Err(ParseError::InvalidFormat)));
    let ok = LittleBlueprint::try_from(&base(vec![0, 0, 0], vec![1, 1, 1]));
    assert!(ok.is_ok());
}

#[test]
fn test_group_opaque_subtrees_pass_through() {
    // structure and extension sub-trees of arbitrary shape come back verbatim
    let structure = TagCompound {
        entries: vec![
            TagEntry { name: "id".to_string(), value: TagNode::Str("fixed".to_string()) },
            TagEntry { name: "depth".to_string(), value: TagNode::Byte(-7) },
            TagEntry {
                name: "payload".to_string(),
                value: TagNode::List(vec![TagNode::Long(1 << 40), TagNode::Long(-1)]),
            },
        ],
    };
    let extension = TagCompound {
        entries: vec![TagEntry { name: "raw".to_string(), value: TagNode::ByteArray(vec![1, -2, 3]) }],
    };
    let nbt = TagCompound {
        entries: vec![
            TagEntry { name: "grid".to_string(), value: TagNode::Int(32) },
            TagEntry { name: "c".to_string(), value: TagNode::List(vec![]) },
            TagEntry { name: "s".to_string(), value: TagNode::Compound(structure) },
            TagEntry { name: "e".to_string(), value: TagNode::Compound(extension) },
            TagEntry {
                name: "t".to_string(),
                value: TagNode::Compound(TagCompound { entries: vec![] }),
            },
        ],
    };
    let g = LittleGroup::try_from(&nbt).expect("Failed to decode");
    assert_eq!(g.grid, 32);
    let nbt2 = LittleGroup::try_into(&g).expect("Failed to encode");
    assert!(nbt.matches(&nbt2));
}

#[test]
fn test_group_multiple_colors_round_trip() {
    // two colors in one material: each marker opens its own bucket and the
    // re-encoded list keeps first-appearance order
    let white: i32 = -1;
    let red: i32 = 0xFF0000FFu32 as i32;
    let nbt = TagCompound {
        entries: vec![
            TagEntry { name: "grid".to_string(), value: TagNode::Int(8) },
            TagEntry { name: "c".to_string(), value: TagNode::List(vec![]) },
            TagEntry {
                name: "t".to_string(),
                value: TagNode::Compound(TagCompound {
                    entries: vec![TagEntry {
                        name: "minecraft:wool".to_string(),
                        value: TagNode::List(vec![
                            TagNode::IntArray(vec![white]),
                            TagNode::IntArray(vec![0, 0, 0, 1, 1, 1]),
                            TagNode::IntArray(vec![red]),
                            TagNode::IntArray(vec![1, 0, 0, 2, 1, 1]),
                            TagNode::IntArray(vec![2, 0, 0, 3, 1, 1]),
                        ]),
                    }],
                }),
            },
        ],
    };
    let g = LittleGroup::try_from(&nbt).expect("Failed to decode");
    assert_eq!(g.tiles.len(), 1);
    assert_eq!(g.tiles[0].buckets.len(), 2);
    assert_eq!(g.tiles[0].buckets[0].color, LittleColor { r: 255, g: 255, b: 255, a: 255 });
    assert_eq!(g.tiles[0].buckets[0].tiles.len(), 1);
    assert_eq!(g.tiles[0].buckets[1].color, LittleColor { r: 255, g: 0, b: 0, a: 255 });
    assert_eq!(g.tiles[0].buckets[1].tiles.len(), 2);
    let nbt2 = LittleGroup::try_into(&g).expect("Failed to encode");
    assert!(nbt.matches(&nbt2));
}

#[test]
fn test_group_value_round_trip() {
    // encode a hand-built group, decode it back, and compare the re-encoding
    let mut offsets = CornerOffsets::new();
    offsets.set(BoxCorner::EUS, Axis::Y, 4);
    let g = LittleGroup {
        grid: 16,
        children: vec![LittleGroup {
            grid: 4,
            children: vec![],
            tiles: vec![],
            structure: None,
            extension: None,
        }],
        tiles: vec![MaterialEntry {
            material: "minecraft:stone".to_string(),
            buckets: vec![ColorBucket {
                color: LittleColor { r: 1, g: 2, b: 3, a: 4 },
                tiles: vec![
                    LittleTile::Box {
                        min_pos: LittlePos { x: 0, y: 0, z: 0 },
                        max_pos: LittlePos { x: 1, y: 1, z: 1 },
                    },
                    LittleTile::TransformableBox {
                        min_pos: LittlePos { x: 1, y: 1, z: 1 },
                        max_pos: LittlePos { x: 2, y: 2, z: 2 },
                        flips: Flipped::from_bits_truncate(0b01_0000),
                        corner: offsets,
                    },
                ],
            }],
        }],
        structure: None,
        extension: None,
    };
    let nbt = LittleGroup::try_into(&g).expect("Failed to encode");
    let g2 = LittleGroup::try_from(&nbt).expect("Failed to decode");
    let nbt2 = LittleGroup::try_into(&g2).expect("Failed to encode");
    assert!(nbt.matches(&nbt2));
    assert_eq!(g2.grid, 16);
    assert_eq!(g2.children.len(), 1);
    assert_eq!(g2.tiles[0].buckets[0].tiles, g.tiles[0].buckets[0].tiles);
}
