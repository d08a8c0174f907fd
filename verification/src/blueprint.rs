//! The blueprint codec: the top-level wrapper around a root group, adding
//! box and tile counts and a bounding box carried as a min corner plus an
//! extent. The root group's fields coexist with the blueprint's own fields
//! in one compound node, and unknown entries are ignored by the group
//! decoder, so the two layers share the same node.

use vstd::prelude::*;
use vstd::string::StringExecFns;

use crate::group::avoids_group_names;
use crate::group::group_view;
use crate::group::spec_decode_group;
use crate::group::spec_group_entries;
use crate::group::GroupModel;
use crate::group::LittleGroup;
use crate::primitives::LittlePos;
use crate::primitives::ParseError;
use crate::tag::compound_view;
use crate::tag::get_int_array;
use crate::tag::get_int_field;
use crate::tag::spec_lookup;
use crate::tag::TagCompound;
use crate::tag::TagEntryModel;
use crate::tag::TagModel;
use crate::tag::TagNode;

verus! {

/// The top-level persisted object: counts, a bounding box, one root group.
#[derive(Debug)]
pub struct LittleBlueprint {
    pub boxes_cnt: u32,
    pub tiles_cnt: u32,
    pub min_pos: LittlePos,
    pub max_pos: LittlePos,
    pub top_group: LittleGroup,
}

/// The mathematical value of a blueprint.
pub struct BlueprintModel {
    pub boxes_cnt: u32,
    pub tiles_cnt: u32,
    pub min_pos: LittlePos,
    pub max_pos: LittlePos,
    pub top_group: GroupModel,
}

/// The mathematical value an executable blueprint stands for.
pub open spec fn blueprint_view(b: LittleBlueprint) -> BlueprintModel {
    BlueprintModel {
        boxes_cnt: b.boxes_cnt,
        tiles_cnt: b.tiles_cnt,
        min_pos: b.min_pos,
        max_pos: b.max_pos,
        top_group: group_view(b.top_group),
    }
}

impl BlueprintModel {
    /// Well-formedness of a blueprint: its group tree is well-formed.
    pub open spec fn wf(self) -> bool {
        self.top_group.wf()
    }

    /// Every tile of the blueprint is well-formed: what encoding needs.
    pub open spec fn tiles_wf(self) -> bool {
        self.top_group.tiles_wf()
    }
}

/// What a root compound decodes to: required `boxes` and `tiles` integers,
/// required 3-element `min` and `size` integer arrays with the derived
/// maximum corner `min + size`, and the same node decoded as the root group.
pub open spec fn spec_decode_blueprint(es: Seq<TagEntryModel>) -> Option<BlueprintModel> {
    match (
        spec_lookup(es, "boxes"@),
        spec_lookup(es, "tiles"@),
        spec_lookup(es, "min"@),
        spec_lookup(es, "size"@),
    ) {
        (
            Some(TagModel::Int(boxes)),
            Some(TagModel::Int(tiles)),
            Some(TagModel::IntArray(min_arr)),
            Some(TagModel::IntArray(size_arr)),
        ) => {
            if min_arr.len() != 3 || size_arr.len() != 3 {
                None
            } else {
                match spec_decode_group(es) {
                    Some(g) => Some(
                        BlueprintModel {
                            boxes_cnt: boxes as u32,
                            tiles_cnt: tiles as u32,
                            min_pos: LittlePos { x: min_arr[0], y: min_arr[1], z: min_arr[2] },
                            max_pos: LittlePos {
                                x: min_arr[0].wrapping_add(size_arr[0]),
                                y: min_arr[1].wrapping_add(size_arr[1]),
                                z: min_arr[2].wrapping_add(size_arr[2]),
                            },
                            top_group: g,
                        },
                    ),
                    None => None,
                }
            }
        },
        _ => None,
    }
}

/// The compound entries a blueprint encodes to: the root group's entries,
/// then `boxes`, `tiles`, `min`, and a `size` computed as `max - min`.
pub open spec fn spec_blueprint_entries(b: BlueprintModel) -> Seq<TagEntryModel> {
    spec_group_entries(b.top_group) + seq![
        TagEntryModel { name: "boxes"@, value: TagModel::Int(b.boxes_cnt as i32) },
        TagEntryModel { name: "tiles"@, value: TagModel::Int(b.tiles_cnt as i32) },
        TagEntryModel {
            name: "min"@,
            value: TagModel::IntArray(seq![b.min_pos.x, b.min_pos.y, b.min_pos.z]),
        },
        TagEntryModel {
            name: "size"@,
            value: TagModel::IntArray(
                seq![
                    b.max_pos.x.wrapping_sub(b.min_pos.x),
                    b.max_pos.y.wrapping_sub(b.min_pos.y),
                    b.max_pos.z.wrapping_sub(b.min_pos.z),
                ],
            ),
        },
    ]
}

/// The four blueprint field names are pairwise distinct and avoid the five
/// group field names.
proof fn lemma_blueprint_names()
    ensures
        avoids_group_names("boxes"@),
        avoids_group_names("tiles"@),
        avoids_group_names("min"@),
        avoids_group_names("size"@),
        "boxes"@ != "tiles"@,
        "boxes"@ != "min"@,
        "boxes"@ != "size"@,
        "tiles"@ != "min"@,
        "tiles"@ != "size"@,
        "min"@ != "size"@,
{
    reveal_strlit("grid");
    reveal_strlit("c");
    reveal_strlit("s");
    reveal_strlit("e");
    reveal_strlit("t");
    reveal_strlit("boxes");
    reveal_strlit("tiles");
    reveal_strlit("min");
    reveal_strlit("size");
    assert("grid"@.len() == 4 && "grid"@[0] == 'g');
    assert("c"@.len() == 1);
    assert("s"@.len() == 1);
    assert("e"@.len() == 1);
    assert("t"@.len() == 1);
    assert("boxes"@.len() == 5 && "boxes"@[0] == 'b');
    assert("tiles"@.len() == 5 && "tiles"@[0] == 't');
    assert("min"@.len() == 3);
    assert("size"@.len() == 4 && "size"@[0] == 's');
}

/// Round-trip law for the blueprint codec: decoding an encoded well-formed
/// blueprint returns exactly that blueprint.
pub proof fn lemma_blueprint_round_trip(b: BlueprintModel)
    requires
        b.wf(),
    ensures
        spec_decode_blueprint(spec_blueprint_entries(b)) == Some(b),
{
    lemma_blueprint_names();
    let ges = spec_group_entries(b.top_group);
    let extra = seq![
        TagEntryModel { name: "boxes"@, value: TagModel::Int(b.boxes_cnt as i32) },
        TagEntryModel { name: "tiles"@, value: TagModel::Int(b.tiles_cnt as i32) },
        TagEntryModel {
            name: "min"@,
            value: TagModel::IntArray(seq![b.min_pos.x, b.min_pos.y, b.min_pos.z]),
        },
        TagEntryModel {
            name: "size"@,
            value: TagModel::IntArray(
                seq![
                    b.max_pos.x.wrapping_sub(b.min_pos.x),
                    b.max_pos.y.wrapping_sub(b.min_pos.y),
                    b.max_pos.z.wrapping_sub(b.min_pos.z),
                ],
            ),
        },
    ];
    let es = ges + extra;

    // the group's own five names never appear among the appended entries
    crate::group::lemma_group_entry_names(b.top_group);
    crate::group::lemma_decode_group_append(ges, extra);
    crate::group::lemma_group_round_trip(b.top_group);

    // the appended names never appear among the group's entries
    crate::group::lemma_lookup_append(ges, extra, "boxes"@);
    crate::group::lemma_lookup_append(ges, extra, "tiles"@);
    crate::group::lemma_lookup_append(ges, extra, "min"@);
    crate::group::lemma_lookup_append(ges, extra, "size"@);
    crate::group::lemma_lookup_absent(ges, "boxes"@);
    crate::group::lemma_lookup_absent(ges, "tiles"@);
    crate::group::lemma_lookup_absent(ges, "min"@);
    crate::group::lemma_lookup_absent(ges, "size"@);
    crate::group::lemma_lookup_in(extra, "boxes"@, 0);
    crate::group::lemma_lookup_in(extra, "tiles"@, 1);
    crate::group::lemma_lookup_in(extra, "min"@, 2);
    crate::group::lemma_lookup_in(extra, "size"@, 3);

    // counts and corners survive their cast and wrap round trips
    let bc = b.boxes_cnt;
    let tc = b.tiles_cnt;
    assert(((bc as i32) as u32) == bc) by (bit_vector);
    assert(((tc as i32) as u32) == tc) by (bit_vector);
    assert(b.min_pos.x.wrapping_add(b.max_pos.x.wrapping_sub(b.min_pos.x)) == b.max_pos.x);
    assert(b.min_pos.y.wrapping_add(b.max_pos.y.wrapping_sub(b.min_pos.y)) == b.max_pos.y);
    assert(b.min_pos.z.wrapping_add(b.max_pos.z.wrapping_sub(b.min_pos.z)) == b.max_pos.z);
    assert(LittlePos { x: b.min_pos.x, y: b.min_pos.y, z: b.min_pos.z } == b.min_pos);
    assert(LittlePos {
        x: b.min_pos.x.wrapping_add(b.max_pos.x.wrapping_sub(b.min_pos.x)),
        y: b.min_pos.y.wrapping_add(b.max_pos.y.wrapping_sub(b.min_pos.y)),
        z: b.min_pos.z.wrapping_add(b.max_pos.z.wrapping_sub(b.min_pos.z)),
    } == b.max_pos);
}

impl LittleBlueprint {
    /// Decodes a root compound into a blueprint. Fails with `InvalidFormat`
    /// exactly when a count or corner field is missing or malformed, a
    /// corner array does not hold exactly 3 integers, or the root group
    /// itself fails to decode.
    pub fn try_from(root: &TagCompound) -> (r: Result<LittleBlueprint, ParseError>)
        ensures
            match r {
                Ok(b) => {
                    &&& spec_decode_blueprint(compound_view(*root)) == Some(blueprint_view(b))
                    &&& blueprint_view(b).wf()
                },
                Err(e) => {
                    &&& e == ParseError::InvalidFormat
                    &&& spec_decode_blueprint(compound_view(*root)) is None
                },
            },
    {
        let boxes_i = match get_int_field(root, "boxes") {
            Ok(v) => v,
            Err(e) => {
                return Err(e);
            },
        };
        let tiles_i = match get_int_field(root, "tiles") {
            Ok(v) => v,
            Err(e) => {
                return Err(e);
            },
        };
        let min_arr = match get_int_array(root, "min") {
            Ok(v) => v,
            Err(e) => {
                return Err(e);
            },
        };
        let size_arr = match get_int_array(root, "size") {
            Ok(v) => v,
            Err(e) => {
                return Err(e);
            },
        };
        if min_arr.len() != 3 || size_arr.len() != 3 {
            return Err(ParseError::InvalidFormat);
        }
        let min_pos = LittlePos { x: min_arr[0], y: min_arr[1], z: min_arr[2] };
        let max_pos = LittlePos {
            x: min_arr[0].wrapping_add(size_arr[0]),
            y: min_arr[1].wrapping_add(size_arr[1]),
            z: min_arr[2].wrapping_add(size_arr[2]),
        };
        let top_group = match LittleGroup::try_from(root) {
            Ok(g) => g,
            Err(e) => {
                return Err(e);
            },
        };
        Ok(
            LittleBlueprint {
                boxes_cnt: #[verifier::truncate] (boxes_i as u32),
                tiles_cnt: #[verifier::truncate] (tiles_i as u32),
                min_pos,
                max_pos,
                top_group,
            },
        )
    }

    /// Encodes a blueprint into a root compound: the root group's entries
    /// merged with the counts, the min corner, and a size computed as
    /// `max - min`. Never fails for values whose tiles are well-formed; the
    /// fallible interface mirrors the rest of the codec.
    pub fn try_into(&self) -> (r: Result<TagCompound, ParseError>)
        requires
            blueprint_view(*self).tiles_wf(),
        ensures
            r matches Ok(c) && compound_view(c) == spec_blueprint_entries(blueprint_view(*self)),
    {
        let mut root = match LittleGroup::try_into(&self.top_group) {
            Ok(c) => c,
            Err(e) => {
                return Err(e);
            },
        };
        root.insert(
            String::from_str("boxes"),
            TagNode::Int(#[verifier::truncate] (self.boxes_cnt as i32)),
        );
        root.insert(
            String::from_str("tiles"),
            TagNode::Int(#[verifier::truncate] (self.tiles_cnt as i32)),
        );
        let mut min_vec: Vec<i32> = Vec::new();
        min_vec.push(self.min_pos.x);
        min_vec.push(self.min_pos.y);
        min_vec.push(self.min_pos.z);
        root.insert(String::from_str("min"), TagNode::IntArray(min_vec));
        let mut size_vec: Vec<i32> = Vec::new();
        size_vec.push(self.max_pos.x.wrapping_sub(self.min_pos.x));
        size_vec.push(self.max_pos.y.wrapping_sub(self.min_pos.y));
        size_vec.push(self.max_pos.z.wrapping_sub(self.min_pos.z));
        root.insert(String::from_str("size"), TagNode::IntArray(size_vec));
        proof {
            assert(min_vec@ =~= seq![self.min_pos.x, self.min_pos.y, self.min_pos.z]);
            assert(size_vec@ =~= seq![
                self.max_pos.x.wrapping_sub(self.min_pos.x),
                self.max_pos.y.wrapping_sub(self.min_pos.y),
                self.max_pos.z.wrapping_sub(self.min_pos.z),
            ]);
            assert(compound_view(root) =~= spec_blueprint_entries(blueprint_view(*self)));
        }
        Ok(root)
    }
}

} // verus!
