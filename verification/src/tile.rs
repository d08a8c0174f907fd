//! The tile codec: a tile is a flat integer sequence of 6 bounding-box
//! values, optionally followed by the transform codec's payload words.
//! Decoding dispatches on the sequence length: exactly 6 is a plain box,
//! 7 or more is a deformed box, anything shorter fails.

use vstd::prelude::*;
use vstd::slice::slice_subrange;

use crate::primitives::CornerOffsets;
use crate::primitives::Flipped;
use crate::primitives::LittlePos;
use crate::primitives::ParseError;
use crate::transform::decode_transformable_data;
use crate::transform::encode_transformable_data;
use crate::transform::lemma_payload_round_trip;
use crate::transform::spec_decode_payload;
use crate::transform::spec_encode_payload;

verus! {

/// One axis-aligned box, optionally deformed per corner.
#[derive(Debug, Clone, PartialEq)]
pub enum LittleTile {
    Box { min_pos: LittlePos, max_pos: LittlePos },
    TransformableBox {
        min_pos: LittlePos,
        max_pos: LittlePos,
        flips: Flipped,
        corner: CornerOffsets,
    },
}

/// The mathematical value of a tile: plain data, with the offset table as a
/// sequence indexed by flag index.
pub enum TileModel {
    Box { min_pos: LittlePos, max_pos: LittlePos },
    TransformableBox { min_pos: LittlePos, max_pos: LittlePos, flips: u8, offsets: Seq<i16> },
}

impl TileModel {
    /// A deformed box carries six flip bits and a full 24-slot table.
    pub open spec fn wf(self) -> bool {
        match self {
            TileModel::Box { .. } => true,
            TileModel::TransformableBox { flips, offsets, .. } => flips < 64 && offsets.len()
                == 24,
        }
    }
}

/// The mathematical value an executable tile stands for.
pub open spec fn tile_view(t: LittleTile) -> TileModel {
    match t {
        LittleTile::Box { min_pos, max_pos } => TileModel::Box { min_pos, max_pos },
        LittleTile::TransformableBox { min_pos, max_pos, flips, corner } => {
            TileModel::TransformableBox { min_pos, max_pos, flips: flips.bits, offsets: corner.vals@ }
        },
    }
}

impl LittleTile {
    /// A deformed box holds well-formed flips and a full offset table.
    pub open spec fn wf(self) -> bool {
        match self {
            LittleTile::Box { .. } => true,
            LittleTile::TransformableBox { flips, corner, .. } => flips.wf() && corner.wf(),
        }
    }
}

/// The six bounding-box integers of a tile, in wire order.
pub open spec fn spec_bbox_ints(min_pos: LittlePos, max_pos: LittlePos) -> Seq<i32> {
    seq![min_pos.x, min_pos.y, min_pos.z, max_pos.x, max_pos.y, max_pos.z]
}

/// The flat integer sequence a tile encodes to.
pub open spec fn spec_encode_tile(t: TileModel) -> Seq<i32> {
    match t {
        TileModel::Box { min_pos, max_pos } => spec_bbox_ints(min_pos, max_pos),
        TileModel::TransformableBox { min_pos, max_pos, flips, offsets } => {
            spec_bbox_ints(min_pos, max_pos) + spec_encode_payload(flips, offsets)
        },
    }
}

/// What a flat integer sequence decodes to: length 6 is a plain box, length
/// 7 or more hands the remainder to the transform codec, any other length
/// fails.
pub open spec fn spec_decode_tile(arr: Seq<i32>) -> Option<TileModel> {
    if arr.len() == 6 {
        Some(
            TileModel::Box {
                min_pos: LittlePos { x: arr[0], y: arr[1], z: arr[2] },
                max_pos: LittlePos { x: arr[3], y: arr[4], z: arr[5] },
            },
        )
    } else if arr.len() >= 7 {
        match spec_decode_payload(arr.subrange(6, arr.len() as int)) {
            Some(p) => Some(
                TileModel::TransformableBox {
                    min_pos: LittlePos { x: arr[0], y: arr[1], z: arr[2] },
                    max_pos: LittlePos { x: arr[3], y: arr[4], z: arr[5] },
                    flips: p.0,
                    offsets: p.1,
                },
            ),
            None => None,
        }
    } else {
        None
    }
}

/// Round-trip law for the tile codec: decoding an encoded well-formed tile
/// returns exactly that tile.
pub proof fn lemma_tile_round_trip(t: TileModel)
    requires
        t.wf(),
    ensures
        spec_decode_tile(spec_encode_tile(t)) == Some(t),
{
    match t {
        TileModel::Box { min_pos, max_pos } => {
            assert(spec_encode_tile(t).len() == 6);
        },
        TileModel::TransformableBox { min_pos, max_pos, flips, offsets } => {
            lemma_payload_round_trip(flips, offsets);
            let enc = spec_encode_tile(t);
            assert(enc.len() >= 7);
            assert(enc.subrange(6, enc.len() as int) =~= spec_encode_payload(flips, offsets));
        },
    }
}

/// Length-dispatch law: length 6 always decodes as a plain box, lengths
/// 0..6 always fail, and length 7 or more decodes as a deformed box exactly
/// when the trailing payload words decode.
pub proof fn lemma_length_dispatch(arr: Seq<i32>)
    ensures
        arr.len() == 6 ==> (spec_decode_tile(arr) matches Some(t) && t is Box),
        arr.len() < 6 ==> spec_decode_tile(arr) is None,
        arr.len() >= 7 ==> (spec_decode_tile(arr) matches Some(t) ==> t is TransformableBox),
        arr.len() >= 7 ==> (spec_decode_tile(arr) is Some <==> spec_decode_payload(
            arr.subrange(6, arr.len() as int),
        ) is Some),
{
}

/// Whatever decodes, decodes to a well-formed tile.
pub proof fn lemma_decode_tile_wf(arr: Seq<i32>)
    ensures
        spec_decode_tile(arr) matches Some(t) ==> t.wf(),
{
    if arr.len() >= 7 {
        crate::transform::lemma_decode_payload_wf(arr.subrange(6, arr.len() as int));
    }
}

impl LittleTile {
    /// Decodes a flat integer sequence into a tile. Fails with
    /// `InvalidFormat` exactly when the length is below 6 or the trailing
    /// deformation payload is malformed.
    pub fn try_from(arr: Vec<i32>) -> (r: Result<LittleTile, ParseError>)
        ensures
            match r {
                Ok(t) => {
                    &&& t.wf()
                    &&& spec_decode_tile(arr@) == Some(tile_view(t))
                },
                Err(e) => {
                    &&& e == ParseError::InvalidFormat
                    &&& spec_decode_tile(arr@) is None
                },
            },
    {
        if arr.len() == 6 {
            let min_pos = LittlePos { x: arr[0], y: arr[1], z: arr[2] };
            let max_pos = LittlePos { x: arr[3], y: arr[4], z: arr[5] };
            Ok(LittleTile::Box { min_pos, max_pos })
        } else if arr.len() >= 7 {
            let min_pos = LittlePos { x: arr[0], y: arr[1], z: arr[2] };
            let max_pos = LittlePos { x: arr[3], y: arr[4], z: arr[5] };
            let rest: &[i32] = slice_subrange(arr.as_slice(), 6, arr.len());
            match decode_transformable_data(rest) {
                Ok((flips, corner)) => Ok(
                    LittleTile::TransformableBox { min_pos, max_pos, flips, corner },
                ),
                Err(e) => Err(e),
            }
        } else {
            Err(ParseError::InvalidFormat)
        }
    }

    /// A deep copy of the tile, equal to the original at the value level.
    pub fn duplicate(&self) -> (r: LittleTile)
        ensures
            tile_view(r) == tile_view(*self),
            r.wf() == self.wf(),
    {
        match self {
            LittleTile::Box { min_pos, max_pos } => LittleTile::Box {
                min_pos: *min_pos,
                max_pos: *max_pos,
            },
            LittleTile::TransformableBox { min_pos, max_pos, flips, corner } => {
                LittleTile::TransformableBox {
                    min_pos: *min_pos,
                    max_pos: *max_pos,
                    flips: *flips,
                    corner: corner.duplicate(),
                }
            },
        }
    }

    /// Encodes a tile into its flat integer sequence: the six bounding-box
    /// values, then the deformation payload for a deformed box. Never fails;
    /// the fallible interface mirrors the rest of the codec.
    pub fn try_into(self) -> (r: Result<Vec<i32>, ParseError>)
        requires
            self.wf(),
        ensures
            r matches Ok(v) && v@ == spec_encode_tile(tile_view(self)),
    {
        match self {
            LittleTile::Box { min_pos, max_pos } => {
                let mut arr: Vec<i32> = Vec::new();
                arr.push(min_pos.x);
                arr.push(min_pos.y);
                arr.push(min_pos.z);
                arr.push(max_pos.x);
                arr.push(max_pos.y);
                arr.push(max_pos.z);
                proof {
                    assert(arr@ =~= spec_bbox_ints(min_pos, max_pos));
                }
                Ok(arr)
            },
            LittleTile::TransformableBox { min_pos, max_pos, flips, corner } => {
                let mut arr: Vec<i32> = Vec::new();
                arr.push(min_pos.x);
                arr.push(min_pos.y);
                arr.push(min_pos.z);
                arr.push(max_pos.x);
                arr.push(max_pos.y);
                arr.push(max_pos.z);
                let mut payload = match encode_transformable_data(flips, &corner) {
                    Ok(p) => p,
                    Err(e) => {
                        return Err(e);
                    },
                };
                arr.append(&mut payload);
                proof {
                    assert(arr@ =~= spec_bbox_ints(min_pos, max_pos) + spec_encode_payload(
                        flips.bits,
                        corner.vals@,
                    ));
                }
                Ok(arr)
            },
        }
    }
}

} // verus!
