//! A bidirectional codec between a tree-structured binary tag format and a
//! voxel-CAD model of axis-aligned boxes with optional per-corner deformation.
//!
//! The library is organised leaf-first: primitive vocabulary types, the
//! bit-packed deformation payload codec, the tile codec, the tag-tree data
//! model, the recursive group codec, and the blueprint codec on top.

pub mod blueprint;
pub mod group;
pub mod jagged;
pub mod primitives;
pub mod tag;
pub mod tile;
pub mod transform;

pub use blueprint::LittleBlueprint;
pub use group::ColorBucket;
pub use group::LittleGroup;
pub use group::MaterialEntry;
pub use jagged::gpu_stride;
pub use jagged::ComputeError;
pub use jagged::JaggedMetadata;
pub use jagged::JaggedShapeCache;
pub use jagged::TypeError;
pub use jagged::VoxelData;
pub use primitives::Axis;
pub use primitives::BoxCorner;
pub use primitives::CornerOffsets;
pub use primitives::Facing;
pub use primitives::Flipped;
pub use primitives::LittleColor;
pub use primitives::LittlePos;
pub use primitives::ParseError;
pub use tag::TagCompound;
pub use tag::TagEntry;
pub use tag::TagNode;
pub use tile::LittleTile;
pub use transform::decode_transformable_data;
pub use transform::encode_transformable_data;
