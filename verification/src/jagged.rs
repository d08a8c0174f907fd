//! CPU-side bookkeeping for a GPU-resident jagged-tensor store: the error
//! vocabulary, the per-tensor metadata, the nested-shape cache, the voxel
//! attribute record, and the buffer-stride arithmetic. These types carry no
//! GPU handles; they are the plain data the rest of that subsystem reads.

use vstd::prelude::*;

verus! {

/// A failure of the compute pipeline.
#[derive(Debug)]
pub enum ComputeError {
    ShaderCompilation(String),
    BufferCreation(String),
    ShapeMismatch { expected: Vec<usize>, actual: Vec<usize> },
    Execution(String),
    TypeMismatch(String),
}

/// A failure of an element-type check.
#[derive(Debug, Clone, Copy, PartialEq, Eq, Structural)]
pub enum TypeError {
    Mismatch,
    Unsupported,
}

/// Per-tensor metadata: outer list count, nesting depth, flat element count,
/// and the aligned stride and vector dimension of one element.
#[derive(Debug, Clone)]
pub struct JaggedMetadata {
    pub num_outer_lists: usize,
    pub ldim: u8,
    pub num_elements: usize,
    pub elem_stride_size: u8,
    pub elem_dimensions: u8,
}

/// A cache of the lengths of each nesting level, kept beside the tensor to
/// avoid repeated device-to-host copies. `is_dirty` marks it stale.
#[derive(Debug, Clone)]
pub struct JaggedShapeCache {
    pub lshape1: Option<Vec<usize>>,
    pub lshape2: Option<Vec<Vec<usize>>>,
    pub lshape3: Option<Vec<Vec<Vec<usize>>>>,
    pub is_dirty: bool,
}

impl Default for JaggedShapeCache {
    /// An empty, clean cache.
    fn default() -> (r: JaggedShapeCache)
        ensures
            r.lshape1 is None,
            r.lshape2 is None,
            r.lshape3 is None,
            !r.is_dirty,
    {
        JaggedShapeCache { lshape1: None, lshape2: None, lshape3: None, is_dirty: false }
    }
}

impl JaggedShapeCache {
    /// Marks the cached shapes stale without discarding them.
    pub fn _mark_dirty(&mut self)
        ensures
            final(self).is_dirty,
            final(self).lshape1 == old(self).lshape1,
            final(self).lshape2 == old(self).lshape2,
            final(self).lshape3 == old(self).lshape3,
    {
        self.is_dirty = true;
    }

    /// Discards every cached shape and marks the cache stale, so the next
    /// access rebuilds it.
    pub fn clear(&mut self)
        ensures
            final(self).lshape1 is None,
            final(self).lshape2 is None,
            final(self).lshape3 is None,
            final(self).is_dirty,
    {
        self.lshape1 = None;
        self.lshape2 = None;
        self.lshape3 = None;
        self.is_dirty = true;
    }
}

/// One voxel's color attributes, as stored per element.
#[derive(Debug, Clone, Copy, PartialEq, Eq, Structural)]
pub struct VoxelData {
    pub r: u8,
    pub g: u8,
    pub b: u8,
    pub a: u8,
}

/// The aligned stride a flat element of the given byte size occupies: sizes
/// up to 4, 8 and 12 bytes round to 4, 8 and 16, and larger sizes round up
/// to the next multiple of 16.
pub open spec fn spec_gpu_stride(bytes: usize) -> int {
    if bytes <= 4 {
        4
    } else if bytes <= 8 {
        8
    } else if bytes <= 12 {
        16
    } else {
        ((bytes + 15) / 16) * 16
    }
}

/// Computes the aligned buffer stride of one element.
pub fn gpu_stride(bytes: usize) -> (r: usize)
    requires
        bytes + 15 <= usize::MAX,
    ensures
        r == spec_gpu_stride(bytes),
        r >= bytes,
        r % 4 == 0,
{
    if bytes <= 4 {
        4
    } else if bytes <= 8 {
        8
    } else if bytes <= 12 {
        16
    } else {
        let r = ((bytes + 15) / 16) * 16;
        proof {
            assert(r >= bytes && r % 4 == 0) by (nonlinear_arith)
                requires
                    r == ((bytes + 15) / 16) * 16,
                    bytes >= 13,
            ;
        }
        r
    }
}

} // verus!
