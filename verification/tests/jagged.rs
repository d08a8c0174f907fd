use voxel_cad::gpu_stride;
use voxel_cad::JaggedMetadata;
use voxel_cad::JaggedShapeCache;
use voxel_cad::TypeError;
use voxel_cad::VoxelData;

#[test]
fn test_gpu_stride() {
    assert_eq!(gpu_stride(0), 4);
    assert_eq!(gpu_stride(1), 4);
    assert_eq!(gpu_stride(4), 4);
    assert_eq!(gpu_stride(5), 8);
    assert_eq!(gpu_stride(8), 8);
    assert_eq!(gpu_stride(9), 16);
    assert_eq!(gpu_stride(12), 16);
    assert_eq!(gpu_stride(13), 16);
    assert_eq!(gpu_stride(16), 16);
    assert_eq!(gpu_stride(17), 32);
    assert_eq!(gpu_stride(100), 112);
}

#[test]
fn test_shape_cache() {
    let mut cache = JaggedShapeCache::default();
    assert!(!cache.is_dirty);
    assert!(cache.lshape1.is_none());
    cache.lshape1 = Some(vec![2, 2]);
    cache.lshape2 = Some(vec![vec![2, 1], vec![3, 2]]);
    cache._mark_dirty();
    assert!(cache.is_dirty);
    assert_eq!(cache.lshape1, Some(vec![2, 2]));
    cache.clear();
    assert!(cache.is_dirty);
    assert!(cache.lshape1.is_none());
    assert!(cache.lshape2.is_none());
    assert!(cache.lshape3.is_none());
}

#[test]
fn test_metadata_and_voxel_data() {
    let meta = JaggedMetadata {
        num_outer_lists: 2,
        ldim: 3,
        num_elements: 8,
        elem_stride_size: 16,
        elem_dimensions: 3,
    };
    let copy = meta.clone();
    assert_eq!(copy.num_outer_lists, 2);
    assert_eq!(copy.ldim, 3);
    assert_eq!(copy.num_elements, 8);
    assert_eq!(copy.elem_stride_size, 16);
    assert_eq!(copy.elem_dimensions, 3);

    let v = VoxelData { r: 10, g: 20, b: 30, a: 40 };
    assert_eq!(v, VoxelData { r: 10, g: 20, b: 30, a: 40 });
    assert_ne!(TypeError::Mismatch, TypeError::Unsupported);
}
