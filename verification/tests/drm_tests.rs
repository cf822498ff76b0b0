use skwd_paper::drm::{
    checked_descriptor_count, descriptor_planes, CountName, DescriptorError, DrmDescriptor,
    DrmLayer, DrmObject, DrmPlane, FOURCC_GR88, FOURCC_NV12, FOURCC_R8,
};

const CAPACITY: usize = 4;

fn empty_plane() -> DrmPlane {
    DrmPlane { object_index: 0, offset: 0, pitch: 0 }
}

fn empty_layer() -> DrmLayer {
    DrmLayer { format: 0, nb_planes: 0, planes: vec![empty_plane(); CAPACITY] }
}

fn nv12_descriptor() -> DrmDescriptor {
    let mut descriptor = DrmDescriptor {
        nb_objects: 0,
        objects: vec![DrmObject { fd: 0, size: 0, format_modifier: 0 }; CAPACITY],
        nb_layers: 0,
        layers: vec![empty_layer(); CAPACITY],
    };
    descriptor.nb_objects = 1;
    descriptor.objects[0].fd = 9;
    descriptor.objects[0].size = 16_384;
    descriptor.nb_layers = 1;
    descriptor.layers[0].format = FOURCC_NV12;
    descriptor.layers[0].nb_planes = 2;
    descriptor.layers[0].planes[0].object_index = 0;
    descriptor.layers[0].planes[0].pitch = 128;
    descriptor.layers[0].planes[1].object_index = 0;
    descriptor.layers[0].planes[1].offset = 8192;
    descriptor.layers[0].planes[1].pitch = 128;
    descriptor
}

#[test]
fn drm_single_nv12_layer() {
    let descriptor = nv12_descriptor();
    let (luma, chroma) = descriptor_planes(&descriptor).expect("NV12 descriptor");
    assert_eq!(luma.fd, 9);
    assert_eq!(luma.pitch, 128);
    assert_eq!(chroma.offset, 8192);
}

#[test]
fn drm_split_r8_gr88() {
    let mut descriptor = nv12_descriptor();
    descriptor.nb_layers = 2;
    descriptor.layers[0].format = FOURCC_R8;
    descriptor.layers[0].nb_planes = 1;
    descriptor.layers[1].format = FOURCC_GR88;
    descriptor.layers[1].nb_planes = 1;
    descriptor.layers[1].planes[0] = descriptor.layers[0].planes[1];
    let (_, chroma) = descriptor_planes(&descriptor).expect("split NV12 descriptor");
    assert_eq!(chroma.offset, 8192);
}

#[test]
fn drm_rejects_bad_layers() {
    let mut descriptor = nv12_descriptor();
    descriptor.layers[0].format = u32::from_le_bytes(*b"P010");
    assert!(descriptor_planes(&descriptor).is_err());
    descriptor.layers[0].format = FOURCC_NV12;
    descriptor.layers[0].planes[1].object_index = 1;
    assert!(descriptor_planes(&descriptor).is_err());
}

#[test]
fn drm_refusals_name_their_cause() {
    let mut descriptor = nv12_descriptor();
    descriptor.layers[0].format = u32::from_le_bytes(*b"P010");
    assert_eq!(descriptor_planes(&descriptor), Err(DescriptorError::NotNv12));

    let mut missing = nv12_descriptor();
    missing.layers[0].planes[1].object_index = 1;
    assert_eq!(descriptor_planes(&missing), Err(DescriptorError::MissingObject(1, 1)));

    let mut negative = nv12_descriptor();
    negative.nb_layers = -1;
    assert_eq!(descriptor_planes(&negative), Err(DescriptorError::NegativeCount(CountName::Layer)));

    let mut zero_pitch = nv12_descriptor();
    zero_pitch.layers[0].planes[0].pitch = 0;
    assert_eq!(descriptor_planes(&zero_pitch), Err(DescriptorError::InvalidPlane));
}

#[test]
fn descriptor_counts_are_bounded() {
    assert_eq!(checked_descriptor_count(2, 4, CountName::Plane), Ok(2));
    assert_eq!(
        checked_descriptor_count(5, 4, CountName::Object),
        Err(DescriptorError::CountExceeds(CountName::Object, 5, 4))
    );
    assert_eq!(
        checked_descriptor_count(-1, 4, CountName::Layer),
        Err(DescriptorError::NegativeCount(CountName::Layer))
    );
}
