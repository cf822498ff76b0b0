use vstd::prelude::*;

verus! {

/// DRM fourcc of single-layer NV12.
pub const FOURCC_NV12: u32 = 0x3231_564e;

/// DRM fourcc of an 8-bit single-channel plane.
pub const FOURCC_R8: u32 = 0x2020_3852;

/// DRM fourcc of an RG88 plane.
pub const FOURCC_RG88: u32 = 0x3838_4752;

/// DRM fourcc of a GR88 plane.
pub const FOURCC_GR88: u32 = 0x3838_5247;

/// One exported memory object of a DRM frame.
#[derive(Clone, Copy, Debug, PartialEq, Eq, Structural)]
pub struct DrmObject {
    pub fd: i32,
    pub size: usize,
    pub format_modifier: u64,
}

/// One plane of a DRM layer.
#[derive(Clone, Copy, Debug, PartialEq, Eq, Structural)]
pub struct DrmPlane {
    pub object_index: i32,
    pub offset: isize,
    pub pitch: isize,
}

/// One layer of a DRM frame. `planes` has the descriptor's fixed capacity.
#[derive(Clone, Debug)]
pub struct DrmLayer {
    pub format: u32,
    pub nb_planes: i32,
    pub planes: Vec<DrmPlane>,
}

/// A DRM-PRIME frame descriptor; `objects` and `layers` have its fixed capacity.
#[derive(Clone, Debug)]
pub struct DrmDescriptor {
    pub nb_objects: i32,
    pub objects: Vec<DrmObject>,
    pub nb_layers: i32,
    pub layers: Vec<DrmLayer>,
}

/// The memory behind one plane of an NV12 frame.
#[derive(Clone, Copy, Debug, PartialEq, Eq, Structural)]
pub struct PlaneDesc {
    pub fd: i32,
    pub object_size: usize,
    pub modifier: u64,
    pub offset: usize,
    pub pitch: usize,
}

/// Which count of a descriptor is refused.
#[derive(Clone, Copy, Debug, PartialEq, Eq, Structural)]
pub enum CountName {
    Object,
    Layer,
    Plane,
}

/// Why a DRM descriptor is refused.
#[derive(Clone, Copy, Debug, PartialEq, Eq, Structural)]
pub enum DescriptorError {
    /// A count is negative.
    NegativeCount(CountName),
    /// A count exceeds the descriptor's capacity.
    CountExceeds(CountName, usize, usize),
    /// The layers are neither one NV12 layer nor an R8 layer and an RG88/GR88 layer.
    NotNv12,
    /// A plane names a negative object.
    NegativeObjectIndex,
    /// A plane names an object beyond the object count.
    MissingObject(usize, usize),
    /// A plane's object has a negative descriptor or zero size, or the plane has zero pitch.
    InvalidPlane,
    /// The layers hold a number of planes other than two.
    PlaneCount(usize),
}

/// What `checked_descriptor_count` returns: the count when it is neither
/// negative nor above the capacity.
pub open spec fn count_spec(value: i32, capacity: usize, name: CountName) -> Result<
    usize,
    DescriptorError,
> {
    if value < 0 {
        Err(DescriptorError::NegativeCount(name))
    } else if value > capacity {
        Err(DescriptorError::CountExceeds(name, value as usize, capacity))
    } else {
        Ok(value as usize)
    }
}

/// Checks a count read from a descriptor against the array it indexes.
pub fn checked_descriptor_count(value: i32, capacity: usize, name: CountName) -> (count: Result<
    usize,
    DescriptorError,
>)
    ensures
        count == count_spec(value, capacity, name),
{
    if value < 0 {
        return Err(DescriptorError::NegativeCount(name));
    }
    let count = value as usize;
    if count > capacity {
        return Err(DescriptorError::CountExceeds(name, count, capacity));
    }
    Ok(count)
}

/// The layers that hold the two NV12 planes: one NV12 layer with two planes,
/// or an R8 luma layer and an RG88/GR88 chroma layer with one plane each.
pub open spec fn layer_choice_spec(layers: Seq<DrmLayer>, count: int) -> Option<Seq<int>> {
    if count == 1 && layers[0].format == FOURCC_NV12 && layers[0].nb_planes == 2 {
        Some(seq![0int])
    } else if count == 2 && layers[0].format == FOURCC_R8 && (layers[1].format == FOURCC_RG88
        || layers[1].format == FOURCC_GR88) && layers[0].nb_planes == 1 && layers[1].nb_planes
        == 1 {
        Some(seq![0int, 1int])
    } else {
        None
    }
}

/// The plane description of one DRM plane, checked against the objects.
pub open spec fn plane_spec(objects: Seq<DrmObject>, object_count: int, plane: DrmPlane) -> Result<
    PlaneDesc,
    DescriptorError,
> {
    if plane.object_index < 0 {
        Err(DescriptorError::NegativeObjectIndex)
    } else if plane.object_index >= object_count || plane.object_index >= objects.len() {
        Err(DescriptorError::MissingObject(plane.object_index as usize, object_count as usize))
    } else {
        let object = objects[plane.object_index as int];
        if object.fd < 0 || object.size == 0 || plane.pitch == 0 {
            Err(DescriptorError::InvalidPlane)
        } else {
            Ok(
                PlaneDesc {
                    fd: object.fd,
                    object_size: object.size,
                    modifier: object.format_modifier,
                    offset: plane.offset as usize,
                    pitch: plane.pitch as usize,
                },
            )
        }
    }
}

/// The descriptions of the first `n` planes, or the first error among them.
pub open spec fn planes_spec(objects: Seq<DrmObject>, object_count: int, planes: Seq<DrmPlane>, n: nat) -> Result<
    Seq<PlaneDesc>,
    DescriptorError,
>
    decreases n,
{
    if n == 0 {
        Ok(Seq::empty())
    } else {
        match planes_spec(objects, object_count, planes, (n - 1) as nat) {
            Err(e) => Err(e),
            Ok(done) => match plane_spec(objects, object_count, planes[n - 1]) {
                Err(e) => Err(e),
                Ok(p) => Ok(done.push(p)),
            },
        }
    }
}

/// The planes of one layer after checking its plane count.
pub open spec fn layer_planes_spec(objects: Seq<DrmObject>, object_count: int, layer: DrmLayer) -> Result<
    Seq<PlaneDesc>,
    DescriptorError,
> {
    match count_spec(layer.nb_planes, layer.planes@.len() as usize, CountName::Plane) {
        Err(e) => Err(e),
        Ok(n) => planes_spec(objects, object_count, layer.planes@, n as nat),
    }
}

/// What `descriptor_planes` returns: the luma and chroma planes of an NV12 frame.
pub open spec fn descriptor_spec(desc: DrmDescriptor) -> Result<(PlaneDesc, PlaneDesc), DescriptorError> {
    match count_spec(desc.nb_objects, desc.objects@.len() as usize, CountName::Object) {
        Err(e) => Err(e),
        Ok(object_count) => match count_spec(
            desc.nb_layers,
            desc.layers@.len() as usize,
            CountName::Layer,
        ) {
            Err(e) => Err(e),
            Ok(layer_count) => match layer_choice_spec(desc.layers@, layer_count as int) {
                None => Err(DescriptorError::NotNv12),
                Some(chosen) => {
                    let first = layer_planes_spec(
                        desc.objects@,
                        object_count as int,
                        desc.layers@[chosen[0]],
                    );
                    let all = if chosen.len() == 1 {
                        first
                    } else {
                        match first {
                            Err(e) => Err(e),
                            Ok(a) => match layer_planes_spec(
                                desc.objects@,
                                object_count as int,
                                desc.layers@[chosen[1]],
                            ) {
                                Err(e) => Err(e),
                                Ok(b) => Ok(a + b),
                            },
                        }
                    };
                    match all {
                        Err(e) => Err(e),
                        Ok(planes) => if planes.len() == 2 {
                            Ok((planes[0], planes[1]))
                        } else {
                            Err(DescriptorError::PlaneCount(planes.len() as usize))
                        },
                    }
                },
            },
        },
    }
}

fn plane_desc(objects: &Vec<DrmObject>, object_count: usize, plane: DrmPlane) -> (desc: Result<
    PlaneDesc,
    DescriptorError,
>)
    ensures
        desc == plane_spec(objects@, object_count as int, plane),
{
    if plane.object_index < 0 {
        return Err(DescriptorError::NegativeObjectIndex);
    }
    let object_index = plane.object_index as usize;
    if object_index >= object_count || object_index >= objects.len() {
        return Err(DescriptorError::MissingObject(object_index, object_count));
    }
    let object = objects[object_index];
    if object.fd < 0 || object.size == 0 || plane.pitch == 0 {
        return Err(DescriptorError::InvalidPlane);
    }
    Ok(
        PlaneDesc {
            fd: object.fd,
            object_size: object.size,
            modifier: object.format_modifier,
            offset: plane.offset as usize,
            pitch: plane.pitch as usize,
        },
    )
}

fn collect_layer_planes(
    objects: &Vec<DrmObject>,
    object_count: usize,
    layer: &DrmLayer,
    planes: &mut Vec<PlaneDesc>,
) -> (result: Result<(), DescriptorError>)
    ensures
        match layer_planes_spec(objects@, object_count as int, *layer) {
            Ok(found) => result is Ok && final(planes)@ == old(planes)@ + found,
            Err(e) => result == Err::<(), DescriptorError>(e),
        },
{
    let plane_count = match checked_descriptor_count(
        layer.nb_planes,
        layer.planes.len(),
        CountName::Plane,
    ) {
        Ok(n) => n,
        Err(e) => return Err(e),
    };
    let ghost start = planes@;
    let mut i: usize = 0;
    while i < plane_count
        invariant
            plane_count <= layer.planes.len(),
            i <= plane_count,
            count_spec(layer.nb_planes, layer.planes@.len() as usize, CountName::Plane) == Ok::<
                usize,
                DescriptorError,
            >(plane_count),
            planes_spec(objects@, object_count as int, layer.planes@, i as nat) matches Ok(done)
                && planes@ == start + done,
        decreases plane_count - i,
    {
        let ghost done = planes_spec(objects@, object_count as int, layer.planes@, i as nat)->Ok_0;
        match plane_desc(objects, object_count, layer.planes[i]) {
            Ok(p) => {
                planes.push(p);
                proof {
                    assert(planes@ =~= start + done.push(p));
                }
            },
            Err(e) => {
                proof {
                    assert(planes_spec(objects@, object_count as int, layer.planes@, (i + 1) as nat)
                        == Err::<Seq<PlaneDesc>, DescriptorError>(e));
                    lemma_planes_error_persists(
                        objects@,
                        object_count as int,
                        layer.planes@,
                        (i + 1) as nat,
                        plane_count as nat,
                    );
                }
                return Err(e);
            },
        }
        i = i + 1;
    }
    Ok(())
}

proof fn lemma_planes_error_persists(
    objects: Seq<DrmObject>,
    object_count: int,
    planes: Seq<DrmPlane>,
    k: nat,
    n: nat,
)
    requires
        k <= n,
        planes_spec(objects, object_count, planes, k) is Err,
    ensures
        planes_spec(objects, object_count, planes, n) == planes_spec(
            objects,
            object_count,
            planes,
            k,
        ),
    decreases n - k,
{
    if k < n {
        lemma_planes_error_persists(objects, object_count, planes, k, (n - 1) as nat);
    }
}

/// Finds the luma and chroma planes of an NV12 DRM-PRIME frame.
pub fn descriptor_planes(desc: &DrmDescriptor) -> (planes: Result<
    (PlaneDesc, PlaneDesc),
    DescriptorError,
>)
    ensures
        planes == descriptor_spec(*desc),
{
    let object_count = match checked_descriptor_count(
        desc.nb_objects,
        desc.objects.len(),
        CountName::Object,
    ) {
        Ok(n) => n,
        Err(e) => return Err(e),
    };
    let layer_count = match checked_descriptor_count(
        desc.nb_layers,
        desc.layers.len(),
        CountName::Layer,
    ) {
        Ok(n) => n,
        Err(e) => return Err(e),
    };
    let two_layers = if layer_count == 1 && desc.layers[0].format == FOURCC_NV12
        && desc.layers[0].nb_planes == 2 {
        false
    } else if layer_count == 2 && desc.layers[0].format == FOURCC_R8 && (desc.layers[1].format
        == FOURCC_RG88 || desc.layers[1].format == FOURCC_GR88) && desc.layers[0].nb_planes == 1
        && desc.layers[1].nb_planes == 1 {
        true
    } else {
        return Err(DescriptorError::NotNv12);
    };
    let mut planes: Vec<PlaneDesc> = Vec::new();
    match collect_layer_planes(&desc.objects, object_count, &desc.layers[0], &mut planes) {
        Ok(()) => {},
        Err(e) => return Err(e),
    }
    if two_layers {
        match collect_layer_planes(&desc.objects, object_count, &desc.layers[1], &mut planes) {
            Ok(()) => {},
            Err(e) => return Err(e),
        }
    }
    assert(Seq::<PlaneDesc>::empty() + planes@ =~= planes@);
    if planes.len() != 2 {
        return Err(DescriptorError::PlaneCount(planes.len()));
    }
    Ok((planes[0], planes[1]))
}

proof fn lemma_planes_valid(objects: Seq<DrmObject>, object_count: int, planes: Seq<DrmPlane>, n: nat)
    ensures
        planes_spec(objects, object_count, planes, n) matches Ok(ps) ==> ps.len() == n && forall|i: int|
            0 <= i < ps.len() ==> (#[trigger] ps[i]).fd >= 0 && ps[i].object_size > 0,
    decreases n,
{
    if n > 0 {
        lemma_planes_valid(objects, object_count, planes, (n - 1) as nat);
    }
}

/// Every plane of an accepted descriptor lies in an object with a valid
/// descriptor and nonzero size; a negative object count is refused first.
pub proof fn lemma_accepted_planes_are_valid(desc: DrmDescriptor)
    ensures
        descriptor_spec(desc) matches Ok((luma, chroma)) ==> luma.fd >= 0 && luma.object_size > 0
            && chroma.fd >= 0 && chroma.object_size > 0,
        desc.nb_objects < 0 ==> descriptor_spec(desc) == Err::<(PlaneDesc, PlaneDesc), DescriptorError>(
            DescriptorError::NegativeCount(CountName::Object),
        ),
{
    let layers = desc.layers@;
    if layers.len() > 0 {
        let l0 = layers[0];
        lemma_planes_valid(desc.objects@, desc.nb_objects as int, l0.planes@, l0.nb_planes as nat);
        if layers.len() > 1 {
            let l1 = layers[1];
            lemma_planes_valid(desc.objects@, desc.nb_objects as int, l1.planes@, l1.nb_planes as nat);
        }
    }
    if descriptor_spec(desc) is Ok {
        let object_count = desc.nb_objects as usize;
        let chosen = layer_choice_spec(layers, desc.nb_layers as int)->0;
        let a = layer_planes_spec(desc.objects@, object_count as int, layers[chosen[0]]);
        if chosen.len() == 2 {
            let b = layer_planes_spec(desc.objects@, object_count as int, layers[chosen[1]]);
            let (pa, pb) = (a->Ok_0, b->Ok_0);
            assert((pa + pb)[0] == pa[0]);
            assert((pa + pb)[1] == pb[0]);
        }
    }
}

/// One NV12 layer whose two planes name valid objects gives those planes,
/// luma first, each with its object's descriptor, size and modifier and the
/// plane's own offset and pitch.
pub proof fn lemma_single_nv12_layer(desc: DrmDescriptor)
    requires
        0 <= desc.nb_objects <= desc.objects@.len(),
        desc.nb_layers == 1,
        desc.layers@.len() >= 1,
        desc.layers@[0].format == FOURCC_NV12,
        desc.layers@[0].nb_planes == 2,
        desc.layers@[0].planes@.len() >= 2,
        desc.objects@.len() <= usize::MAX,
        desc.layers@.len() <= usize::MAX,
        desc.layers@[0].planes@.len() <= usize::MAX,
        forall|k: int|
            0 <= k < 2 ==> {
                let p = #[trigger] desc.layers@[0].planes@[k];
                &&& 0 <= p.object_index < desc.nb_objects
                &&& desc.objects@[p.object_index as int].fd >= 0
                &&& desc.objects@[p.object_index as int].size > 0
                &&& p.pitch != 0
            },
    ensures
        ({
            let p0 = desc.layers@[0].planes@[0];
            let p1 = desc.layers@[0].planes@[1];
            let o0 = desc.objects@[p0.object_index as int];
            let o1 = desc.objects@[p1.object_index as int];
            descriptor_spec(desc) == Ok::<(PlaneDesc, PlaneDesc), DescriptorError>(
                (
                    PlaneDesc {
                        fd: o0.fd,
                        object_size: o0.size,
                        modifier: o0.format_modifier,
                        offset: p0.offset as usize,
                        pitch: p0.pitch as usize,
                    },
                    PlaneDesc {
                        fd: o1.fd,
                        object_size: o1.size,
                        modifier: o1.format_modifier,
                        offset: p1.offset as usize,
                        pitch: p1.pitch as usize,
                    },
                ),
            )
        }),
{
    let p0 = desc.layers@[0].planes@[0];
    let p1 = desc.layers@[0].planes@[1];
    assert(0 <= p0.object_index < desc.nb_objects);
    assert(0 <= p1.object_index < desc.nb_objects);
    let l = desc.layers@[0];
    assert(planes_spec(desc.objects@, desc.nb_objects as int, l.planes@, 0) == Ok::<
        Seq<PlaneDesc>,
        DescriptorError,
    >(Seq::empty()));
    let objs = desc.objects@;
    let c = desc.nb_objects as int;
    assert(plane_spec(objs, c, l.planes@[0]) is Ok);
    assert(plane_spec(objs, c, l.planes@[1]) is Ok);
    let one = planes_spec(objs, c, l.planes@, 1);
    assert(one == Ok::<Seq<PlaneDesc>, DescriptorError>(
        seq![plane_spec(objs, c, l.planes@[0])->Ok_0],
    ));
    let r = planes_spec(objs, c, l.planes@, 2);
    let d0 = plane_spec(objs, c, l.planes@[0])->Ok_0;
    let d1 = plane_spec(objs, c, l.planes@[1])->Ok_0;
    assert(seq![d0].push(d1) =~= seq![d0, d1]);
    assert(r == Ok::<Seq<PlaneDesc>, DescriptorError>(
        seq![plane_spec(objs, c, l.planes@[0])->Ok_0, plane_spec(objs, c, l.planes@[1])->Ok_0],
    ));
}

} // verus!
