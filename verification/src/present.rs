use vstd::prelude::*;

verus! {

/// A still image stops redrawing once it has shown a frame, unless a
/// transition or a pending swap still needs frames.
pub fn should_park_still(still: bool, fade_active: bool, swap_pending: bool, frames: u64) -> (park:
    bool)
    ensures
        park == (still && !fade_active && !swap_pending && frames > 0),
{
    still && !fade_active && !swap_pending && frames > 0
}

/// The outgoing video frame may be released only when the source is not a
/// still and no transition still samples it.
pub fn should_release_source_frame(still: bool, fading: bool) -> (release: bool)
    ensures
        release == (!still && !fading),
{
    !still && !fading
}

/// Control commands are read unless this is a transient overlay that is not held.
pub fn control_enabled_for_overlay(overlay: bool, held: bool) -> (enabled: bool)
    ensures
        enabled == (!overlay || held),
{
    !overlay || held
}

/// Why a presentation was refused.
#[derive(Clone, Debug)]
pub struct PresentationError {
    /// What was being presented.
    pub label: String,
}

impl PresentationError {
    /// The error as text.
    pub fn message(&self) -> (text: String)
        ensures
            text@ == "compositor did not confirm presentation of "@ + self.label@
                + " within 2 seconds"@,
    {
        let mut text = String::from_str("compositor did not confirm presentation of ");
        text.append(self.label.as_str());
        text.append(" within 2 seconds");
        text
    }
}

/// Fails closed on presentation feedback: a refused confirmation is an error,
/// a missing feedback channel falls back to commit readiness.
pub fn require_presentation_confirmation(confirmed: Option<bool>, label: &str) -> (result: Result<
    (),
    PresentationError,
>)
    ensures
        match result {
            Ok(()) => confirmed != Some(false),
            Err(e) => confirmed == Some(false) && e.label@ == label@,
        },
{
    match confirmed {
        Some(true) => Ok(()),
        Some(false) => Err(PresentationError { label: String::from_str(label) }),
        None => Ok(()),
    }
}

/// Clears the pending flag of every output that reports its release, and says
/// whether no output is pending any more.
pub fn consume_output_releases(pending_outputs: &mut [bool], released: impl Fn(usize) -> bool) -> (all_released:
    bool)
    requires
        forall|i: usize| call_requires(released, (i,)),
    ensures
        final(pending_outputs)@.len() == old(pending_outputs)@.len(),
        forall|i: int|
            0 <= i < old(pending_outputs)@.len() ==> {
                &&& #[trigger] final(pending_outputs)@[i] ==> old(pending_outputs)@[i]
                    && call_ensures(released, (i as usize,), false)
                &&& old(pending_outputs)@[i] && !final(pending_outputs)@[i] ==> call_ensures(
                    released,
                    (i as usize,),
                    true,
                )
            },
        all_released == forall|i: int|
            0 <= i < old(pending_outputs)@.len() ==> !#[trigger] final(pending_outputs)@[i],
{
    let ghost initial = pending_outputs@;
    let mut all_released = true;
    let mut si: usize = 0;
    while si < pending_outputs.len()
        invariant
            si <= pending_outputs@.len(),
            pending_outputs@.len() == initial.len(),
            forall|i: usize| call_requires(released, (i,)),
            forall|i: int|
                0 <= i < si ==> {
                    &&& #[trigger] pending_outputs@[i] ==> initial[i] && call_ensures(
                        released,
                        (i as usize,),
                        false,
                    )
                    &&& initial[i] && !pending_outputs@[i] ==> call_ensures(
                        released,
                        (i as usize,),
                        true,
                    )
                },
            forall|i: int| si <= i < initial.len() ==> pending_outputs@[i] == initial[i],
            all_released == forall|i: int| 0 <= i < si ==> !#[trigger] pending_outputs@[i],
        decreases initial.len() - si,
    {
        let ghost before = pending_outputs@;
        let ghost all_before = all_released;
        if pending_outputs[si] {
            if released(si) {
                pending_outputs[si] = false;
            } else {
                all_released = false;
            }
        }
        proof {
            if !all_before {
                let j = choose|j: int| 0 <= j < si && #[trigger] before[j];
                assert(pending_outputs@[j]);
            }
            if !all_released && all_before {
                assert(pending_outputs@[si as int]);
            }
        }
        si = si + 1;
    }
    all_released
}

/// Whether a presentation has become ready on startup or after a swap and the
/// compositor has not yet been told.
pub struct PresentationReadiness {
    pending: bool,
}

impl PresentationReadiness {
    /// A readiness signal is still owed.
    pub closed spec fn is_pending(&self) -> bool {
        self.pending
    }

    /// Readiness is owed for the first presentation.
    pub fn startup() -> (readiness: PresentationReadiness)
        ensures
            readiness.is_pending(),
    {
        PresentationReadiness { pending: true }
    }

    /// Readiness is owed again after a swap.
    pub fn arm_swap(&mut self)
        ensures
            final(self).is_pending(),
    {
        self.pending = true;
    }

    /// Takes the owed signal once a frame was committed.
    pub fn take_if_committed(&mut self, committed: bool) -> (take: bool)
        ensures
            take == (committed && old(self).is_pending()),
            final(self).is_pending() == (old(self).is_pending() && !committed),
    {
        if committed && self.pending {
            self.pending = false;
            true
        } else {
            false
        }
    }

    /// Once a committed frame owes readiness, waits for its presentation and
    /// only then notifies. Says whether it notified.
    pub fn complete_after_presentation<E>(
        &mut self,
        committed: bool,
        wait_for_presentation: impl FnOnce() -> Result<(), E>,
        notify: impl FnOnce(),
    ) -> (result: Result<bool, E>)
        requires
            call_requires(wait_for_presentation, ()),
            call_requires(notify, ()),
        ensures
            final(self).is_pending() == (old(self).is_pending() && !committed),
            match result {
                Ok(notified) => notified == (committed && old(self).is_pending()) && (notified
                    ==> call_ensures(wait_for_presentation, (), Ok::<(), E>(())) && call_ensures(
                    notify,
                    (),
                    (),
                )),
                Err(e) => committed && old(self).is_pending() && call_ensures(
                    wait_for_presentation,
                    (),
                    Err::<(), E>(e),
                ),
            },
    {
        if !self.take_if_committed(committed) {
            return Ok(false);
        }
        let waited = wait_for_presentation();
        let ghost outcome = waited;
        match waited {
            Ok(u) => {
                assert(outcome == Ok::<(), E>(()));
            },
            Err(e) => return Err(e),
        }
        notify();
        Ok(true)
    }
}

/// Most VAAPI surfaces presented directly.
pub const VAAPI_SURFACE_SLOTS: usize = 32;

/// The identity of one plane of a VAAPI surface's memory.
#[derive(Clone, Copy, Debug, PartialEq, Eq, Structural)]
pub struct PlaneKey {
    pub device: u64,
    pub inode: u64,
    pub object_size: usize,
    pub offset: usize,
    pub pitch: usize,
    pub modifier: u64,
}

/// The identity of a VAAPI surface's NV12 memory.
#[derive(Clone, Copy, Debug, PartialEq, Eq, Structural)]
pub struct DescriptorKey {
    pub width: u32,
    pub height: u32,
    pub luma: PlaneKey,
    pub chroma: PlaneKey,
}

/// A VAAPI surface imported for direct presentation.
#[derive(Clone, Debug)]
pub struct SlotRecord {
    /// The decoder's surface handle.
    pub key: usize,
    pub descriptor: DescriptorKey,
    /// Outputs that still show this surface.
    pub pending_outputs: Vec<bool>,
}

/// Which slot a decoded VAAPI surface is presented from.
#[derive(Clone, Copy, Debug, PartialEq, Eq, Structural)]
pub enum SlotChoice {
    /// The surface was imported before, into this slot.
    Reuse(usize),
    /// The surface is new: import it into a new slot.
    Create,
}

/// Why a decoded VAAPI surface cannot be presented directly.
#[derive(Clone, Copy, Debug, PartialEq, Eq, Structural)]
pub enum SlotError {
    /// A known surface now has other memory behind it.
    BackingChanged,
    /// A known surface came back while an output still shows it.
    ReusedBeforeRelease,
    /// The decoder uses more than `VAAPI_SURFACE_SLOTS` surfaces.
    TooManySurfaces,
    /// A new surface has other dimensions than the stream.
    DimensionsChanged,
}

/// Slot `i` is the first one imported from surface `key`.
pub open spec fn first_slot(slots: Seq<SlotRecord>, key: usize, i: int) -> bool {
    &&& 0 <= i < slots.len()
    &&& slots[i].key == key
    &&& forall|j: int| 0 <= j < i ==> (#[trigger] slots[j]).key != key
}

/// What `vaapi_slot_choice` returns.
pub open spec fn slot_choice_spec(
    slots: Seq<SlotRecord>,
    key: usize,
    descriptor: DescriptorKey,
    dims: (u32, u32),
) -> Result<SlotChoice, SlotError> {
    if exists|i: int| first_slot(slots, key, i) {
        let i = choose|i: int| first_slot(slots, key, i);
        if slots[i].descriptor != descriptor {
            Err(SlotError::BackingChanged)
        } else if slots[i].pending_outputs@.contains(true) {
            Err(SlotError::ReusedBeforeRelease)
        } else {
            Ok(SlotChoice::Reuse(i as usize))
        }
    } else if slots.len() >= VAAPI_SURFACE_SLOTS {
        Err(SlotError::TooManySurfaces)
    } else if (descriptor.width, descriptor.height) != dims {
        Err(SlotError::DimensionsChanged)
    } else {
        Ok(SlotChoice::Create)
    }
}

fn any_pending(pending: &Vec<bool>) -> (any: bool)
    ensures
        any == pending@.contains(true),
{
    let mut i: usize = 0;
    while i < pending.len()
        invariant
            i <= pending.len(),
            forall|j: int| 0 <= j < i ==> !pending@[j],
        decreases pending.len() - i,
    {
        if pending[i] {
            assert(pending@[i as int] == true);
            return true;
        }
        i = i + 1;
    }
    false
}

/// Decides where a decoded VAAPI surface is presented from: the slot it was
/// imported into before, as long as its memory is unchanged and no output
/// still shows it, or a new slot while there is room and the dimensions
/// match the stream's.
pub fn vaapi_slot_choice(
    slots: &[SlotRecord],
    key: usize,
    descriptor: DescriptorKey,
    dims: (u32, u32),
) -> (choice: Result<SlotChoice, SlotError>)
    ensures
        choice == slot_choice_spec(slots@, key, descriptor, dims),
{
    let mut i: usize = 0;
    while i < slots.len()
        invariant
            i <= slots.len(),
            forall|j: int| 0 <= j < i ==> (#[trigger] slots@[j]).key != key,
        decreases slots.len() - i,
    {
        if slots[i].key == key {
            proof {
                assert(first_slot(slots@, key, i as int));
                let c = choose|c: int| first_slot(slots@, key, c);
                if c < i {
                    assert(slots@[c].key != key);
                } else if c > i {
                    assert(slots@[i as int].key != key);
                }
            }
            if slots[i].descriptor != descriptor {
                return Err(SlotError::BackingChanged);
            }
            if any_pending(&slots[i].pending_outputs) {
                return Err(SlotError::ReusedBeforeRelease);
            }
            return Ok(SlotChoice::Reuse(i));
        }
        i = i + 1;
    }
    if slots.len() >= VAAPI_SURFACE_SLOTS {
        return Err(SlotError::TooManySurfaces);
    }
    if descriptor.width != dims.0 || descriptor.height != dims.1 {
        return Err(SlotError::DimensionsChanged);
    }
    Ok(SlotChoice::Create)
}

/// A surface is reused only from the first slot imported from it, with the
/// same memory and shown nowhere; a new slot is made only for a surface never
/// seen, while fewer than `VAAPI_SURFACE_SLOTS` slots exist and its
/// dimensions are the stream's. Once a surface's slot is recorded, choosing
/// for it again reuses that slot while no output shows it.
pub proof fn lemma_slot_choice(
    slots: Seq<SlotRecord>,
    key: usize,
    descriptor: DescriptorKey,
    dims: (u32, u32),
    record: SlotRecord,
)
    requires
        slots.len() <= usize::MAX,
    ensures
        slot_choice_spec(slots, key, descriptor, dims) matches Ok(SlotChoice::Reuse(i)) ==> {
            &&& i < slots.len()
            &&& slots[i as int].key == key
            &&& slots[i as int].descriptor == descriptor
            &&& !slots[i as int].pending_outputs@.contains(true)
            &&& forall|j: int| 0 <= j < i ==> slots[j].key != key
        },
        slot_choice_spec(slots, key, descriptor, dims) == Ok::<SlotChoice, SlotError>(
            SlotChoice::Create,
        ) ==> {
            &&& forall|j: int| 0 <= j < slots.len() ==> slots[j].key != key
            &&& slots.len() < VAAPI_SURFACE_SLOTS
            &&& descriptor.width == dims.0 && descriptor.height == dims.1
        },
        (slot_choice_spec(slots, key, descriptor, dims) == Ok::<SlotChoice, SlotError>(
            SlotChoice::Create,
        ) && record.key == key && record.descriptor == descriptor
            && !record.pending_outputs@.contains(true)) ==> slot_choice_spec(
            slots.push(record),
            key,
            descriptor,
            dims,
        ) == Ok::<SlotChoice, SlotError>(SlotChoice::Reuse(slots.len() as usize)),
{
    if slot_choice_spec(slots, key, descriptor, dims) == Ok::<SlotChoice, SlotError>(
        SlotChoice::Create,
    ) {
        assert forall|j: int| 0 <= j < slots.len() implies slots[j].key != key by {
            if slots[j].key == key {
                if exists|k: int| 0 <= k < j && (#[trigger] slots[k]).key == key {
                    lemma_first_slot_exists(slots, key, j);
                } else {
                    assert(first_slot(slots, key, j));
                }
            }
        }
        if record.key == key && record.descriptor == descriptor
            && !record.pending_outputs@.contains(true) {
            let t = slots.push(record);
            assert(first_slot(t, key, slots.len() as int)) by {
                assert forall|j: int| 0 <= j < slots.len() implies (#[trigger] t[j]).key != key by {
                    assert(t[j] == slots[j]);
                }
            }
            let c = choose|c: int| first_slot(t, key, c);
            if c < slots.len() {
                assert(t[c] == slots[c]);
            }
        }
    }
}

proof fn lemma_first_slot_exists(slots: Seq<SlotRecord>, key: usize, i: int)
    requires
        0 <= i < slots.len(),
        slots[i].key == key,
    ensures
        exists|f: int| first_slot(slots, key, f),
    decreases i,
{
    if exists|k: int| 0 <= k < i && (#[trigger] slots[k]).key == key {
        let k = choose|k: int| 0 <= k < i && (#[trigger] slots[k]).key == key;
        lemma_first_slot_exists(slots, key, k);
    } else {
        assert(first_slot(slots, key, i));
    }
}

} // verus!
