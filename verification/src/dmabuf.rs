use vstd::prelude::*;

verus! {

/// DRM fourcc of XRGB8888.
pub const FOURCC_XR24: u32 = 0x3432_5258;

/// DRM fourcc of NV12.
pub const FOURCC_NV12: u32 = 0x3231_564e;

/// The linear buffer layout.
pub const DRM_MOD_LINEAR: u64 = 0;

/// The "implicit layout" modifier.
pub const DRM_MOD_INVALID: u64 = 0x00ff_ffff_ffff_ffff;

/// The compositor lists exactly this format and modifier pair.
pub open spec fn supported_spec(formats: Seq<(u32, u64)>, fourcc: u32, modifier: u64) -> bool {
    exists|i: int| 0 <= i < formats.len() && #[trigger] formats[i] == (fourcc, modifier)
}

/// The compositor lists this format with some modifier.
pub open spec fn usable_spec(formats: Seq<(u32, u64)>, fourcc: u32) -> bool {
    exists|i: int| 0 <= i < formats.len() && (#[trigger] formats[i]).0 == fourcc
}

/// Whether the compositor accepts `fourcc` with exactly `modifier`.
pub fn format_supported(formats: &[(u32, u64)], fourcc: u32, modifier: u64) -> (supported: bool)
    ensures
        supported == supported_spec(formats@, fourcc, modifier),
{
    let mut i: usize = 0;
    while i < formats.len()
        invariant
            i <= formats.len(),
            forall|j: int| 0 <= j < i ==> formats@[j] != (fourcc, modifier),
        decreases formats.len() - i,
    {
        let (format, candidate) = formats[i];
        if format == fourcc && candidate == modifier {
            assert(formats@[i as int] == (fourcc, modifier));
            return true;
        }
        i = i + 1;
    }
    false
}

/// Whether the compositor accepts `fourcc` with any modifier.
pub fn format_usable(formats: &[(u32, u64)], fourcc: u32) -> (usable: bool)
    ensures
        usable == usable_spec(formats@, fourcc),
{
    let mut i: usize = 0;
    while i < formats.len()
        invariant
            i <= formats.len(),
            forall|j: int| 0 <= j < i ==> formats@[j].0 != fourcc,
        decreases formats.len() - i,
    {
        if formats[i].0 == fourcc {
            assert(formats@[i as int].0 == fourcc);
            return true;
        }
        i = i + 1;
    }
    false
}

/// The modifier to allocate with: linear when listed, else the implicit
/// modifier when listed, else linear.
pub fn preferred_modifier(formats: &[(u32, u64)], fourcc: u32) -> (modifier: u64)
    ensures
        modifier == if supported_spec(formats@, fourcc, DRM_MOD_LINEAR) {
            DRM_MOD_LINEAR
        } else if supported_spec(formats@, fourcc, DRM_MOD_INVALID) {
            DRM_MOD_INVALID
        } else {
            DRM_MOD_LINEAR
        },
{
    if format_supported(formats, fourcc, DRM_MOD_LINEAR) {
        DRM_MOD_LINEAR
    } else if format_supported(formats, fourcc, DRM_MOD_INVALID) {
        DRM_MOD_INVALID
    } else {
        DRM_MOD_LINEAR
    }
}

/// The explicit tiled modifiers listed for `fourcc`, each once, in the order
/// of their first listing.
pub open spec fn tiled_spec(formats: Seq<(u32, u64)>, fourcc: u32) -> Seq<u64>
    decreases formats.len(),
{
    if formats.len() == 0 {
        Seq::empty()
    } else {
        let earlier = tiled_spec(formats.drop_last(), fourcc);
        let (format, modifier) = formats.last();
        if format == fourcc && modifier != DRM_MOD_LINEAR && modifier != DRM_MOD_INVALID
            && !earlier.contains(modifier) {
            earlier.push(modifier)
        } else {
            earlier
        }
    }
}

fn contains_u64(values: &Vec<u64>, value: u64) -> (found: bool)
    ensures
        found == values@.contains(value),
{
    let mut i: usize = 0;
    while i < values.len()
        invariant
            i <= values.len(),
            forall|j: int| 0 <= j < i ==> values@[j] != value,
        decreases values.len() - i,
    {
        if values[i] == value {
            assert(values@[i as int] == value);
            return true;
        }
        i = i + 1;
    }
    false
}

/// The explicit tiled modifiers the compositor lists for `fourcc`.
pub fn preferred_tiled_modifiers(formats: &[(u32, u64)], fourcc: u32) -> (modifiers: Vec<u64>)
    ensures
        modifiers@ == tiled_spec(formats@, fourcc),
{
    let mut modifiers: Vec<u64> = Vec::new();
    let mut i: usize = 0;
    while i < formats.len()
        invariant
            i <= formats.len(),
            modifiers@ == tiled_spec(formats@.subrange(0, i as int), fourcc),
        decreases formats.len() - i,
    {
        let (format, modifier) = formats[i];
        proof {
            assert(formats@.subrange(0, i + 1).drop_last() =~= formats@.subrange(0, i as int));
        }
        if format == fourcc && modifier != DRM_MOD_LINEAR && modifier != DRM_MOD_INVALID
            && !contains_u64(&modifiers, modifier) {
            modifiers.push(modifier);
        }
        i = i + 1;
    }
    assert(formats@.subrange(0, formats@.len() as int) =~= formats@);
    modifiers
}

/// The modifiers an XR24 export may use: the tiled ones unless linear is
/// forced, and the first of linear and implicit that is listed.
pub fn xr24_export_modifiers(formats: &[(u32, u64)], force_linear: bool) -> (choice: (
    Vec<u64>,
    Option<u64>,
))
    ensures
        choice.0@ == if force_linear {
            Seq::<u64>::empty()
        } else {
            tiled_spec(formats@, FOURCC_XR24)
        },
        choice.1 == if supported_spec(formats@, FOURCC_XR24, DRM_MOD_LINEAR) {
            Some(DRM_MOD_LINEAR)
        } else if supported_spec(formats@, FOURCC_XR24, DRM_MOD_INVALID) {
            Some(DRM_MOD_INVALID)
        } else {
            None::<u64>
        },
{
    let tiled = if force_linear {
        Vec::new()
    } else {
        preferred_tiled_modifiers(formats, FOURCC_XR24)
    };
    let linear = if format_supported(formats, FOURCC_XR24, DRM_MOD_LINEAR) {
        Some(DRM_MOD_LINEAR)
    } else if format_supported(formats, FOURCC_XR24, DRM_MOD_INVALID) {
        Some(DRM_MOD_INVALID)
    } else {
        None
    };
    (tiled, linear)
}

/// The tiled modifiers offered for `fourcc` are exactly the explicit ones
/// (neither linear nor implicit) that the compositor lists with it, each
/// once; and the first of them is the first such listing.
pub proof fn lemma_tiled_modifiers_are_the_listed_ones(formats: Seq<(u32, u64)>, fourcc: u32)
    ensures
        forall|m: u64|
            #![trigger tiled_spec(formats, fourcc).contains(m)]
            #![trigger supported_spec(formats, fourcc, m)]
            tiled_spec(formats, fourcc).contains(m) <==> (m != DRM_MOD_LINEAR && m != DRM_MOD_INVALID
                && supported_spec(formats, fourcc, m)),
        tiled_spec(formats, fourcc).no_duplicates(),
    decreases formats.len(),
{
    if formats.len() > 0 {
        let rest = formats.drop_last();
        lemma_tiled_modifiers_are_the_listed_ones(rest, fourcc);
        assert forall|m: u64| supported_spec(formats, fourcc, m) <==> (supported_spec(
            rest,
            fourcc,
            m,
        ) || formats.last() == (fourcc, m)) by {
            if supported_spec(formats, fourcc, m) {
                let i = choose|i: int| 0 <= i < formats.len() && #[trigger] formats[i] == (fourcc, m);
                if i < formats.len() - 1 {
                    assert(rest[i] == formats[i]);
                }
            }
            if supported_spec(rest, fourcc, m) {
                let i = choose|i: int| 0 <= i < rest.len() && #[trigger] rest[i] == (fourcc, m);
                assert(formats[i] == rest[i]);
            }
            if formats.last() == (fourcc, m) {
                assert(formats[formats.len() - 1] == (fourcc, m));
            }
        }
        let earlier = tiled_spec(rest, fourcc);
        let t = tiled_spec(formats, fourcc);
        let (format, md) = formats.last();
        if t != earlier {
            assert(t == earlier.push(md));
            assert forall|m: u64| t.contains(m) <==> (earlier.contains(m) || m == md) by {
                if t.contains(m) {
                    let k = choose|k: int| 0 <= k < t.len() && t[k] == m;
                    if k < earlier.len() {
                        assert(earlier[k] == m);
                    }
                }
                if earlier.contains(m) {
                    let k = choose|k: int| 0 <= k < earlier.len() && earlier[k] == m;
                    assert(t[k] == m);
                }
                if m == md {
                    assert(t[earlier.len() as int] == m);
                }
            }
        }
        assert forall|m: u64| t.contains(m) <==> (m != DRM_MOD_LINEAR && m != DRM_MOD_INVALID
            && supported_spec(formats, fourcc, m)) by {
            assert(earlier.contains(m) <==> (m != DRM_MOD_LINEAR && m != DRM_MOD_INVALID
                && supported_spec(rest, fourcc, m)));
            assert(supported_spec(formats, fourcc, m) <==> (supported_spec(rest, fourcc, m)
                || formats.last() == (fourcc, m)));
        }
    }
}

/// An XR24 export falls back to linear when the compositor lists linear XR24,
/// else to the implicit layout when listed; with linear forced no tiled
/// modifier is offered, and otherwise every explicit XR24 modifier listed is.
pub proof fn lemma_xr24_choice(formats: Seq<(u32, u64)>)
    ensures
        forall|m: u64|
            tiled_spec(formats, FOURCC_XR24).contains(m) ==> supported_spec(formats, FOURCC_XR24, m)
                && m != DRM_MOD_LINEAR && m != DRM_MOD_INVALID,
{
    lemma_tiled_modifiers_are_the_listed_ones(formats, FOURCC_XR24);
}

} // verus!
