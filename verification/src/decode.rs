use vstd::prelude::*;

verus! {

/// Consecutive packet errors a decoder tolerates before giving up.
pub const CONSECUTIVE_PACKET_ERROR_LIMIT: usize = 16;

/// Passes over a container that yield no frame before giving up.
pub const EMPTY_CONTAINER_WRAP_LIMIT: usize = 2;

/// Counts one more packet error; the count reaching the limit is fatal.
pub fn packet_error_is_fatal(consecutive_errors: &mut usize) -> (fatal: bool)
    requires
        *old(consecutive_errors) < usize::MAX,
    ensures
        *final(consecutive_errors) == *old(consecutive_errors) + 1,
        fatal == (*final(consecutive_errors) >= CONSECUTIVE_PACKET_ERROR_LIMIT),
{
    *consecutive_errors = *consecutive_errors + 1;
    *consecutive_errors >= CONSECUTIVE_PACKET_ERROR_LIMIT
}

/// Counts one more empty pass over the container; the count reaching the limit is fatal.
pub fn container_wrap_is_fatal(wraps: &mut usize) -> (fatal: bool)
    requires
        *old(wraps) < usize::MAX,
    ensures
        *final(wraps) == *old(wraps) + 1,
        fatal == (*final(wraps) >= EMPTY_CONTAINER_WRAP_LIMIT),
{
    *wraps = *wraps + 1;
    *wraps >= EMPTY_CONTAINER_WRAP_LIMIT
}

/// VAAPI decodes only frames with even sides.
pub fn vaapi_dimensions_supported(width: u32, height: u32) -> (supported: bool)
    ensures
        supported == (width % 2 == 0 && height % 2 == 0),
{
    width % 2 == 0 && height % 2 == 0
}

/// The software decoder's default thread count: the available parallelism
/// (2 when unknown) clamped to 2..=4, or 2..=8 above 2.1 megapixels.
pub open spec fn sw_threads_spec(width: u32, height: u32, available: Option<usize>) -> i32 {
    let cap: i32 = if width * height > 2100000 {
        8
    } else {
        4
    };
    let n: i32 = match available {
        Some(c) => c as i32,
        None => 2,
    };
    if n < 2 {
        2
    } else if n > cap {
        cap
    } else {
        n
    }
}

/// The thread count a software decoder uses: -1 asks for one thread up to
/// 1366x768 and two above, a positive request is kept, anything else takes
/// the default.
pub open spec fn threads_spec(requested: i32, width: u32, height: u32, available: Option<usize>) -> i32 {
    if requested == -1 {
        if width * height <= 1366 * 768 {
            1
        } else {
            2
        }
    } else if requested > 0 {
        requested
    } else {
        sw_threads_spec(width, height, available)
    }
}

/// The software decoder's default thread count for this machine's available parallelism.
pub fn sw_thread_count(width: u32, height: u32, available: Option<usize>) -> (threads: i32)
    ensures
        threads == sw_threads_spec(width, height, available),
{
    proof {
        crate::frame::lemma_u32_product_fits(width, height);
    }
    let cap: i32 = if (width as u64) * (height as u64) > 2100000 {
        8
    } else {
        4
    };
    let n: i32 = match available {
        Some(c) => c as i32,
        None => 2,
    };
    if n < 2 {
        2
    } else if n > cap {
        cap
    } else {
        n
    }
}

/// The thread count a software decoder uses.
pub fn resolved_thread_count(requested: i32, width: u32, height: u32, available: Option<usize>) -> (threads:
    i32)
    ensures
        threads == threads_spec(requested, width, height, available),
{
    proof {
        crate::frame::lemma_u32_product_fits(width, height);
    }
    if requested == -1 {
        if (width as u64) * (height as u64) <= 1366 * 768 {
            1
        } else {
            2
        }
    } else if requested > 0 {
        requested
    } else {
        sw_thread_count(width, height, available)
    }
}

/// Decoding goes to software when forced by the caller, forced by the
/// decode override `sw`, or when the source is not a video path.
pub fn decoder_requires_software(force_software: bool, decode_override: Option<&str>, video_path: bool) -> (software:
    bool)
    ensures
        software == (force_software || (decode_override matches Some(v) && v@ == "sw"@)
            || !video_path),
{
    proof {
        reveal_strlit("sw");
    }
    let forced = match decode_override {
        Some(v) => crate::text::str_eq(v, "sw"),
        None => false,
    };
    force_software || forced || !video_path
}

/// Reads the queue-sync status of a Vulkan device configuration: 1 is
/// unsynchronised, 2 is synchronised, anything else failed.
pub fn queue_sync_from_status(status: i32) -> (sync: Option<bool>)
    ensures
        sync == if status == 1 {
            Some(false)
        } else if status == 2 {
            Some(true)
        } else {
            None::<bool>
        },
{
    match status {
        1 => Some(false),
        2 => Some(true),
        _ => None,
    }
}

/// The default thread count is at least 2 and at most 4 (8 above 2.1
/// megapixels), is the available parallelism when that is in range, and is
/// 2 when the parallelism is unknown.
pub proof fn lemma_default_threads_bounded(width: u32, height: u32, available: Option<usize>)
    ensures
        2 <= sw_threads_spec(width, height, available) <= 8,
        width * height <= 2100000 ==> sw_threads_spec(width, height, available) <= 4,
        available is None ==> sw_threads_spec(width, height, available) == 2,
        (available matches Some(c) && 2 <= c <= 4) ==> sw_threads_spec(width, height, available)
            == available->0,
        (available matches Some(c) && 8 < c <= i32::MAX) ==> sw_threads_spec(width, height, available) == (
        if width * height > 2100000 {
            8i32
        } else {
            4i32
        }),
{
}

/// A positive request is kept as it is; -1 asks for one thread up to
/// 1366x768 pixels and two above; zero or another negative request takes
/// the default count.
pub proof fn lemma_requested_threads(requested: i32, width: u32, height: u32, available: Option<usize>)
    ensures
        requested > 0 ==> threads_spec(requested, width, height, available) == requested,
        requested == -1 ==> threads_spec(requested, width, height, available) == (if width * height
            <= 1049088 {
            1i32
        } else {
            2i32
        }),
        (requested == 0 || requested < -1) ==> threads_spec(requested, width, height, available)
            == sw_threads_spec(width, height, available),
        threads_spec(requested, width, height, available) >= 1,
{
}

} // verus!
