use vstd::prelude::*;

verus! {

/// The export buffers one output may reuse.
#[derive(Debug)]
pub struct OutputBuffers {
    /// The output is gone.
    pub closed: bool,
    /// Indices of buffers the compositor has released, in release order.
    pub free_buffers: Vec<usize>,
}

/// Whether `values` holds `value`.
pub fn contains_index(values: &Vec<usize>, value: usize) -> (found: bool)
    ensures
        found == values@.contains(value),
{
    let mut i: usize = 0;
    while i < values.len()
        invariant
            i <= values.len(),
            forall|j: int| 0 <= j < i ==> values@[j] != value,
        decreases values.len() - i,
    {
        if values[i] == value {
            assert(values@[i as int] == value);
            return true;
        }
        i = i + 1;
    }
    false
}

/// Every open output has every buffer of `start..end` free.
pub open spec fn range_free_spec(outputs: Seq<OutputBuffers>, start: usize, end: usize) -> bool {
    forall|o: int, b: usize|
        0 <= o < outputs.len() && !outputs[o].closed && start <= b < end ==> #[trigger] outputs[
            o].free_buffers@.contains(b)
}

/// Whether every open output has every buffer of `start..end` free.
pub fn buffers_free(outputs: &[OutputBuffers], start: usize, end: usize) -> (free: bool)
    ensures
        free == range_free_spec(outputs@, start, end),
{
    let mut o: usize = 0;
    while o < outputs.len()
        invariant
            o <= outputs.len(),
            forall|p: int, c: usize|
                0 <= p < o && !outputs@[p].closed && start <= c < end ==> #[trigger] outputs@[
                    p].free_buffers@.contains(c),
        decreases outputs.len() - o,
    {
        if !outputs[o].closed {
            let mut b = start;
            while b < end
                invariant
                    o < outputs.len(),
                    start <= b,
                    !outputs@[o as int].closed,
                    forall|c: usize|
                        start <= c < b ==> #[trigger] outputs@[o as int].free_buffers@.contains(c),
                decreases end - b,
            {
                if !contains_index(&outputs[o].free_buffers, b) {
                    assert(!outputs@[o as int].free_buffers@.contains(b));
                    assert(!range_free_spec(outputs@, start, end));
                    return false;
                }
                b = b + 1;
            }
        }
        o = o + 1;
    }
    true
}

/// `s` without the indices of `start..end`, order kept.
pub open spec fn without_range(s: Seq<usize>, start: usize, end: usize) -> Seq<usize>
    decreases s.len(),
{
    if s.len() == 0 {
        s
    } else {
        let rest = without_range(s.drop_last(), start, end);
        if start <= s.last() < end {
            rest
        } else {
            rest.push(s.last())
        }
    }
}

/// `s` with each index of `start..end` it lacks appended, in order.
pub open spec fn with_range(s: Seq<usize>, start: usize, end: nat) -> Seq<usize>
    decreases end,
{
    if end <= start {
        s
    } else {
        let earlier = with_range(s, start, (end - 1) as nat);
        if earlier.contains((end - 1) as usize) {
            earlier
        } else {
            earlier.push((end - 1) as usize)
        }
    }
}

fn retain_outside(values: &Vec<usize>, start: usize, end: usize) -> (kept: Vec<usize>)
    ensures
        kept@ == without_range(values@, start, end),
{
    let mut kept: Vec<usize> = Vec::new();
    let mut i: usize = 0;
    while i < values.len()
        invariant
            i <= values.len(),
            kept@ == without_range(values@.subrange(0, i as int), start, end),
        decreases values.len() - i,
    {
        proof {
            assert(values@.subrange(0, i + 1).drop_last() =~= values@.subrange(0, i as int));
        }
        let b = values[i];
        if !(start <= b && b < end) {
            kept.push(b);
        }
        i = i + 1;
    }
    assert(values@.subrange(0, values@.len() as int) =~= values@);
    kept
}

fn extend_with_range(values: &Vec<usize>, start: usize, end: usize) -> (extended: Vec<usize>)
    ensures
        extended@ == with_range(values@, start, end as nat),
{
    let mut extended: Vec<usize> = Vec::new();
    let mut i: usize = 0;
    while i < values.len()
        invariant
            i <= values.len(),
            extended@ == values@.subrange(0, i as int),
        decreases values.len() - i,
    {
        extended.push(values[i]);
        i = i + 1;
        assert(extended@ =~= values@.subrange(0, i as int));
    }
    assert(values@.subrange(0, values@.len() as int) =~= values@);
    if end <= start {
        return extended;
    }
    let mut b = start;
    while b < end
        invariant
            start <= b <= end,
            extended@ == with_range(values@, start, b as nat),
        decreases end - b,
    {
        if !contains_index(&extended, b) {
            extended.push(b);
        }
        b = b + 1;
    }
    extended
}

/// Takes the buffers of `start..end` out of every output's free list.
pub fn remove_free_buffers(outputs: &mut Vec<OutputBuffers>, start: usize, end: usize)
    ensures
        final(outputs)@.len() == old(outputs)@.len(),
        forall|o: int|
            0 <= o < old(outputs)@.len() ==> (#[trigger] final(outputs)@[o]).closed == old(
                outputs,
            )@[o].closed && final(outputs)@[o].free_buffers@ == without_range(
                old(outputs)@[o].free_buffers@,
                start,
                end,
            ),
{
    let mut updated: Vec<OutputBuffers> = Vec::new();
    let mut o: usize = 0;
    while o < outputs.len()
        invariant
            o <= outputs.len(),
            updated@.len() == o,
            forall|p: int|
                0 <= p < o ==> (#[trigger] updated@[p]).closed == outputs@[p].closed
                    && updated@[p].free_buffers@ == without_range(
                    outputs@[p].free_buffers@,
                    start,
                    end,
                ),
        decreases outputs.len() - o,
    {
        let kept = retain_outside(&outputs[o].free_buffers, start, end);
        updated.push(OutputBuffers { closed: outputs[o].closed, free_buffers: kept });
        o = o + 1;
    }
    *outputs = updated;
}

/// Puts every buffer of `start..end` that an output lacks at the end of its free list.
pub fn add_free_buffers(outputs: &mut Vec<OutputBuffers>, start: usize, end: usize)
    ensures
        final(outputs)@.len() == old(outputs)@.len(),
        forall|o: int|
            0 <= o < old(outputs)@.len() ==> (#[trigger] final(outputs)@[o]).closed == old(
                outputs,
            )@[o].closed && final(outputs)@[o].free_buffers@ == with_range(
                old(outputs)@[o].free_buffers@,
                start,
                end as nat,
            ),
{
    let mut updated: Vec<OutputBuffers> = Vec::new();
    let mut o: usize = 0;
    while o < outputs.len()
        invariant
            o <= outputs.len(),
            updated@.len() == o,
            forall|p: int|
                0 <= p < o ==> (#[trigger] updated@[p]).closed == outputs@[p].closed
                    && updated@[p].free_buffers@ == with_range(
                    outputs@[p].free_buffers@,
                    start,
                    end as nat,
                ),
        decreases outputs.len() - o,
    {
        let extended = extend_with_range(&outputs[o].free_buffers, start, end);
        updated.push(OutputBuffers { closed: outputs[o].closed, free_buffers: extended });
        o = o + 1;
    }
    *outputs = updated;
}

/// Every output has buffer `b` free.
pub open spec fn free_everywhere(free: Seq<Vec<usize>>, b: usize) -> bool {
    forall|o: int| 0 <= o < free.len() ==> (#[trigger] free[o]@).contains(b)
}

/// The lowest buffer index below `count` that every output has free.
pub fn shared_scene_slot(free: &[Vec<usize>], count: usize) -> (slot: Option<usize>)
    ensures
        match slot {
            Some(b) => b < count && free_everywhere(free@, b) && forall|c: usize|
                c < b ==> !#[trigger] free_everywhere(free@, c),
            None => forall|c: usize| c < count ==> !#[trigger] free_everywhere(free@, c),
        },
{
    let mut b: usize = 0;
    while b < count
        invariant
            b <= count,
            forall|c: usize| c < b ==> !#[trigger] free_everywhere(free@, c),
        decreases count - b,
    {
        let mut all = true;
        let mut o: usize = 0;
        while o < free.len()
            invariant
                o <= free.len(),
                all == forall|p: int| 0 <= p < o ==> (#[trigger] free@[p]@).contains(b),
            decreases free.len() - o,
        {
            if !contains_index(&free[o], b) {
                all = false;
            }
            o = o + 1;
        }
        if all {
            return Some(b);
        }
        b = b + 1;
    }
    None
}

/// `0..n`, in order.
pub open spec fn all_buffers(n: usize) -> Seq<usize> {
    Seq::new(n as nat, |i: int| i as usize)
}

/// Marks every buffer `0..n_exports` free on every output.
pub fn init_free_buffers(outputs: &mut Vec<OutputBuffers>, n_exports: usize)
    ensures
        final(outputs)@.len() == old(outputs)@.len(),
        forall|o: int|
            0 <= o < final(outputs)@.len() ==> (#[trigger] final(outputs)@[o]).closed == old(
                outputs,
            )@[o].closed && final(outputs)@[o].free_buffers@ == all_buffers(n_exports),
{
    let ghost start = outputs@;
    let mut o: usize = 0;
    while o < outputs.len()
        invariant
            o <= outputs@.len() == start.len(),
            forall|p: int| o <= p < outputs@.len() ==> #[trigger] outputs@[p] == start[p],
            forall|p: int|
                0 <= p < o ==> (#[trigger] outputs@[p]).closed == start[p].closed
                    && outputs@[p].free_buffers@ == all_buffers(n_exports),
        decreases outputs@.len() - o,
    {
        let mut free: Vec<usize> = Vec::new();
        let mut b: usize = 0;
        while b < n_exports
            invariant
                b <= n_exports,
                free@ == all_buffers(b),
            decreases n_exports - b,
        {
            free.push(b);
            b = b + 1;
            proof {
                assert(free@ =~= all_buffers(b));
            }
        }
        let closed = outputs[o].closed;
        outputs.set(o, OutputBuffers { closed, free_buffers: free });
        o = o + 1;
    }
}

/// Taking a range out of a free list removes exactly the buffers of the
/// range and keeps every other buffer.
pub proof fn lemma_removed_range_is_gone(s: Seq<usize>, start: usize, end: usize)
    ensures
        forall|x: usize|
            #[trigger] without_range(s, start, end).contains(x) <==> (s.contains(x) && !(start
                <= x < end)),
    decreases s.len(),
{
    if s.len() > 0 {
        lemma_removed_range_is_gone(s.drop_last(), start, end);
        let rest = without_range(s.drop_last(), start, end);
        assert forall|x: usize|
            #[trigger] without_range(s, start, end).contains(x) <==> (s.contains(x) && !(start <= x
                < end)) by {
            if s.contains(x) && !(start <= x < end) {
                let i = choose|i: int| 0 <= i < s.len() && s[i] == x;
                if i < s.len() - 1 {
                    assert(s.drop_last()[i] == x);
                    assert(rest.contains(x));
                    if !(start <= s.last() < end) {
                        let j = choose|j: int| 0 <= j < rest.len() && rest[j] == x;
                        assert(rest.push(s.last())[j] == x);
                    }
                } else {
                    assert(rest.push(s.last())[rest.len() as int] == x);
                }
            }
            if without_range(s, start, end).contains(x) {
                if rest.contains(x) {
                    let j = choose|j: int| 0 <= j < s.drop_last().len() && s.drop_last()[j] == x;
                    assert(s[j] == x);
                } else {
                    let w = without_range(s, start, end);
                    let j = choose|j: int| 0 <= j < w.len() && w[j] == x;
                    if j < rest.len() {
                        assert(rest[j] == x);
                    }
                    assert(s[s.len() - 1] == x);
                }
            }
        }
    }
}

/// Putting a range back into a free list makes every buffer of the range
/// free and keeps the buffers that were already free, in their order.
pub proof fn lemma_added_range_is_free(s: Seq<usize>, start: usize, end: nat)
    ensures
        forall|b: usize| start <= b < end ==> #[trigger] with_range(s, start, end).contains(b),
        with_range(s, start, end).len() >= s.len(),
        with_range(s, start, end).subrange(0, s.len() as int) == s,
    decreases end,
{
    if end > start {
        lemma_added_range_is_free(s, start, (end - 1) as nat);
        let earlier = with_range(s, start, (end - 1) as nat);
        let last = (end - 1) as usize;
        if !earlier.contains(last) {
            assert(earlier.push(last)[earlier.len() as int] == last);
            assert forall|b: usize| start <= b < end implies #[trigger] with_range(s, start, end).contains(b) by {
                if b < end - 1 {
                    assert(with_range(s, start, (end - 1) as nat).contains(b));
                    let j = choose|j: int| 0 <= j < earlier.len() && earlier[j] == b;
                    assert(earlier.push(last)[j] == b);
                }
            }
            assert(earlier.push(last).subrange(0, s.len() as int) =~= earlier.subrange(0, s.len() as int));
        }
    }
}

/// Putting a range back adds nothing but buffers of the range, and adds none
/// twice: a free list without repeats stays without repeats.
pub proof fn lemma_added_range_adds_only_the_range(s: Seq<usize>, start: usize, end: nat)
    requires
        end <= usize::MAX,
    ensures
        forall|x: usize|
            #[trigger] with_range(s, start, end).contains(x) ==> s.contains(x) || (start <= x < end),
        s.no_duplicates() ==> with_range(s, start, end).no_duplicates(),
    decreases end,
{
    if end > start {
        lemma_added_range_adds_only_the_range(s, start, (end - 1) as nat);
        let earlier = with_range(s, start, (end - 1) as nat);
        let last = (end - 1) as usize;
        if !earlier.contains(last) {
            let t = earlier.push(last);
            assert forall|x: usize| #[trigger] t.contains(x) implies s.contains(x) || (start <= x
                < end) by {
                let j = choose|j: int| 0 <= j < t.len() && t[j] == x;
                if j < earlier.len() {
                    assert(earlier[j] == x);
                    assert(earlier.contains(x));
                } else {
                    assert(x == last);
                }
            }
            if s.no_duplicates() {
                assert forall|i: int, j: int| 0 <= i < t.len() && 0 <= j < t.len() && i != j implies t[i]
                    != t[j] by {
                    if i == earlier.len() as int && j < earlier.len() {
                        assert(earlier[j] == t[j]);
                    } else if j == earlier.len() as int && i < earlier.len() {
                        assert(earlier[i] == t[i]);
                    }
                }
            }
        }
    }
}

} // verus!
