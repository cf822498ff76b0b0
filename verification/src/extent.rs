use vstd::prelude::*;

verus! {

/// Width and height of a render target.
pub type Dims = (u32, u32);

/// Pixel area of an extent.
pub open spec fn area(d: Dims) -> int {
    d.0 * d.1
}

/// Two extents have the same aspect ratio within half a percent: the cross
/// products differ by at most 1/200 of the larger one. Zero sides never match.
pub open spec fn aspect_match_spec(a: Dims, b: Dims) -> bool {
    if a.0 == 0 || a.1 == 0 || b.0 == 0 || b.1 == 0 {
        false
    } else {
        let lhs = a.0 * b.1;
        let rhs = b.0 * a.1;
        let diff = if lhs >= rhs {
            lhs - rhs
        } else {
            rhs - lhs
        };
        let larger = if lhs >= rhs {
            lhs
        } else {
            rhs
        };
        diff * 200 <= larger
    }
}

/// Whether two extents have the same aspect ratio within half a percent.
pub fn aspect_ratio_matches(a: Dims, b: Dims) -> (same: bool)
    ensures
        same == aspect_match_spec(a, b),
{
    if a.0 == 0 || a.1 == 0 || b.0 == 0 || b.1 == 0 {
        return false;
    }
    proof {
        crate::frame::lemma_u32_product_fits(a.0, b.1);
        crate::frame::lemma_u32_product_fits(b.0, a.1);
    }
    let lhs = (a.0 as u128) * (b.1 as u128);
    let rhs = (b.0 as u128) * (a.1 as u128);
    let diff = if lhs >= rhs {
        lhs - rhs
    } else {
        rhs - lhs
    };
    let larger = if lhs >= rhs {
        lhs
    } else {
        rhs
    };
    diff * 200 <= larger
}

/// Every extent matches the aspect ratio of the source; never without a source.
pub open spec fn matching_spec(dims: Seq<Dims>, source: Option<Dims>) -> bool {
    match source {
        None => false,
        Some(s) => forall|i: int| 0 <= i < dims.len() ==> aspect_match_spec(s, #[trigger] dims[i]),
    }
}

/// Whether every extent matches the aspect ratio of the source.
pub fn matching_aspect_ratios(dims: &[Dims], source: Option<Dims>) -> (all: bool)
    ensures
        all == matching_spec(dims@, source),
{
    let reference = match source {
        None => return false,
        Some(s) => s,
    };
    let mut i: usize = 0;
    while i < dims.len()
        invariant
            i <= dims.len(),
            source == Some(reference),
            forall|j: int| 0 <= j < i ==> aspect_match_spec(reference, #[trigger] dims@[j]),
        decreases dims.len() - i,
    {
        if !aspect_ratio_matches(reference, dims[i]) {
            assert(!aspect_match_spec(reference, dims@[i as int]));
            return false;
        }
        i = i + 1;
    }
    true
}

/// `k` is the last index of an extent of largest area, as `max_by_key` picks it.
pub open spec fn is_last_largest(dims: Seq<Dims>, k: int) -> bool {
    &&& 0 <= k < dims.len()
    &&& forall|j: int| 0 <= j < dims.len() ==> area(#[trigger] dims[j]) <= area(dims[k])
    &&& forall|j: int| k < j < dims.len() ==> area(#[trigger] dims[j]) < area(dims[k])
}

/// The extent of largest area, the last one on ties.
pub open spec fn largest_spec(dims: Seq<Dims>) -> Dims {
    dims[choose|k: int| is_last_largest(dims, k)]
}

proof fn lemma_last_largest_unique(dims: Seq<Dims>, k: int)
    requires
        is_last_largest(dims, k),
    ensures
        largest_spec(dims) == dims[k],
{
    let c = choose|c: int| is_last_largest(dims, c);
    if c < k {
        assert(area(dims[k]) < area(dims[c]));
    } else if c > k {
        assert(area(dims[c]) < area(dims[k]));
    }
}

/// The extent of largest area, the last one on ties.
pub fn largest_extent(dims: &[Dims]) -> (largest: Dims)
    requires
        dims.len() > 0,
    ensures
        largest == largest_spec(dims@),
{
    let mut best: usize = 0;
    proof {
        crate::frame::lemma_u32_product_fits(dims[0].0, dims[0].1);
    }
    let mut best_area: u64 = (dims[0].0 as u64) * (dims[0].1 as u64);
    let mut i: usize = 1;
    while i < dims.len()
        invariant
            1 <= i <= dims.len(),
            best < i,
            best_area == area(dims@[best as int]),
            forall|j: int| 0 <= j < i ==> area(#[trigger] dims@[j]) <= area(dims@[best as int]),
            forall|j: int| best < j < i ==> area(#[trigger] dims@[j]) < area(dims@[best as int]),
        decreases dims.len() - i,
    {
        proof {
            crate::frame::lemma_u32_product_fits(dims[i as int].0, dims[i as int].1);
        }
        let a = (dims[i].0 as u64) * (dims[i].1 as u64);
        if a >= best_area {
            best = i;
            best_area = a;
        }
        i = i + 1;
    }
    proof {
        lemma_last_largest_unique(dims@, best as int);
    }
    dims[best]
}

/// The extent to render every output at, if one extent is shared: `source`
/// and `max` force the source or the largest output; automatic reuse, when
/// allowed and every output matches the source's aspect, takes the source if
/// it is no larger than the largest output, else the largest output.
pub open spec fn shared_extent_spec(
    dims: Seq<Dims>,
    source: Option<Dims>,
    mode: Option<Seq<char>>,
    automatic: bool,
) -> Option<Dims> {
    let largest = largest_spec(dims);
    if mode == Some("source"@) {
        source
    } else if mode == Some("max"@) {
        Some(largest)
    } else if (mode is None || mode == Some("auto"@)) && automatic && matching_spec(dims, source) {
        let s = source->0;
        if area(s) <= area(largest) {
            Some(s)
        } else {
            Some(largest)
        }
    } else {
        None
    }
}

/// The render extents of the outputs: unchanged unless sharing is supported,
/// there are two or more outputs and a shared extent is chosen, in which case
/// every output renders at that extent.
pub open spec fn render_dims_spec(
    dims: Seq<Dims>,
    source: Option<Dims>,
    mode: Option<Seq<char>>,
    supported: bool,
    automatic: bool,
) -> Seq<Dims> {
    if !supported || dims.len() < 2 {
        dims
    } else {
        match shared_extent_spec(dims, source, mode, automatic) {
            None => dims,
            Some(e) => Seq::new(dims.len(), |i: int| e),
        }
    }
}

fn repeat_dims(extent: Dims, count: usize) -> (v: Vec<Dims>)
    ensures
        v@ == Seq::new(count as nat, |i: int| extent),
{
    let mut v: Vec<Dims> = Vec::new();
    let mut i: usize = 0;
    while i < count
        invariant
            i <= count,
            v@ == Seq::new(i as nat, |j: int| extent),
        decreases count - i,
    {
        v.push(extent);
        i = i + 1;
        assert(v@ =~= Seq::new(i as nat, |j: int| extent));
    }
    v
}

fn copy_dims(dims: &[Dims]) -> (v: Vec<Dims>)
    ensures
        v@ == dims@,
{
    let mut v: Vec<Dims> = Vec::new();
    let mut i: usize = 0;
    while i < dims.len()
        invariant
            i <= dims.len(),
            v@ == dims@.subrange(0, i as int),
        decreases dims.len() - i,
    {
        v.push(dims[i]);
        i = i + 1;
        assert(v@ =~= dims@.subrange(0, i as int));
    }
    assert(dims@.subrange(0, dims@.len() as int) =~= dims@);
    v
}

fn mode_is(mode: Option<&str>, name: &str) -> (same: bool)
    ensures
        same == (match mode {
            Some(m) => m@ == name@,
            None => false,
        }),
{
    match mode {
        Some(m) => crate::text::str_eq(m, name),
        None => false,
    }
}

/// The render extent of each output of a shared-device presentation.
pub fn shared_render_dims(
    dims: &[Dims],
    source: Option<Dims>,
    mode: Option<&str>,
    supported: bool,
    automatic: bool,
) -> (render: Vec<Dims>)
    ensures
        render@ == render_dims_spec(
            dims@,
            source,
            match mode {
                Some(m) => Some(m@),
                None => None,
            },
            supported,
            automatic,
        ),
{
    if !supported || dims.len() < 2 {
        return copy_dims(dims);
    }
    let largest = largest_extent(dims);
    proof {
        reveal_strlit("source");
        reveal_strlit("max");
        reveal_strlit("auto");
    }
    let extent = if mode_is(mode, "source") {
        source
    } else if mode_is(mode, "max") {
        Some(largest)
    } else if (mode.is_none() || mode_is(mode, "auto")) && automatic && matching_aspect_ratios(
        dims,
        source,
    ) {
        let s = match source {
            Some(s) => s,
            None => {
                return copy_dims(dims);
            },
        };
        proof {
            crate::frame::lemma_u32_product_fits(s.0, s.1);
            crate::frame::lemma_u32_product_fits(largest.0, largest.1);
        }
        if (s.0 as u64) * (s.1 as u64) <= (largest.0 as u64) * (largest.1 as u64) {
            Some(s)
        } else {
            Some(largest)
        }
    } else {
        None
    };
    match extent {
        None => copy_dims(dims),
        Some(e) => repeat_dims(e, dims.len()),
    }
}

/// All extents are the same.
pub open spec fn uniform_spec(dims: Seq<Dims>) -> bool {
    forall|i: int| 0 <= i < dims.len() - 1 ==> #[trigger] dims[i] == dims[i + 1]
}

/// The render extent of each output during a transition: automatic reuse only
/// when all outputs have the same extent.
pub fn xr_render_dims(dims: &[Dims], source: Option<Dims>, mode: Option<&str>, supported: bool) -> (render:
    Vec<Dims>)
    ensures
        render@ == render_dims_spec(
            dims@,
            source,
            match mode {
                Some(m) => Some(m@),
                None => None,
            },
            supported,
            uniform_spec(dims@),
        ),
{
    let mut uniform = true;
    let mut i: usize = 1;
    while i < dims.len()
        invariant
            1 <= i,
            i <= dims.len() || dims.len() == 0,
            uniform == forall|j: int| 0 <= j < i - 1 && j < dims.len() - 1 ==> #[trigger] dims@[j]
                == dims@[j + 1],
        decreases dims.len() - i,
    {
        if dims[i - 1].0 != dims[i].0 || dims[i - 1].1 != dims[i].1 {
            uniform = false;
        }
        i = i + 1;
    }
    shared_render_dims(dims, source, mode, supported, uniform)
}

/// The distinct extents in order of first appearance.
pub open spec fn distinct_spec(dims: Seq<Dims>) -> Seq<Dims>
    decreases dims.len(),
{
    if dims.len() == 0 {
        Seq::empty()
    } else {
        let earlier = distinct_spec(dims.drop_last());
        if earlier.contains(dims.last()) {
            earlier
        } else {
            earlier.push(dims.last())
        }
    }
}

fn position_of(values: &Vec<Dims>, value: Dims) -> (found: Option<usize>)
    ensures
        match found {
            Some(i) => i < values.len() && values@[i as int] == value && forall|j: int|
                0 <= j < i ==> values@[j] != value,
            None => !values@.contains(value),
        },
{
    let mut i: usize = 0;
    while i < values.len()
        invariant
            i <= values.len(),
            forall|j: int| 0 <= j < i ==> values@[j] != value,
        decreases values.len() - i,
    {
        if values[i].0 == value.0 && values[i].1 == value.1 {
            return Some(i);
        }
        i = i + 1;
    }
    None
}

/// The distinct extents, first seen first, and for each output the index of
/// its extent among them.
pub fn dedup_dims(dims: &[Dims]) -> (result: (Vec<Dims>, Vec<usize>))
    ensures
        result.0@ == distinct_spec(dims@),
        result.1@.len() == dims@.len(),
        forall|i: int|
            0 <= i < dims@.len() ==> (#[trigger] result.1@[i]) < result.0@.len() && result.0@[
                result.1@[i] as int] == dims@[i],
{
    let mut distinct: Vec<Dims> = Vec::new();
    let mut ridx: Vec<usize> = Vec::new();
    let mut i: usize = 0;
    while i < dims.len()
        invariant
            i <= dims.len(),
            distinct@ == distinct_spec(dims@.subrange(0, i as int)),
            ridx@.len() == i,
            forall|k: int|
                0 <= k < i ==> (#[trigger] ridx@[k]) < distinct@.len() && distinct@[ridx@[k] as int]
                    == dims@[k],
        decreases dims.len() - i,
    {
        let dim = dims[i];
        proof {
            assert(dims@.subrange(0, i + 1).drop_last() =~= dims@.subrange(0, i as int));
        }
        match position_of(&distinct, dim) {
            Some(idx) => {
                ridx.push(idx);
            },
            None => {
                distinct.push(dim);
                ridx.push(distinct.len() - 1);
            },
        }
        i = i + 1;
    }
    assert(dims@.subrange(0, dims@.len() as int) =~= dims@);
    (distinct, ridx)
}

/// Each output gets its own presenter: at the shared scene extent when the
/// composition is shared, else at its own extent.
pub fn scene_presenter_layout(output_dimensions: &[Dims], scene_dimensions: Dims, shared_composition: bool) -> (layout:
    (Vec<Dims>, Vec<usize>))
    ensures
        layout.0@ == if shared_composition {
            Seq::new(output_dimensions@.len(), |i: int| scene_dimensions)
        } else {
            output_dimensions@
        },
        layout.1@ == Seq::new(output_dimensions@.len(), |i: int| i as usize),
{
    let dimensions = if shared_composition {
        repeat_dims(scene_dimensions, output_dimensions.len())
    } else {
        copy_dims(output_dimensions)
    };
    let mut indices: Vec<usize> = Vec::new();
    let mut i: usize = 0;
    while i < output_dimensions.len()
        invariant
            i <= output_dimensions.len(),
            indices@ == Seq::new(i as nat, |j: int| j as usize),
        decreases output_dimensions.len() - i,
    {
        indices.push(i);
        i = i + 1;
        assert(indices@ =~= Seq::new(i as nat, |j: int| j as usize));
    }
    (dimensions, indices)
}

/// Aspect matching is symmetric, every extent with nonzero sides matches
/// itself, and an extent matches exactly when its cross products with the
/// other differ by at most half a percent of the larger.
pub proof fn lemma_aspect_match(a: Dims, b: Dims)
    ensures
        aspect_match_spec(a, b) == aspect_match_spec(b, a),
        (a.0 > 0 && a.1 > 0) ==> aspect_match_spec(a, a),
        (a.0 == 0 || a.1 == 0) ==> !aspect_match_spec(a, b),
        aspect_match_spec(a, b) <==> (a.0 > 0 && a.1 > 0 && b.0 > 0 && b.1 > 0 && 200 * (
        a.0 * b.1 - b.0 * a.1) <= (if a.0 * b.1 >= b.0 * a.1 {
            a.0 * b.1
        } else {
            b.0 * a.1
        }) && 200 * (b.0 * a.1 - a.0 * b.1) <= (if a.0 * b.1 >= b.0 * a.1 {
            a.0 * b.1
        } else {
            b.0 * a.1
        })),
{
    assert(a.0 * b.1 == b.1 * a.0 && b.0 * a.1 == a.1 * b.0) by (nonlinear_arith);
}

proof fn lemma_largest_exists(dims: Seq<Dims>)
    requires
        dims.len() > 0,
    ensures
        exists|k: int| is_last_largest(dims, k),
    decreases dims.len(),
{
    if dims.len() == 1 {
        assert(is_last_largest(dims, 0));
    } else {
        let rest = dims.drop_last();
        lemma_largest_exists(rest);
        let k0 = choose|k: int| is_last_largest(rest, k);
        let n = dims.len() - 1;
        assert forall|j: int| 0 <= j < n implies dims[j] == rest[j] by {}
        if area(dims[n]) >= area(dims[k0]) {
            assert(is_last_largest(dims, n));
        } else {
            assert(dims[k0] == rest[k0]);
            assert(is_last_largest(dims, k0));
        }
    }
}

/// The largest extent is one of the extents, no extent has a larger area,
/// and of extents with the largest area the last one is taken.
pub proof fn lemma_largest_extent(dims: Seq<Dims>)
    requires
        dims.len() > 0,
    ensures
        dims.contains(largest_spec(dims)),
        forall|j: int| 0 <= j < dims.len() ==> area(#[trigger] dims[j]) <= area(largest_spec(dims)),
        area(dims.last()) == area(largest_spec(dims)) ==> largest_spec(dims) == dims.last(),
{
    lemma_largest_exists(dims);
    let k = choose|k: int| is_last_largest(dims, k);
    lemma_last_largest_unique(dims, k);
    if area(dims.last()) == area(dims[k]) {
        if k < dims.len() - 1 {
            assert(area(dims[dims.len() - 1]) < area(dims[k]));
        }
    }
}

/// Output extents stay as they are without support for sharing or with one
/// output; with sharing, `max` renders every output at the largest extent
/// and `source` at the source extent.
pub proof fn lemma_render_dims_modes(dims: Seq<Dims>, source: Dims, automatic: bool)
    ensures
        render_dims_spec(dims, Some(source), Some("max"@), false, automatic) == dims,
        dims.len() < 2 ==> render_dims_spec(dims, Some(source), Some("max"@), true, automatic)
            == dims,
        dims.len() >= 2 ==> render_dims_spec(dims, Some(source), Some("max"@), true, automatic)
            == Seq::new(dims.len(), |i: int| largest_spec(dims)),
        dims.len() >= 2 ==> render_dims_spec(dims, Some(source), Some("source"@), true, automatic)
            == Seq::new(dims.len(), |i: int| source),
        dims.len() >= 2 ==> render_dims_spec(dims, None, None, true, automatic) == dims,
{
    reveal_strlit("max");
    reveal_strlit("source");
    assert("max"@ != "source"@) by {
        assert("max"@.len() != "source"@.len());
    }
}

/// The distinct extents hold every extent exactly once and nothing else.
pub proof fn lemma_distinct_extents(dims: Seq<Dims>)
    ensures
        distinct_spec(dims).no_duplicates(),
        forall|d: Dims| #[trigger] distinct_spec(dims).contains(d) <==> dims.contains(d),
    decreases dims.len(),
{
    if dims.len() > 0 {
        let rest = dims.drop_last();
        lemma_distinct_extents(rest);
        let earlier = distinct_spec(rest);
        let t = distinct_spec(dims);
        assert forall|d: Dims| dims.contains(d) <==> (rest.contains(d) || d == dims.last()) by {
            if dims.contains(d) {
                let i = choose|i: int| 0 <= i < dims.len() && dims[i] == d;
                if i < dims.len() - 1 {
                    assert(rest[i] == d);
                }
            }
            if rest.contains(d) {
                let i = choose|i: int| 0 <= i < rest.len() && rest[i] == d;
                assert(dims[i] == d);
            }
            if d == dims.last() {
                assert(dims[dims.len() - 1] == d);
            }
        }
        if t != earlier {
            assert forall|d: Dims| t.contains(d) <==> (earlier.contains(d) || d == dims.last()) by {
                if t.contains(d) {
                    let k = choose|k: int| 0 <= k < t.len() && t[k] == d;
                    if k < earlier.len() {
                        assert(earlier[k] == d);
                    }
                }
                if earlier.contains(d) {
                    let k = choose|k: int| 0 <= k < earlier.len() && earlier[k] == d;
                    assert(t[k] == d);
                }
                if d == dims.last() {
                    assert(t[earlier.len() as int] == d);
                }
            }
        }
        assert forall|d: Dims| #[trigger] t.contains(d) <==> dims.contains(d) by {
            assert(earlier.contains(d) <==> rest.contains(d));
        }
    }
}

} // verus!
