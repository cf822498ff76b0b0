use crate::text::append_decimal;
use vstd::prelude::*;

verus! {

/// The length of a scene-to-scene swap: none for a zero duration, else the
/// requested duration clamped to 80..=4000 milliseconds.
pub fn scene_swap_duration(duration_ms: u64) -> (duration: Option<u64>)
    ensures
        duration == if duration_ms == 0 {
            None::<u64>
        } else if duration_ms < 80 {
            Some(80u64)
        } else if duration_ms > 4000 {
            Some(4000u64)
        } else {
            Some(duration_ms)
        },
{
    if duration_ms == 0 {
        None
    } else if duration_ms < 80 {
        Some(80)
    } else if duration_ms > 4000 {
        Some(4000)
    } else {
        Some(duration_ms)
    }
}

/// The image class of an effect render target: targets of one class can
/// share memory.
#[derive(Clone, Copy, Debug, PartialEq, Eq, Structural)]
pub struct FxTargetClass {
    pub width: u32,
    pub height: u32,
    pub repeat: bool,
}

/// Which physical scratch target each layer's targets use.
#[derive(Clone, Debug)]
pub struct ScratchLayout {
    /// For each layer, the physical slot of each of its targets.
    pub assignments: Vec<Vec<usize>>,
    /// The class of each physical slot.
    pub physical_classes: Vec<FxTargetClass>,
}

/// Positions of `c` in `s`, in increasing order.
pub open spec fn occurrences(s: Seq<FxTargetClass>, c: FxTargetClass) -> Seq<int>
    decreases s.len(),
{
    if s.len() == 0 {
        Seq::empty()
    } else {
        let earlier = occurrences(s.drop_last(), c);
        if s.last() == c {
            earlier.push(s.len() - 1)
        } else {
            earlier
        }
    }
}

/// How often `c` occurs in `s`.
pub open spec fn count_of(s: Seq<FxTargetClass>, c: FxTargetClass) -> nat {
    occurrences(s, c).len()
}

/// The slots after assigning the first `i` targets of a layer, and their
/// assignments: the `k`-th target of a class in the layer takes the `k`-th
/// slot of that class, and a new slot is added when there is none.
pub open spec fn layer_spec(phys: Seq<FxTargetClass>, layer: Seq<FxTargetClass>, i: nat) -> (
    Seq<FxTargetClass>,
    Seq<usize>,
)
    decreases i,
{
    if i == 0 {
        (phys, Seq::empty())
    } else {
        let (p, a) = layer_spec(phys, layer, (i - 1) as nat);
        let c = layer[i - 1];
        let k = count_of(layer.subrange(0, i - 1), c);
        let slots = occurrences(p, c);
        if k < slots.len() {
            (p, a.push(slots[k as int] as usize))
        } else {
            (p.push(c), a.push(p.len() as usize))
        }
    }
}

/// The slots and assignments after planning the first `l` layers.
pub open spec fn plan_spec(layers: Seq<Seq<FxTargetClass>>, l: nat) -> (
    Seq<FxTargetClass>,
    Seq<Seq<usize>>,
)
    decreases l,
{
    if l == 0 {
        (Seq::empty(), Seq::empty())
    } else {
        let (p, a) = plan_spec(layers, (l - 1) as nat);
        let layer = layers[l - 1];
        let (q, b) = layer_spec(p, layer, layer.len());
        (q, a.push(b))
    }
}

proof fn lemma_occurrences_bound(s: Seq<FxTargetClass>, c: FxTargetClass)
    ensures
        forall|k: int|
            0 <= k < occurrences(s, c).len() ==> 0 <= #[trigger] occurrences(s, c)[k] < s.len()
                && s[occurrences(s, c)[k]] == c,
        forall|k: int, m: int|
            0 <= k < m < occurrences(s, c).len() ==> #[trigger] occurrences(s, c)[k]
                < #[trigger] occurrences(s, c)[m],
    decreases s.len(),
{
    if s.len() > 0 {
        let e = occurrences(s.drop_last(), c);
        let o = occurrences(s, c);
        lemma_occurrences_bound(s.drop_last(), c);
        assert forall|k: int| 0 <= k < o.len() implies 0 <= #[trigger] o[k] < s.len() && s[o[k]]
            == c by {
            if k < e.len() {
                assert(o[k] == e[k]);
                assert(s[e[k]] == s.drop_last()[e[k]]);
            }
        }
        assert forall|k: int, m: int| 0 <= k < m < o.len() implies #[trigger] o[k] < #[trigger] o[m] by {
            if m < e.len() {
                assert(o[k] == e[k] && o[m] == e[m]);
            } else {
                assert(o[k] == e[k]);
                assert(e[k] < s.len() - 1);
            }
        }
    }
}

fn count_class(values: &Vec<FxTargetClass>, end: usize, c: FxTargetClass) -> (n: usize)
    requires
        end <= values.len(),
    ensures
        n == count_of(values@.subrange(0, end as int), c),
{
    let mut n: usize = 0;
    let mut i: usize = 0;
    while i < end
        invariant
            i <= end <= values.len(),
            n == count_of(values@.subrange(0, i as int), c),
            n <= i,
        decreases end - i,
    {
        proof {
            assert(values@.subrange(0, i + 1).drop_last() =~= values@.subrange(0, i as int));
        }
        if values[i] == c {
            n = n + 1;
        }
        i = i + 1;
    }
    n
}

fn nth_slot(phys: &Vec<FxTargetClass>, c: FxTargetClass, k: usize) -> (slot: Option<usize>)
    ensures
        match slot {
            Some(j) => k < occurrences(phys@, c).len() && j == occurrences(phys@, c)[k as int],
            None => k >= occurrences(phys@, c).len(),
        },
{
    let mut seen: usize = 0;
    let mut i: usize = 0;
    while i < phys.len()
        invariant
            i <= phys.len(),
            seen == occurrences(phys@.subrange(0, i as int), c).len(),
            seen <= k,
            occurrences(phys@.subrange(0, i as int), c) == occurrences(phys@, c).subrange(
                0,
                seen as int,
            ),
        decreases phys.len() - i,
    {
        proof {
            assert(phys@.subrange(0, i + 1).drop_last() =~= phys@.subrange(0, i as int));
            lemma_occurrences_prefix(phys@, c, i + 1);
        }
        if phys[i] == c {
            if seen == k {
                proof {
                    lemma_occurrences_prefix(phys@, c, i + 1);
                    let pre = phys@.subrange(0, i + 1);
                    assert(pre.last() == c);
                    assert(occurrences(pre, c) == occurrences(phys@.subrange(0, i as int), c).push(
                        i as int,
                    ));
                    assert(occurrences(pre, c)[seen as int] == i);
                }
                return Some(i);
            }
            seen = seen + 1;
        }
        i = i + 1;
    }
    proof {
        assert(phys@.subrange(0, phys@.len() as int) =~= phys@);
    }
    None
}

/// The occurrences in a prefix are a prefix of the occurrences.
proof fn lemma_occurrences_prefix(s: Seq<FxTargetClass>, c: FxTargetClass, n: int)
    requires
        0 <= n <= s.len(),
    ensures
        occurrences(s.subrange(0, n), c).len() <= occurrences(s, c).len(),
        occurrences(s.subrange(0, n), c) == occurrences(s, c).subrange(
            0,
            occurrences(s.subrange(0, n), c).len() as int,
        ),
    decreases s.len() - n,
{
    if n == s.len() {
        assert(s.subrange(0, n) =~= s);
    } else {
        lemma_occurrences_prefix(s, c, n + 1);
        assert(s.subrange(0, n + 1).drop_last() =~= s.subrange(0, n));
    }
}

/// Plans scratch memory for effect targets: targets in one layer never share
/// a slot, while later layers reuse the slots of earlier ones when the class
/// matches.
pub fn plan_scratch_layout(layers: &[Vec<FxTargetClass>]) -> (layout: ScratchLayout)
    ensures
        (layout.physical_classes@, layout.assignments@.map_values(|a: Vec<usize>| a@))
            == plan_spec(layers@.map_values(|l: Vec<FxTargetClass>| l@), layers@.len()),
{
    let ghost all = layers@.map_values(|l: Vec<FxTargetClass>| l@);
    let mut physical: Vec<FxTargetClass> = Vec::new();
    let mut assignments: Vec<Vec<usize>> = Vec::new();
    let mut l: usize = 0;
    while l < layers.len()
        invariant
            l <= layers.len(),
            all == layers@.map_values(|l: Vec<FxTargetClass>| l@),
            (physical@, assignments@.map_values(|a: Vec<usize>| a@)) == plan_spec(all, l as nat),
        decreases layers.len() - l,
    {
        let layer = &layers[l];
        let ghost start = physical@;
        let mut assigned: Vec<usize> = Vec::new();
        let mut i: usize = 0;
        while i < layer.len()
            invariant
                i <= layer.len(),
                layer@ == all[l as int],
                (physical@, assigned@) == layer_spec(start, layer@, i as nat),
            decreases layer.len() - i,
        {
            let c = layer[i];
            let k = count_class(layer, i, c);
            match nth_slot(&physical, c, k) {
                Some(j) => {
                    assigned.push(j);
                },
                None => {
                    let slot = physical.len();
                    physical.push(c);
                    assigned.push(slot);
                },
            }
            i = i + 1;
        }
        let ghost before = assignments@;
        assignments.push(assigned);
        proof {
            assert(assignments@.map_values(|a: Vec<usize>| a@) =~= before.map_values(
                |a: Vec<usize>| a@,
            ).push(assigned@));
        }
        l = l + 1;
    }
    ScratchLayout { assignments, physical_classes: physical }
}

/// The slot that the `j`-th target of `layer` takes among the slots `phys`:
/// the `k`-th slot of its class, where `k` counts the earlier targets of that
/// class in the layer.
pub open spec fn ordinal(layer: Seq<FxTargetClass>, j: int) -> nat {
    count_of(layer.subrange(0, j), layer[j])
}

/// The `j`-th target of `layer` is assigned its class's `ordinal`-th slot of `phys`.
pub open spec fn assigned_slot(phys: Seq<FxTargetClass>, layer: Seq<FxTargetClass>, a: Seq<usize>, j: int) -> bool {
    &&& ordinal(layer, j) < occurrences(phys, layer[j]).len()
    &&& a[j] == occurrences(phys, layer[j])[ordinal(layer, j) as int]
}

proof fn lemma_occurrences_push(s: Seq<FxTargetClass>, c: FxTargetClass, d: FxTargetClass)
    ensures
        occurrences(s.push(c), d) == if c == d {
            occurrences(s, d).push(s.len() as int)
        } else {
            occurrences(s, d)
        },
{
    assert(s.push(c).drop_last() =~= s);
}

proof fn lemma_count_prefix_step(layer: Seq<FxTargetClass>, i: int, d: FxTargetClass)
    requires
        0 <= i < layer.len(),
    ensures
        count_of(layer.subrange(0, i + 1), d) == count_of(layer.subrange(0, i), d) + if layer[i]
            == d {
            1nat
        } else {
            0nat
        },
{
    assert(layer.subrange(0, i + 1).drop_last() =~= layer.subrange(0, i));
}

/// A prefix's slots keep their positions in every extension.
proof fn lemma_occurrences_of_extension(p: Seq<FxTargetClass>, q: Seq<FxTargetClass>, c: FxTargetClass)
    requires
        p.len() <= q.len(),
        q.subrange(0, p.len() as int) == p,
    ensures
        occurrences(p, c).len() <= occurrences(q, c).len(),
        forall|k: int|
            0 <= k < occurrences(p, c).len() ==> #[trigger] occurrences(q, c)[k] == occurrences(
                p,
                c,
            )[k],
{
    lemma_occurrences_prefix(q, c, p.len() as int);
}

proof fn lemma_layer_assigns(phys: Seq<FxTargetClass>, layer: Seq<FxTargetClass>, i: nat)
    requires
        i <= layer.len(),
        phys.len() + layer.len() <= usize::MAX,
    ensures
        ({
            let (p, a) = layer_spec(phys, layer, i);
            &&& phys.len() <= p.len() <= phys.len() + i
            &&& p.subrange(0, phys.len() as int) == phys
            &&& a.len() == i
            &&& forall|j: int| 0 <= j < i ==> #[trigger] assigned_slot(p, layer, a, j)
            &&& forall|d: FxTargetClass|
                #[trigger] count_of(layer.subrange(0, i as int), d) <= count_of(p, d)
        }),
    decreases i,
{
    if i == 0 {
        assert(phys.subrange(0, phys.len() as int) =~= phys);
        assert forall|d: FxTargetClass| #[trigger] count_of(layer.subrange(0, 0), d) <= count_of(
            phys,
            d,
        ) by {
            assert(layer.subrange(0, 0) =~= Seq::<FxTargetClass>::empty());
        }
    } else {
        lemma_layer_assigns(phys, layer, (i - 1) as nat);
        let (p, a) = layer_spec(phys, layer, (i - 1) as nat);
        let c = layer[i - 1];
        let k = count_of(layer.subrange(0, i - 1), c);
        let slots = occurrences(p, c);
        let (q, b) = layer_spec(phys, layer, i);
        assert(k <= slots.len());
        lemma_occurrences_bound(p, c);
        if k < slots.len() {
            assert(q == p);
            assert(slots[k as int] < p.len());
            assert(b == a.push(slots[k as int] as usize));
        } else {
            assert(q == p.push(c));
            lemma_occurrences_push(p, c, c);
        }
        assert(q.subrange(0, p.len() as int) =~= p);
        assert(q.subrange(0, phys.len() as int) =~= phys);
        assert forall|j: int| 0 <= j < i implies #[trigger] assigned_slot(q, layer, b, j) by {
            if j < i - 1 {
                assert(assigned_slot(p, layer, a, j));
                lemma_occurrences_of_extension(p, q, layer[j]);
                assert(b[j] == a[j]);
            } else {
                assert(layer.subrange(0, j) =~= layer.subrange(0, i - 1));
                lemma_occurrences_bound(p, c);
            }
        }
        assert forall|d: FxTargetClass| #[trigger] count_of(layer.subrange(0, i as int), d)
            <= count_of(q, d) by {
            lemma_count_prefix_step(layer, i - 1, d);
            lemma_occurrences_of_extension(p, q, d);
            if k >= slots.len() {
                lemma_occurrences_push(p, c, d);
            }
        }
    }
}

/// The number of targets in the first `l` layers.
pub open spec fn target_total(layers: Seq<Seq<FxTargetClass>>, l: nat) -> nat
    decreases l,
{
    if l == 0 {
        0
    } else {
        target_total(layers, (l - 1) as nat) + layers[l - 1].len()
    }
}

proof fn lemma_plan_assigns(layers: Seq<Seq<FxTargetClass>>, l: nat)
    requires
        l <= layers.len(),
        target_total(layers, l) <= usize::MAX,
    ensures
        ({
            let (p, a) = plan_spec(layers, l);
            &&& a.len() == l
            &&& p.len() <= target_total(layers, l)
            &&& forall|m: int|
                0 <= m < l ==> (#[trigger] a[m]).len() == layers[m].len() && forall|j: int|
                    0 <= j < layers[m].len() ==> #[trigger] assigned_slot(p, layers[m], a[m], j)
        }),
    decreases l,
{
    if l > 0 {
        lemma_plan_assigns(layers, (l - 1) as nat);
        let (p, a) = plan_spec(layers, (l - 1) as nat);
        let layer = layers[l - 1];
        lemma_layer_assigns(p, layer, layer.len());
        let (q, b) = layer_spec(p, layer, layer.len());
        let (q2, a2) = plan_spec(layers, l);
        assert(q2 == q && a2 == a.push(b));
        assert forall|m: int| 0 <= m < l implies (#[trigger] a2[m]).len() == layers[m].len()
            && forall|j: int| 0 <= j < layers[m].len() ==> #[trigger] assigned_slot(q, layers[m], a2[m], j) by {
            if m < l - 1 {
                assert(a2[m] == a[m]);
                assert forall|j: int| 0 <= j < layers[m].len() implies #[trigger] assigned_slot(
                    q,
                    layers[m],
                    a2[m],
                    j,
                ) by {
                    assert(assigned_slot(p, layers[m], a[m], j));
                    lemma_occurrences_of_extension(p, q, layers[m][j]);
                }
            } else {
                assert(a2[m] == b);
                assert(layer.subrange(0, layer.len() as int) =~= layer);
            }
        }
    }
}

proof fn lemma_ordinal_increases(layer: Seq<FxTargetClass>, j1: int, j2: int)
    requires
        0 <= j1 < j2 < layer.len(),
        layer[j1] == layer[j2],
    ensures
        ordinal(layer, j1) < ordinal(layer, j2),
    decreases j2 - j1,
{
    let c = layer[j1];
    lemma_count_prefix_step(layer, j2 - 1, c);
    if j1 < j2 - 1 {
        lemma_count_monotone(layer, j1 + 1, j2 - 1, c);
        lemma_count_prefix_step(layer, j1, c);
    }
}

proof fn lemma_count_monotone(layer: Seq<FxTargetClass>, i: int, j: int, c: FxTargetClass)
    requires
        0 <= i <= j <= layer.len(),
    ensures
        count_of(layer.subrange(0, i), c) <= count_of(layer.subrange(0, j), c),
    decreases j - i,
{
    if i < j {
        lemma_count_monotone(layer, i, j - 1, c);
        lemma_count_prefix_step(layer, j - 1, c);
    }
}

/// Scratch planning is sound: every target gets a slot of its own class, two
/// targets of one layer never share a slot, and the `k`-th target of a class
/// takes the same slot in every layer, so later layers reuse earlier slots.
pub proof fn lemma_scratch_plan_sound(layers: Seq<Seq<FxTargetClass>>)
    requires
        target_total(layers, layers.len()) <= usize::MAX,
    ensures
        ({
            let (phys, a) = plan_spec(layers, layers.len());
            &&& a.len() == layers.len()
            &&& forall|m: int, j: int|
                0 <= m < layers.len() && 0 <= j < layers[m].len() ==> a[m].len() == layers[m].len()
                    && (#[trigger] a[m][j]) < phys.len() && phys[a[m][j] as int] == layers[m][j]
            &&& forall|m: int, j1: int, j2: int|
                0 <= m < layers.len() && 0 <= j1 < j2 < layers[m].len() ==> #[trigger] a[m][j1]
                    != #[trigger] a[m][j2]
            &&& forall|m1: int, j1: int, m2: int, j2: int|
                0 <= m1 < layers.len() && 0 <= j1 < layers[m1].len() && 0 <= m2 < layers.len() && 0
                    <= j2 < layers[m2].len() && layers[m1][j1] == layers[m2][j2] && ordinal(
                    layers[m1],
                    j1,
                ) == ordinal(layers[m2], j2) ==> #[trigger] a[m1][j1] == #[trigger] a[m2][j2]
        }),
{
    lemma_plan_assigns(layers, layers.len());
    let (phys, a) = plan_spec(layers, layers.len());
    assert forall|m: int, j: int| 0 <= m < layers.len() && 0 <= j < layers[m].len() implies a[m].len()
        == layers[m].len() && (#[trigger] a[m][j]) < phys.len() && phys[a[m][j] as int]
        == layers[m][j] by {
        assert(assigned_slot(phys, layers[m], a[m], j));
        lemma_occurrences_bound(phys, layers[m][j]);
    }
    assert forall|m: int, j1: int, j2: int|
        0 <= m < layers.len() && 0 <= j1 < j2 < layers[m].len() implies #[trigger] a[m][j1]
        != #[trigger] a[m][j2] by {
        let layer = layers[m];
        assert(assigned_slot(phys, layer, a[m], j1));
        assert(assigned_slot(phys, layer, a[m], j2));
        lemma_occurrences_bound(phys, layer[j1]);
        lemma_occurrences_bound(phys, layer[j2]);
        if layer[j1] == layer[j2] {
            lemma_ordinal_increases(layer, j1, j2);
        }
    }
    assert forall|m1: int, j1: int, m2: int, j2: int|
        0 <= m1 < layers.len() && 0 <= j1 < layers[m1].len() && 0 <= m2 < layers.len() && 0 <= j2
            < layers[m2].len() && layers[m1][j1] == layers[m2][j2] && ordinal(layers[m1], j1)
            == ordinal(layers[m2], j2) implies #[trigger] a[m1][j1] == #[trigger] a[m2][j2] by {
        assert(assigned_slot(phys, layers[m1], a[m1], j1));
        assert(assigned_slot(phys, layers[m2], a[m2], j2));
    }
}

impl FxTargetClass {
    /// The class of a render target with the given extent and addressing.
    pub fn of(width: u32, height: u32, repeat: bool) -> (class: FxTargetClass)
        ensures
            class == (FxTargetClass { width, height, repeat }),
    {
        FxTargetClass { width, height, repeat }
    }
}

/// Where an effect layer's render target lives: its own allocation, a shared
/// scratch slot, or nowhere once released.
#[derive(Debug)]
pub enum FxTargetStorage<T> {
    Owned(T),
    Shared(usize),
    Released,
}

impl<T> FxTargetStorage<T> {
    /// The target: the owned one, or the shared slot it points at.
    pub fn get<'a>(&'a self, shared: &'a [T]) -> (target: &'a T)
        requires
            !(self is Released),
            self matches FxTargetStorage::Shared(index) ==> index < shared.len(),
        ensures
            match self {
                FxTargetStorage::Owned(owned) => *target == *owned,
                FxTargetStorage::Shared(index) => *target == shared@[*index as int],
                FxTargetStorage::Released => false,
            },
    {
        match self {
            FxTargetStorage::Owned(target) => target,
            FxTargetStorage::Shared(index) => &shared[*index],
            FxTargetStorage::Released => {
                proof {
                    assert(false);
                }
                &shared[0]
            },
        }
    }

    /// The target when this storage owns it.
    pub fn owned(&self) -> (target: Option<&T>)
        ensures
            match self {
                FxTargetStorage::Owned(owned) => target == Some(owned),
                _ => target is None,
            },
    {
        match self {
            FxTargetStorage::Owned(target) => Some(target),
            _ => None,
        }
    }

    /// Takes an owned target out, leaving the storage released; shared and
    /// released storage stay as they are.
    pub fn take_owned(&mut self) -> (target: Option<T>)
        ensures
            match *old(self) {
                FxTargetStorage::Owned(owned) => target == Some(owned) && *final(self)
                    is Released,
                _ => target is None && *final(self) == *old(self),
            },
    {
        let mut taken = FxTargetStorage::Released;
        std::mem::swap(&mut taken, self);
        match taken {
            FxTargetStorage::Owned(target) => Some(target),
            storage => {
                *self = storage;
                None
            },
        }
    }
}

/// How the bytes of an effect layer's targets divide between the one that
/// outlives the frame and the ones that do not.
#[derive(Clone, Copy, Debug, Default, PartialEq, Eq, Structural)]
pub struct EffectTargetBytes {
    pub retained: u64,
    pub transient: u64,
}

/// The sum of the first `n` values.
pub open spec fn sum_prefix(values: Seq<u64>, n: nat) -> nat
    decreases n,
{
    if n == 0 {
        0
    } else {
        sum_prefix(values, (n - 1) as nat) + values[n - 1] as nat
    }
}

proof fn lemma_sum_prefix_monotone(values: Seq<u64>, i: nat, j: nat)
    requires
        i <= j,
    ensures
        sum_prefix(values, i) <= sum_prefix(values, j),
    decreases j - i,
{
    if i < j {
        lemma_sum_prefix_monotone(values, i, (j - 1) as nat);
    }
}

proof fn lemma_sum_prefix_contains(values: Seq<u64>, k: nat, n: nat)
    requires
        k < n <= values.len(),
    ensures
        values[k as int] <= sum_prefix(values, n),
    decreases n,
{
    if k < n - 1 {
        lemma_sum_prefix_contains(values, k, (n - 1) as nat);
    } else {
        lemma_sum_prefix_monotone(values, 0, (n - 1) as nat);
    }
}

/// Splits the bytes of a layer's target allocations: the output target is
/// retained, the rest is transient. None when the output has no allocation.
pub fn classify_effect_target_bytes(allocations: &[u64], output: usize) -> (bytes: Option<
    EffectTargetBytes,
>)
    requires
        sum_prefix(allocations@, allocations@.len()) <= u64::MAX,
    ensures
        match bytes {
            Some(b) => output < allocations.len() && b.retained == allocations@[output as int]
                && b.transient == sum_prefix(allocations@, allocations@.len())
                - allocations@[output as int],
            None => output >= allocations.len(),
        },
{
    if output >= allocations.len() {
        return None;
    }
    let retained = allocations[output];
    let mut total: u64 = 0;
    let mut i: usize = 0;
    while i < allocations.len()
        invariant
            i <= allocations.len(),
            total == sum_prefix(allocations@, i as nat),
            sum_prefix(allocations@, allocations@.len()) <= u64::MAX,
        decreases allocations.len() - i,
    {
        proof {
            lemma_sum_prefix_monotone(allocations@, (i + 1) as nat, allocations@.len());
        }
        total = total + allocations[i];
        i = i + 1;
    }
    proof {
        lemma_sum_prefix_contains(allocations@, output as nat, allocations@.len());
    }
    Some(EffectTargetBytes { retained, transient: total - retained })
}

/// Why a strict scene startup refuses a scene.
#[derive(Clone, Debug)]
pub enum StartupError {
    /// The loader skipped elements; `details` are the first few of them.
    SkippedElements { count: usize, details: Vec<String> },
    /// An effect pipeline fell back on a layer.
    PipelineFallback { layer: String, reason: String },
}

/// `parts` joined by `"; "`.
pub open spec fn joined(parts: Seq<Seq<char>>) -> Seq<char>
    decreases parts.len(),
{
    if parts.len() == 0 {
        Seq::empty()
    } else if parts.len() == 1 {
        parts[0]
    } else {
        joined(parts.drop_last()) + "; "@ + parts.last()
    }
}

/// The views of the strings.
pub open spec fn string_views(strings: Seq<String>) -> Seq<Seq<char>> {
    strings.map_values(|s: String| s@)
}

impl StartupError {
    /// The error as text.
    pub fn message(&self) -> (text: String)
        ensures
            match self {
                StartupError::SkippedElements { count, details } => text@
                    == "strict native scene startup rejected "@ + crate::text::decimal_text(
                    *count as nat,
                ) + " skipped element(s): "@ + joined(string_views(details@)),
                StartupError::PipelineFallback { layer, reason } => text@
                    == "strict native scene startup rejected effect pipeline on "@ + layer@
                    + ": "@ + reason@,
            },
    {
        match self {
            StartupError::SkippedElements { count, details } => {
                let mut text = String::from_str("strict native scene startup rejected ");
                append_decimal(&mut text, *count as u64);
                text.append(" skipped element(s): ");
                let ghost head = text@;
                let mut i: usize = 0;
                while i < details.len()
                    invariant
                        i <= details.len(),
                        text@ == head + joined(string_views(details@.subrange(0, i as int))),
                    decreases details.len() - i,
                {
                    proof {
                        assert(string_views(details@.subrange(0, i + 1)).drop_last()
                            =~= string_views(details@.subrange(0, i as int)));
                    }
                    if i > 0 {
                        text.append("; ");
                    }
                    text.append(details[i].as_str());
                    proof {
                        let parts = string_views(details@.subrange(0, i + 1));
                        if i == 0 {
                            assert(parts =~= seq![details@[0]@]);
                        }
                        assert(text@ =~= head + joined(parts));
                    }
                    i = i + 1;
                }
                proof {
                    assert(details@.subrange(0, details@.len() as int) =~= details@);
                }
                text
            },
            StartupError::PipelineFallback { layer, reason } => {
                let mut text = String::from_str(
                    "strict native scene startup rejected effect pipeline on ",
                );
                text.append(layer.as_str());
                text.append(": ");
                text.append(reason.as_str());
                text
            },
        }
    }
}

fn clone_string(s: &String) -> (copy: String)
    ensures
        copy@ == s@,
{
    s.clone()
}

/// A strict startup refuses a scene whose loader skipped anything; the error
/// counts the skips and quotes the first four.
pub fn validate_scene_skips(strict: bool, skipped: &[String]) -> (result: Result<(), StartupError>)
    ensures
        result is Ok <==> !strict || skipped.len() == 0,
        result matches Err(StartupError::SkippedElements { count, details }) ==> count
            == skipped.len() && string_views(details@) == string_views(skipped@.take(
            if skipped.len() < 4 {
                skipped.len() as int
            } else {
                4
            },
        )),
        result matches Err(e) ==> e is SkippedElements,
{
    if !strict || skipped.len() == 0 {
        return Ok(());
    }
    let keep: usize = if skipped.len() < 4 {
        skipped.len()
    } else {
        4
    };
    let mut details: Vec<String> = Vec::new();
    let mut i: usize = 0;
    while i < keep
        invariant
            i <= keep <= skipped.len(),
            details@.len() == i,
            string_views(details@) == string_views(skipped@.take(i as int)),
        decreases keep - i,
    {
        let copy = clone_string(&skipped[i]);
        let ghost before = details@;
        details.push(copy);
        proof {
            let next = string_views(skipped@.take((i + 1) as int));
            assert forall|k: int| 0 <= k < i + 1 implies string_views(details@)[k] == next[k] by {
                assert(details@.len() == i + 1);
                assert(string_views(details@)[k] == details@[k]@);
                assert(next[k] == skipped@.take((i + 1) as int)[k]@);
                if k < i {
                    assert(details@[k] == before[k]);
                    assert(string_views(before)[k] == string_views(skipped@.take(i as int))[k]);
                } else {
                    assert(details@[k] == copy);
                }
            }
            assert(string_views(details@) =~= next);
        }
        i = i + 1;
    }
    Err(StartupError::SkippedElements { count: skipped.len(), details })
}

/// A strict startup refuses an effect pipeline that fell back; a best-effort
/// startup accepts it.
pub fn validate_pipeline_skip(strict: bool, layer: &str, reason: &str) -> (result: Result<
    (),
    StartupError,
>)
    ensures
        result is Ok <==> !strict,
        result matches Err(e) ==> e matches StartupError::PipelineFallback { layer: l, reason: r }
            && l@ == layer@ && r@ == reason@,
{
    if strict {
        Err(
            StartupError::PipelineFallback {
                layer: layer.to_string(),
                reason: reason.to_string(),
            },
        )
    } else {
        Ok(())
    }
}

/// A quad of the scene: an image layer's or a particle's, by index.
#[derive(Clone, Copy, Debug, PartialEq, Eq, Structural)]
pub enum QuadRef {
    Image(usize),
    Particle(usize),
}

/// Whether a quad of scene order `order` is drawn: all are without a limit,
/// else those below it.
pub open spec fn below_limit(order: usize, before: Option<usize>) -> bool {
    match before {
        Some(limit) => order < limit,
        None => true,
    }
}

/// How many of the first `n` image quads are drawn.
pub open spec fn drawn_images(image_order: Seq<usize>, n: nat, before: Option<usize>) -> nat
    decreases n,
{
    if n == 0 {
        0
    } else {
        drawn_images(image_order, (n - 1) as nat, before) + if below_limit(
            image_order[n - 1],
            before,
        ) {
            1nat
        } else {
            0nat
        }
    }
}

/// The number of image quads that have a scene order.
pub open spec fn image_span(image_count: usize, image_order: Seq<usize>) -> nat {
    if image_count < image_order.len() {
        image_count as nat
    } else {
        image_order.len()
    }
}

/// Whether the quad is drawn.
pub open spec fn quad_drawn(
    q: QuadRef,
    image_count: usize,
    image_order: Seq<usize>,
    particle_orders: Seq<usize>,
    before: Option<usize>,
) -> bool {
    match q {
        QuadRef::Image(i) => i < image_span(image_count, image_order) && below_limit(
            image_order[i as int],
            before,
        ),
        QuadRef::Particle(j) => j < particle_orders.len() && below_limit(
            particle_orders[j as int],
            before,
        ),
    }
}

/// The sort key of a quad: its scene order, then its serial (an image's
/// index, or a particle's index after the drawn images), then images before
/// particles.
pub open spec fn quad_key(
    q: QuadRef,
    image_count: usize,
    image_order: Seq<usize>,
    particle_orders: Seq<usize>,
    before: Option<usize>,
) -> (int, int, int) {
    match q {
        QuadRef::Image(i) => (image_order[i as int] as int, i as int, 0),
        QuadRef::Particle(j) => (
            particle_orders[j as int] as int,
            drawn_images(image_order, image_span(image_count, image_order), before) + j,
            1,
        ),
    }
}

/// The lexicographic order of keys.
pub open spec fn key_lt(a: (int, int, int), b: (int, int, int)) -> bool {
    a.0 < b.0 || (a.0 == b.0 && (a.1 < b.1 || (a.1 == b.1 && a.2 < b.2)))
}

spec fn key_int(k: (usize, usize, usize)) -> (int, int, int) {
    (k.0 as int, k.1 as int, k.2 as int)
}

spec fn above_last(k: (usize, usize, usize), last: Option<(usize, usize, usize)>) -> bool {
    match last {
        Some(l) => key_lt(key_int(l), key_int(k)),
        None => true,
    }
}

spec fn count_taken(keys: Seq<(usize, usize, usize)>, last: Option<(usize, usize, usize)>, n: nat) -> nat
    decreases n,
{
    if n == 0 {
        0
    } else {
        count_taken(keys, last, (n - 1) as nat) + if above_last(keys[n - 1], last) {
            0nat
        } else {
            1nat
        }
    }
}

proof fn lemma_count_taken_bound(keys: Seq<(usize, usize, usize)>, last: Option<(usize, usize, usize)>, n: nat)
    ensures
        count_taken(keys, last, n) <= n,
    decreases n,
{
    if n > 0 {
        lemma_count_taken_bound(keys, last, (n - 1) as nat);
    }
}

proof fn lemma_count_taken_step(
    keys: Seq<(usize, usize, usize)>,
    old_last: Option<(usize, usize, usize)>,
    new_last: Option<(usize, usize, usize)>,
    b: nat,
    n: nat,
)
    requires
        n <= keys.len(),
        forall|t: int|
            0 <= t < n ==> (!above_last(#[trigger] keys[t], new_last) <==> (!above_last(
                keys[t],
                old_last,
            ) || t == b)),
        b < keys.len(),
        above_last(keys[b as int], old_last),
    ensures
        count_taken(keys, new_last, n) == count_taken(keys, old_last, n) + if b < n {
            1nat
        } else {
            0nat
        },
    decreases n,
{
    if n > 0 {
        lemma_count_taken_step(keys, old_last, new_last, b, (n - 1) as nat);
    }
}

fn key_less(a: (usize, usize, usize), b: (usize, usize, usize)) -> (less: bool)
    ensures
        less == key_lt(key_int(a), key_int(b)),
{
    a.0 < b.0 || (a.0 == b.0 && (a.1 < b.1 || (a.1 == b.1 && a.2 < b.2)))
}

fn is_below(order: usize, before: Option<usize>) -> (drawn: bool)
    ensures
        drawn == below_limit(order, before),
{
    match before {
        Some(limit) => order < limit,
        None => true,
    }
}

/// The drawn quads in drawing order: sorted by scene order, ties kept in
/// their serial order, image quads first when serials tie.
pub fn ordered_scene_quads(
    image_count: usize,
    image_order: &[usize],
    particle_orders: &[usize],
    before: Option<usize>,
) -> (ordered: Vec<QuadRef>)
    requires
        image_order.len() + particle_orders.len() <= usize::MAX,
    ensures
        forall|k: int|
            0 <= k < ordered.len() ==> quad_drawn(
                #[trigger] ordered@[k],
                image_count,
                image_order@,
                particle_orders@,
                before,
            ),
        forall|q: QuadRef|
            quad_drawn(q, image_count, image_order@, particle_orders@, before)
                ==> #[trigger] ordered@.contains(q),
        forall|k1: int, k2: int|
            0 <= k1 < k2 < ordered.len() ==> key_lt(
                quad_key(
                    #[trigger] ordered@[k1],
                    image_count,
                    image_order@,
                    particle_orders@,
                    before,
                ),
                quad_key(#[trigger] ordered@[k2], image_count, image_order@, particle_orders@, before),
            ),
{
    let ghost io = image_order@;
    let ghost po = particle_orders@;
    let n: usize = if image_count < image_order.len() {
        image_count
    } else {
        image_order.len()
    };
    let mut cands: Vec<QuadRef> = Vec::new();
    let mut keys: Vec<(usize, usize, usize)> = Vec::new();
    let mut drawn: usize = 0;
    let mut i: usize = 0;
    while i < n
        invariant
            n == image_span(image_count, io),
            n <= image_order.len(),
            io == image_order@,
            i <= n,
            drawn == drawn_images(io, i as nat, before),
            drawn <= i,
            cands.len() == keys.len(),
            forall|k: int|
                0 <= k < cands.len() ==> quad_drawn(
                    #[trigger] cands@[k],
                    image_count,
                    io,
                    po,
                    before,
                ) && key_int(keys@[k]) == quad_key(cands@[k], image_count, io, po, before)
                    && cands@[k] is Image && keys@[k].1 < i && keys@[k].2 == 0,
            forall|x: usize|
                x < i && quad_drawn(QuadRef::Image(x), image_count, io, po, before)
                    ==> #[trigger] cands@.contains(QuadRef::Image(x)),
            forall|k1: int, k2: int|
                0 <= k1 < k2 < keys.len() ==> #[trigger] keys@[k1] != #[trigger] keys@[k2],
        decreases n - i,
    {
        let ghost before_cands = cands@;
        if is_below(image_order[i], before) {
            proof {
                assert forall|k: int| 0 <= k < keys.len() implies keys@[k] != (
                    image_order@[i as int],
                    i,
                    0usize,
                ) by {
                    assert(0 <= k < cands.len());
                    assert(cands@[k] is Image);
                    assert(keys@[k].2 == 0);
                    assert(keys@[k].1 < i);
                }
            }
            cands.push(QuadRef::Image(i));
            keys.push((image_order[i], i, 0));
            drawn = drawn + 1;
            proof {
                assert(cands@[cands.len() - 1] == QuadRef::Image(i));
            }
        }
        proof {
            assert forall|x: usize|
                x < i + 1 && quad_drawn(QuadRef::Image(x), image_count, io, po, before)
                implies #[trigger] cands@.contains(QuadRef::Image(x)) by {
                if x == i {
                    assert(cands@[cands.len() - 1] == QuadRef::Image(x));
                } else {
                    assert(before_cands.contains(QuadRef::Image(x)));
                    let w = choose|w: int|
                        0 <= w < before_cands.len() && before_cands[w] == QuadRef::Image(x);
                    assert(cands@[w] == QuadRef::Image(x));
                }
            }
        }
        i = i + 1;
    }
    let offset = drawn;
    let ghost image_cands = cands@;
    let mut j: usize = 0;
    while j < particle_orders.len()
        invariant
            n == image_span(image_count, io),
            n <= image_order.len(),
            io == image_order@,
            po == particle_orders@,
            offset == drawn_images(io, n as nat, before),
            offset <= n,
            n + particle_orders.len() <= usize::MAX,
            j <= particle_orders.len(),
            cands.len() == keys.len(),
            forall|k: int|
                0 <= k < cands.len() ==> quad_drawn(
                    #[trigger] cands@[k],
                    image_count,
                    io,
                    po,
                    before,
                ) && key_int(keys@[k]) == quad_key(cands@[k], image_count, io, po, before) && (
                keys@[k].2 == 1 ==> keys@[k].1 < offset + j),
            forall|q: QuadRef|
                quad_drawn(q, image_count, io, po, before) && (q is Image || q->Particle_0 < j)
                    ==> #[trigger] cands@.contains(q),
            forall|k1: int, k2: int|
                0 <= k1 < k2 < keys.len() ==> #[trigger] keys@[k1] != #[trigger] keys@[k2],
        decreases particle_orders.len() - j,
    {
        if is_below(particle_orders[j], before) {
            let ghost before_cands = cands@;
            proof {
                assert forall|k: int| 0 <= k < keys.len() implies keys@[k] != (
                    particle_orders@[j as int],
                    (offset + j) as usize,
                    1usize,
                ) by {
                    assert(0 <= k < cands.len());
                    assert(quad_drawn(cands@[k], image_count, io, po, before));
                    if keys@[k].2 == 1 {
                        assert(keys@[k].1 < offset + j);
                    }
                }
            }
            cands.push(QuadRef::Particle(j));
            keys.push((particle_orders[j], offset + j, 1));
            proof {
                assert forall|q: QuadRef|
                    quad_drawn(q, image_count, io, po, before) && (q is Image || q->Particle_0 < j)
                    implies #[trigger] cands@.contains(q) by {
                    assert(before_cands.contains(q));
                    let w = choose|w: int| 0 <= w < before_cands.len() && before_cands[w] == q;
                    assert(cands@[w] == q);
                }
            }
        }
        proof {
            assert forall|q: QuadRef|
                quad_drawn(q, image_count, io, po, before) && (q is Image || q->Particle_0 < j + 1)
                implies #[trigger] cands@.contains(q) by {
                if q == QuadRef::Particle(j) {
                    assert(cands@[cands.len() - 1] == q);
                }
            }
        }
        j = j + 1;
    }
    let mut ordered: Vec<QuadRef> = Vec::new();
    let mut last: Option<(usize, usize, usize)> = None;
    let mut done = false;
    proof {
        lemma_count_taken_bound(keys@, last, keys@.len());
        assert(count_taken(keys@, last, keys@.len()) == 0) by {
            assert forall|m: nat| m <= keys@.len() implies count_taken(keys@, None, m) == 0 by {
                lemma_count_none(keys@, m);
            }
        }
    }
    while !done
        invariant
            cands.len() == keys.len(),
            forall|k: int|
                0 <= k < cands.len() ==> quad_drawn(
                    #[trigger] cands@[k],
                    image_count,
                    io,
                    po,
                    before,
                ) && key_int(keys@[k]) == quad_key(cands@[k], image_count, io, po, before),
            forall|q: QuadRef|
                quad_drawn(q, image_count, io, po, before) ==> #[trigger] cands@.contains(q),
            forall|k1: int, k2: int|
                0 <= k1 < k2 < keys.len() ==> #[trigger] keys@[k1] != #[trigger] keys@[k2],
            io == image_order@,
            po == particle_orders@,
            ordered.len() == count_taken(keys@, last, keys@.len()),
            ordered.len() <= keys.len(),
            last is None <==> ordered.len() == 0,
            last matches Some(l) ==> key_int(l) == quad_key(
                ordered@.last(),
                image_count,
                io,
                po,
                before,
            ),
            forall|k: int|
                0 <= k < ordered.len() ==> quad_drawn(
                    #[trigger] ordered@[k],
                    image_count,
                    io,
                    po,
                    before,
                ),
            forall|k1: int, k2: int|
                0 <= k1 < k2 < ordered.len() ==> key_lt(
                    quad_key(#[trigger] ordered@[k1], image_count, io, po, before),
                    quad_key(#[trigger] ordered@[k2], image_count, io, po, before),
                ),
            forall|t: int|
                0 <= t < cands.len() ==> (ordered@.contains(#[trigger] cands@[t]) <==> !above_last(
                    keys@[t],
                    last,
                )),
            done ==> forall|t: int| 0 <= t < keys.len() ==> !above_last(#[trigger] keys@[t], last),
        decreases (keys.len() - ordered.len()) as int + if done {
            0int
        } else {
            1int
        },
    {
        let mut best: Option<usize> = None;
        let mut t: usize = 0;
        while t < keys.len()
            invariant
                t <= keys.len(),
                match best {
                    Some(b) => b < t && above_last(keys@[b as int], last) && forall|u: int|
                        0 <= u < t && above_last(#[trigger] keys@[u], last) ==> !key_lt(
                            key_int(keys@[u]),
                            key_int(keys@[b as int]),
                        ),
                    None => forall|u: int| 0 <= u < t ==> !above_last(#[trigger] keys@[u], last),
                },
            decreases keys.len() - t,
        {
            let candidate = keys[t];
            let above = match last {
                Some(l) => key_less(l, candidate),
                None => true,
            };
            if above {
                match best {
                    Some(b) => {
                        if key_less(candidate, keys[b]) {
                            best = Some(t);
                        }
                    },
                    None => {
                        best = Some(t);
                    },
                }
            }
            t = t + 1;
        }
        match best {
            None => {
                done = true;
            },
            Some(b) => {
                let ghost old_last = last;
                let ghost old_ordered = ordered@;
                let q = cands[b];
                ordered.push(q);
                last = Some(keys[b]);
                proof {
                    let kb = keys@[b as int];
                    assert forall|u: int|
                        0 <= u < keys.len() implies (!above_last(#[trigger] keys@[u], last) <==> (
                        !above_last(keys@[u], old_last) || u == b)) by {
                        if u != b {
                            assert(keys@[u] != kb);
                        }
                    }
                    lemma_count_taken_step(keys@, old_last, last, b as nat, keys@.len());
                    lemma_count_taken_bound(keys@, last, keys@.len());
                    assert forall|t2: int| 0 <= t2 < cands.len() implies (ordered@.contains(
                        #[trigger] cands@[t2],
                    ) <==> !above_last(keys@[t2], last)) by {
                        if ordered@.contains(cands@[t2]) {
                            let w = choose|w: int| 0 <= w < ordered@.len() && ordered@[w] == cands@[t2];
                            if w < old_ordered.len() {
                                assert(old_ordered.contains(cands@[t2]));
                            } else {
                                assert(cands@[t2] == cands@[b as int]);
                                assert(key_int(keys@[t2]) == key_int(keys@[b as int]));
                                assert(keys@[t2] == keys@[b as int]);
                            }
                        }
                        if !above_last(keys@[t2], last) {
                            if t2 == b {
                                assert(ordered@[ordered@.len() - 1] == cands@[t2]);
                            } else {
                                assert(old_ordered.contains(cands@[t2]));
                                let w = choose|w: int| 0 <= w < old_ordered.len() && old_ordered[w] == cands@[t2];
                                assert(ordered@[w] == cands@[t2]);
                            }
                        }
                    }
                    assert forall|k1: int, k2: int| 0 <= k1 < k2 < ordered.len() implies key_lt(
                        quad_key(#[trigger] ordered@[k1], image_count, io, po, before),
                        quad_key(#[trigger] ordered@[k2], image_count, io, po, before),
                    ) by {
                        if k2 == ordered.len() - 1 && k1 < old_ordered.len() - 1 {
                            assert(ordered@[old_ordered.len() - 1] == old_ordered.last());
                        }
                    }
                }
            },
        }
    }
    proof {
        assert forall|q: QuadRef|
            quad_drawn(q, image_count, io, po, before) implies #[trigger] ordered@.contains(q) by {
            assert(cands@.contains(q));
            let w = choose|w: int| 0 <= w < cands@.len() && cands@[w] == q;
            assert(!above_last(keys@[w], last));
        }
    }
    ordered
}

proof fn lemma_count_none(keys: Seq<(usize, usize, usize)>, m: nat)
    ensures
        count_taken(keys, None, m) == 0,
    decreases m,
{
    if m > 0 {
        lemma_count_none(keys, (m - 1) as nat);
    }
}

/// A texture's identity: its size, its exact pixels and its sampler.
#[derive(Clone, Debug, PartialEq, Eq, Hash)]
pub struct TextureKey {
    pub width: u32,
    pub height: u32,
    pub rgba: Vec<u8>,
    pub clamp: bool,
    pub nearest: bool,
}

/// What identifies a texture key.
pub open spec fn key_view(key: TextureKey) -> (u32, u32, Seq<u8>, bool, bool) {
    (key.width, key.height, key.rgba@, key.clamp, key.nearest)
}

fn same_key(a: &TextureKey, b: &TextureKey) -> (same: bool)
    ensures
        same == (key_view(*a) == key_view(*b)),
{
    if a.width != b.width || a.height != b.height || a.clamp != b.clamp || a.nearest != b.nearest
        || a.rgba.len() != b.rgba.len() {
        proof {
            if a.rgba.len() != b.rgba.len() {
                assert(a.rgba@.len() != b.rgba@.len());
            }
        }
        return false;
    }
    let mut i: usize = 0;
    while i < a.rgba.len()
        invariant
            i <= a.rgba.len() == b.rgba.len(),
            forall|k: int| 0 <= k < i ==> a.rgba@[k] == b.rgba@[k],
        decreases a.rgba.len() - i,
    {
        if a.rgba[i] != b.rgba[i] {
            return false;
        }
        i = i + 1;
    }
    proof {
        assert(a.rgba@ =~= b.rgba@);
    }
    true
}

/// Where the lookup of a texture key ended.
#[derive(Debug)]
pub enum Interned {
    /// An identical texture was uploaded before, into this slot.
    Reused(usize),
    /// The texture is new: upload it, then record its slot.
    Upload(TextureKey),
}

/// Remembers which texture slot holds each uploaded texture, so that
/// identical textures are uploaded once.
#[derive(Debug)]
pub struct TextureInterner {
    slots: Vec<(TextureKey, usize)>,
    reused: usize,
    reused_bytes: usize,
}

impl View for TextureInterner {
    type V = Map<(u32, u32, Seq<u8>, bool, bool), usize>;

    closed spec fn view(&self) -> Self::V {
        Map::new(
            |kv: (u32, u32, Seq<u8>, bool, bool)|
                exists|i: int| 0 <= i < self.slots.len() && key_view(self.slots@[i].0) == kv,
            |kv: (u32, u32, Seq<u8>, bool, bool)|
                self.slots@[choose|i: int|
                    0 <= i < self.slots.len() && key_view(self.slots@[i].0) == kv].1,
        )
    }
}

impl TextureInterner {
    /// How many lookups found an identical texture.
    pub closed spec fn reuse_count(&self) -> nat {
        self.reused as nat
    }

    /// How many pixel bytes the reused textures would have taken.
    pub closed spec fn reuse_bytes(&self) -> nat {
        self.reused_bytes as nat
    }

    /// How many lookups found an identical texture.
    pub fn reused(&self) -> (count: usize)
        ensures
            count == self.reuse_count(),
    {
        self.reused
    }

    /// How many pixel bytes the reused textures would have taken.
    pub fn reused_bytes(&self) -> (bytes: usize)
        ensures
            bytes == self.reuse_bytes(),
    {
        self.reused_bytes
    }

    /// No two slots hold the same key.
    pub closed spec fn wf(&self) -> bool {
        forall|i: int, j: int|
            0 <= i < j < self.slots.len() ==> key_view(#[trigger] self.slots@[i].0) != key_view(
                #[trigger] self.slots@[j].0,
            )
    }

    /// An interner that knows no texture.
    pub fn new() -> (interner: TextureInterner)
        ensures
            interner.wf(),
            interner@ == Map::<(u32, u32, Seq<u8>, bool, bool), usize>::empty(),
            interner.reuse_count() == 0,
            interner.reuse_bytes() == 0,
    {
        let interner = TextureInterner { slots: Vec::new(), reused: 0, reused_bytes: 0 };
        proof {
            assert(interner@ =~= Map::<(u32, u32, Seq<u8>, bool, bool), usize>::empty());
        }
        interner
    }

    fn find(&self, key: &TextureKey) -> (found: Option<usize>)
        requires
            self.wf(),
        ensures
            match found {
                Some(t) => t < self.slots.len() && key_view(self.slots@[t as int].0) == key_view(*key)
                    && self@.contains_key(key_view(*key)) && self@[key_view(*key)] == self.slots@[t as int].1,
                None => !self@.contains_key(key_view(*key)),
            },
    {
        let mut t: usize = 0;
        while t < self.slots.len()
            invariant
                self.wf(),
                t <= self.slots.len(),
                forall|u: int| 0 <= u < t ==> key_view(#[trigger] self.slots@[u].0) != key_view(*key),
            decreases self.slots.len() - t,
        {
            if same_key(&self.slots[t].0, key) {
                proof {
                    let kv = key_view(*key);
                    assert(self@.dom().contains(kv));
                    let c = choose|i: int| 0 <= i < self.slots.len() && key_view(self.slots@[i].0) == kv;
                    if c != t {
                        if c < t {
                            assert(key_view(self.slots@[c].0) != key_view(self.slots@[t as int].0));
                        } else {
                            assert(key_view(self.slots@[t as int].0) != key_view(self.slots@[c].0));
                        }
                    }
                }
                return Some(t);
            }
            t = t + 1;
        }
        None
    }

    /// Looks a texture up: an identical texture gives its slot, and is
    /// counted as reused; a new one is handed back for upload.
    pub fn intern_key(&mut self, key: TextureKey) -> (outcome: Interned)
        requires
            old(self).wf(),
            old(self).reuse_count() < usize::MAX,
            old(self).reuse_bytes() + key.rgba.len() <= usize::MAX,
        ensures
            final(self).wf(),
            final(self)@ == old(self)@,
            old(self)@.contains_key(key_view(key)) ==> outcome == Interned::Reused(
                old(self)@[key_view(key)],
            ) && final(self).reuse_count() == old(self).reuse_count() + 1 && final(self).reuse_bytes()
                == old(self).reuse_bytes() + key.rgba.len(),
            !old(self)@.contains_key(key_view(key)) ==> (outcome matches Interned::Upload(k)
                && key_view(k) == key_view(key)) && final(self).reuse_count() == old(self).reuse_count()
                && final(self).reuse_bytes() == old(self).reuse_bytes(),
    {
        match self.find(&key) {
            Some(t) => {
                let slot = self.slots[t].1;
                self.reused = self.reused + 1;
                self.reused_bytes = self.reused_bytes + key.rgba.len();
                Interned::Reused(slot)
            },
            None => Interned::Upload(key),
        }
    }

    /// Records the slot that a freshly uploaded texture went into.
    pub fn record(&mut self, key: TextureKey, slot: usize)
        requires
            old(self).wf(),
        ensures
            final(self).wf(),
            final(self)@ == old(self)@.insert(key_view(key), slot),
            final(self).reuse_count() == old(self).reuse_count(),
            final(self).reuse_bytes() == old(self).reuse_bytes(),
    {
        let ghost kv = key_view(key);
        let ghost before = self.slots@;
        let ghost old_map = self@;
        match self.find(&key) {
            Some(t) => {
                self.slots.set(t, (key, slot));
                proof {
                    assert forall|i: int, j: int| 0 <= i < j < self.slots.len() implies key_view(
                        #[trigger] self.slots@[i].0,
                    ) != key_view(#[trigger] self.slots@[j].0) by {
                        assert(key_view(before[i].0) != key_view(before[j].0));
                    }
                    assert forall|x: (u32, u32, Seq<u8>, bool, bool)|
                        #[trigger] self@.contains_key(x) == old_map.insert(kv, slot).contains_key(x) by {
                        if old_map.contains_key(x) {
                            let c = choose|i: int| 0 <= i < before.len() && key_view(before[i].0) == x;
                            assert(key_view(self.slots@[c].0) == x);
                        }
                        if self@.contains_key(x) {
                            let c = choose|i: int| 0 <= i < self.slots.len() && key_view(self.slots@[i].0) == x;
                            if c != t {
                                assert(key_view(before[c].0) == x);
                            }
                        }
                    }
                    assert forall|x: (u32, u32, Seq<u8>, bool, bool)| #[trigger] self@.contains_key(x)
                        implies self@[x] == old_map.insert(kv, slot)[x] by {
                        let c = choose|i: int| 0 <= i < self.slots.len() && key_view(self.slots@[i].0) == x;
                        if x == kv {
                            if c != t {
                                if c < t {
                                    assert(key_view(self.slots@[c].0) != key_view(self.slots@[t as int].0));
                                } else {
                                    assert(key_view(self.slots@[t as int].0) != key_view(self.slots@[c].0));
                                }
                            }
                        } else {
                            assert(c != t);
                            assert(key_view(before[c].0) == x);
                            let d = choose|i: int| 0 <= i < before.len() && key_view(before[i].0) == x;
                            if d != c {
                                if d < c {
                                    assert(key_view(before[d].0) != key_view(before[c].0));
                                } else {
                                    assert(key_view(before[c].0) != key_view(before[d].0));
                                }
                            }
                        }
                    }
                    assert(self@ =~= old_map.insert(kv, slot));
                }
            },
            None => {
                self.slots.push((key, slot));
                proof {
                    let n = before.len() as int;
                    assert forall|i: int, j: int| 0 <= i < j < self.slots.len() implies key_view(
                        #[trigger] self.slots@[i].0,
                    ) != key_view(#[trigger] self.slots@[j].0) by {
                        if j == n {
                            assert(!old_map.contains_key(kv));
                            assert(key_view(before[i].0) != kv);
                        } else {
                            assert(key_view(before[i].0) != key_view(before[j].0));
                        }
                    }
                    assert forall|x: (u32, u32, Seq<u8>, bool, bool)|
                        #[trigger] self@.contains_key(x) == old_map.insert(kv, slot).contains_key(x) by {
                        if old_map.contains_key(x) {
                            let c = choose|i: int| 0 <= i < before.len() && key_view(before[i].0) == x;
                            assert(key_view(self.slots@[c].0) == x);
                        }
                        if x == kv {
                            assert(key_view(self.slots@[n].0) == x);
                        }
                        if self@.contains_key(x) {
                            let c = choose|i: int| 0 <= i < self.slots.len() && key_view(self.slots@[i].0) == x;
                            if c != n {
                                assert(key_view(before[c].0) == x);
                            }
                        }
                    }
                    assert forall|x: (u32, u32, Seq<u8>, bool, bool)| #[trigger] self@.contains_key(x)
                        implies self@[x] == old_map.insert(kv, slot)[x] by {
                        let c = choose|i: int| 0 <= i < self.slots.len() && key_view(self.slots@[i].0) == x;
                        if x == kv {
                            if c != n {
                                assert(key_view(before[c].0) == kv);
                                assert(old_map.contains_key(kv));
                            }
                        } else {
                            assert(c != n);
                            assert(key_view(before[c].0) == x);
                            let d = choose|i: int| 0 <= i < before.len() && key_view(before[i].0) == x;
                            if d != c {
                                if d < c {
                                    assert(key_view(before[d].0) != key_view(before[c].0));
                                } else {
                                    assert(key_view(before[c].0) != key_view(before[d].0));
                                }
                            }
                        }
                    }
                    assert(self@ =~= old_map.insert(kv, slot));
                }
            },
        }
    }
}

/// Quads draw in scene order: a lower scene order always comes first; among
/// equal orders image quads keep their index order and particles theirs.
/// Without a limit every quad that has a scene order is drawn; with limit 0
/// none is.
pub proof fn lemma_quad_order(
    image_count: usize,
    image_order: Seq<usize>,
    particle_orders: Seq<usize>,
    before: Option<usize>,
    a: QuadRef,
    b: QuadRef,
)
    ensures
        ({
            let ka = quad_key(a, image_count, image_order, particle_orders, before);
            let kb = quad_key(b, image_count, image_order, particle_orders, before);
            &&& ka.0 < kb.0 ==> key_lt(ka, kb)
            &&& (a matches QuadRef::Image(i) && b matches QuadRef::Image(j) && i < j && ka.0
                == kb.0) ==> key_lt(ka, kb)
            &&& (a matches QuadRef::Particle(i) && b matches QuadRef::Particle(j) && i < j && ka.0
                == kb.0) ==> key_lt(ka, kb)
            &&& !(key_lt(ka, kb) && key_lt(kb, ka))
        }),
        (a matches QuadRef::Image(i) && i < image_count && i < image_order.len()) ==> quad_drawn(
            a,
            image_count,
            image_order,
            particle_orders,
            None,
        ),
        (a matches QuadRef::Particle(j) && j < particle_orders.len()) ==> quad_drawn(
            a,
            image_count,
            image_order,
            particle_orders,
            None,
        ),
        !quad_drawn(a, image_count, image_order, particle_orders, Some(0usize)),
{
}

} // verus!
