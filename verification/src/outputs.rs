use vstd::prelude::*;
use crate::text::str_eq;

verus! {

/// What the compositor told about one output: its name, once known, and the
/// version of its protocol object.
#[derive(Clone, Debug)]
pub struct OutputInfo {
    pub name: Option<String>,
    pub version: u32,
}

/// Why the requested outputs could not be selected.
#[derive(Clone, Copy, Debug, PartialEq, Eq, Structural)]
pub enum SelectError {
    /// The compositor names no output: none has protocol version 4.
    NoNames,
    /// Some requested output is not among the named ones.
    Unknown,
    /// The requested output at this index matches no output.
    Missing(usize),
}

/// The output carries the name `name`.
pub open spec fn named(info: OutputInfo, name: Seq<char>) -> bool {
    match info.name {
        Some(n) => n@ == name,
        None => false,
    }
}

/// The output's name is one of the requested names.
pub open spec fn is_requested(info: OutputInfo, requested: Seq<String>) -> bool {
    exists|i: int| 0 <= i < requested.len() && named(info, #[trigger] requested[i]@)
}

/// How many of the first `n` outputs carry a requested name.
pub open spec fn selected_count(available: Seq<OutputInfo>, requested: Seq<String>, n: nat) -> nat
    decreases n,
{
    if n == 0 {
        0
    } else {
        selected_count(available, requested, (n - 1) as nat) + if is_requested(
            available[n - 1],
            requested,
        ) {
            1nat
        } else {
            0nat
        }
    }
}

/// The first output that carries `name`.
pub open spec fn first_named(available: Seq<OutputInfo>, name: Seq<char>, k: int) -> bool {
    &&& 0 <= k < available.len()
    &&& named(available[k], name)
    &&& forall|j: int| 0 <= j < k ==> !named(#[trigger] available[j], name)
}

/// No output carries `name`.
pub open spec fn unmatched(available: Seq<OutputInfo>, name: Seq<char>) -> bool {
    forall|k: int| 0 <= k < available.len() ==> !named(#[trigger] available[k], name)
}

/// Request `i` is the first one that no output carries.
pub open spec fn first_unmatched(available: Seq<OutputInfo>, requested: Seq<String>, i: int) -> bool {
    &&& 0 <= i < requested.len()
    &&& unmatched(available, requested[i]@)
    &&& forall|j: int| 0 <= j < i ==> !unmatched(available, #[trigger] requested[j]@)
}

/// What `select_outputs` returns: an error when the named outputs that were
/// requested are not exactly as many as the requests, an error naming the
/// first request that no output carries, else for each request the first
/// output of that name.
pub open spec fn select_spec(available: Seq<OutputInfo>, requested: Seq<String>) -> Result<
    Seq<usize>,
    SelectError,
> {
    if selected_count(available, requested, available.len()) != requested.len() {
        if available.len() > 0 && forall|k: int|
            0 <= k < available.len() ==> (#[trigger] available[k]).version < 4 {
            Err(SelectError::NoNames)
        } else {
            Err(SelectError::Unknown)
        }
    } else if exists|i: int| first_unmatched(available, requested, i) {
        Err(SelectError::Missing((choose|i: int| first_unmatched(available, requested, i)) as usize))
    } else {
        Ok(
            Seq::new(
                requested.len(),
                |i: int| (choose|k: int| first_named(available, requested[i]@, k)) as usize,
            ),
        )
    }
}

fn is_named(info: &OutputInfo, name: &str) -> (yes: bool)
    ensures
        yes == named(*info, name@),
{
    match &info.name {
        Some(n) => str_eq(n.as_str(), name),
        None => false,
    }
}

fn requested_name(info: &OutputInfo, requested: &[String]) -> (yes: bool)
    ensures
        yes == is_requested(*info, requested@),
{
    let mut i: usize = 0;
    while i < requested.len()
        invariant
            i <= requested.len(),
            forall|j: int| 0 <= j < i ==> !named(*info, #[trigger] requested@[j]@),
        decreases requested.len() - i,
    {
        if is_named(info, requested[i].as_str()) {
            assert(named(*info, requested@[i as int]@));
            return true;
        }
        i = i + 1;
    }
    false
}

fn first_named_index(available: &[OutputInfo], name: &str) -> (found: Option<usize>)
    ensures
        match found {
            Some(k) => first_named(available@, name@, k as int),
            None => unmatched(available@, name@),
        },
{
    let mut k: usize = 0;
    while k < available.len()
        invariant
            k <= available.len(),
            forall|j: int| 0 <= j < k ==> !named(#[trigger] available@[j], name@),
        decreases available.len() - k,
    {
        if is_named(&available[k], name) {
            return Some(k);
        }
        k = k + 1;
    }
    None
}

/// Picks the requested outputs among the outputs the compositor announced.
pub fn select_outputs(available: &[OutputInfo], requested: &[String]) -> (selection: Result<
    Vec<usize>,
    SelectError,
>)
    ensures
        match selection {
            Ok(v) => select_spec(available@, requested@) == Ok::<Seq<usize>, SelectError>(v@),
            Err(e) => select_spec(available@, requested@) == Err::<Seq<usize>, SelectError>(e),
        },
{
    let mut count: usize = 0;
    let mut any_named_version = false;
    let mut k: usize = 0;
    while k < available.len()
        invariant
            k <= available.len(),
            count == selected_count(available@, requested@, k as nat),
            count <= k,
            any_named_version == exists|j: int| 0 <= j < k && (#[trigger] available@[j]).version >= 4,
        decreases available.len() - k,
    {
        if requested_name(&available[k], requested) {
            count = count + 1;
        }
        if available[k].version >= 4 {
            any_named_version = true;
        }
        k = k + 1;
    }
    if count != requested.len() {
        if available.len() > 0 && !any_named_version {
            return Err(SelectError::NoNames);
        }
        proof {
            if available.len() > 0 {
                let j = choose|j: int| 0 <= j < available.len() && (#[trigger] available@[j]).version >= 4;
                assert(!(available@[j].version < 4));
            }
        }
        return Err(SelectError::Unknown);
    }
    assert(count == selected_count(available@, requested@, available@.len()));
    let mut chosen: Vec<usize> = Vec::new();
    let mut i: usize = 0;
    while i < requested.len()
        invariant
            i <= requested.len(),
            chosen.len() == i,
            selected_count(available@, requested@, available@.len()) == requested@.len(),
            forall|t: int|
                0 <= t < i ==> first_named(available@, requested@[t]@, #[trigger] chosen@[t] as int),
        decreases requested.len() - i,
    {
        let found = first_named_index(available, requested[i].as_str());
        match found {
            Some(k) => {
                assert(first_named(available@, requested@[i as int]@, k as int));
                chosen.push(k);
            },
            None => {
                proof {
                    let ii = i as int;
                    assert(unmatched(available@, requested@[ii]@));
                    assert forall|j: int| 0 <= j < ii implies !unmatched(
                        available@,
                        #[trigger] requested@[j]@,
                    ) by {
                        let c = chosen@[j] as int;
                        assert(first_named(available@, requested@[j]@, c));
                        assert(named(available@[c], requested@[j]@));
                    }
                    assert(first_unmatched(available@, requested@, ii));
                    let c = choose|c: int| first_unmatched(available@, requested@, c);
                    if c < ii {
                        assert(!unmatched(available@, requested@[c]@));
                    } else if c > ii {
                        assert(!unmatched(available@, requested@[ii]@));
                    }
                }
                return Err(SelectError::Missing(i));
            },
        }
        i = i + 1;
    }
    proof {
        assert forall|t: int| 0 <= t < requested.len() implies !unmatched(
            available@,
            #[trigger] requested@[t]@,
        ) by {
            let c = chosen@[t] as int;
            assert(first_named(available@, requested@[t]@, c));
            assert(named(available@[c], requested@[t]@));
        }
        assert(!exists|i: int| first_unmatched(available@, requested@, i));
        let picked = Seq::new(
            requested@.len(),
            |t: int| (choose|kk: int| first_named(available@, requested@[t]@, kk)) as usize,
        );
        assert forall|t: int| 0 <= t < requested.len() implies chosen@[t] == picked[t] by {
            let c = chosen@[t] as int;
            let d = choose|kk: int| first_named(available@, requested@[t]@, kk);
            assert(first_named(available@, requested@[t]@, c));
            if d != c {
                if d < c {
                    assert(!named(available@[d], requested@[t]@));
                } else {
                    assert(!named(available@[c], requested@[t]@));
                }
            }
        }
        assert(chosen@ =~= picked);
    }
    Ok(chosen)
}

proof fn lemma_some_first_unmatched(available: Seq<OutputInfo>, requested: Seq<String>, i: int)
    requires
        0 <= i < requested.len(),
        unmatched(available, requested[i]@),
    ensures
        exists|f: int| first_unmatched(available, requested, f),
    decreases i,
{
    if exists|j: int| 0 <= j < i && unmatched(available, #[trigger] requested[j]@) {
        let j = choose|j: int| 0 <= j < i && unmatched(available, #[trigger] requested[j]@);
        lemma_some_first_unmatched(available, requested, j);
    } else {
        assert(first_unmatched(available, requested, i));
    }
}

proof fn lemma_some_first_named(available: Seq<OutputInfo>, name: Seq<char>, k: int)
    requires
        0 <= k < available.len(),
        named(available[k], name),
    ensures
        exists|f: int| first_named(available, name, f),
    decreases k,
{
    if exists|j: int| 0 <= j < k && named(#[trigger] available[j], name) {
        let j = choose|j: int| 0 <= j < k && named(#[trigger] available[j], name);
        lemma_some_first_named(available, name, j);
    } else {
        assert(first_named(available, name, k));
    }
}

/// A successful selection picks, for each requested name, the first output
/// carrying that name; a `Missing` error names a request that no output
/// carries, with every earlier request carried by some output.
pub proof fn lemma_selection_picks_first_named(available: Seq<OutputInfo>, requested: Seq<String>)
    requires
        available.len() <= usize::MAX,
        requested.len() <= usize::MAX,
    ensures
        select_spec(available, requested) matches Ok(sel) ==> {
            &&& sel.len() == requested.len()
            &&& forall|i: int|
                0 <= i < requested.len() ==> {
                    &&& (#[trigger] sel[i]) < available.len()
                    &&& named(available[sel[i] as int], requested[i]@)
                    &&& forall|j: int| 0 <= j < sel[i] ==> !named(available[j], requested[i]@)
                }
        },
        select_spec(available, requested) matches Err(SelectError::Missing(i)) ==> {
            &&& i < requested.len()
            &&& forall|k: int| 0 <= k < available.len() ==> !named(available[k], requested[i as int]@)
            &&& forall|j: int| 0 <= j < i ==> !unmatched(available, #[trigger] requested[j]@)
        },
{
    if select_spec(available, requested) is Ok {
        let sel = select_spec(available, requested)->Ok_0;
        assert forall|i: int| 0 <= i < requested.len() implies {
            &&& (#[trigger] sel[i]) < available.len()
            &&& named(available[sel[i] as int], requested[i]@)
            &&& forall|j: int| 0 <= j < sel[i] ==> !named(available[j], requested[i]@)
        } by {
            if unmatched(available, requested[i]@) {
                lemma_some_first_unmatched(available, requested, i);
            }
            assert(!unmatched(available, requested[i]@));
            let k = choose|k: int| 0 <= k < available.len() && named(#[trigger] available[k], requested[i]@);
            lemma_some_first_named(available, requested[i]@, k);
            let f = choose|f: int| first_named(available, requested[i]@, f);
            assert(sel[i] == f as usize);
        }
    }
    if let Err(SelectError::Missing(i)) = select_spec(available, requested) {
        let f = choose|f: int| first_unmatched(available, requested, f);
        assert(f as usize == i);

    }
}

} // verus!
