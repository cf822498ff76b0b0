use vstd::prelude::*;
use crate::text::{str_eq, text_chars};

verus! {

/// One output of a multi-output video wallpaper.
#[derive(Clone, Debug, PartialEq, Eq)]
pub struct VideoEntry {
    pub output: String,
    pub video: String,
    pub mute: bool,
    pub volume: u32,
    pub transition_from: Option<String>,
}

/// Outputs that share one decoder: the same video, entered from the same
/// transition source.
#[derive(Clone, Debug, PartialEq, Eq)]
pub struct VideoGroup {
    pub video: String,
    pub outputs: Vec<String>,
    pub transition_from: Option<String>,
    pub mute: bool,
    pub volume: u32,
    pub with_audio: bool,
}

/// An optional string as characters.
pub open spec fn opt_text(s: Option<String>) -> Option<Seq<char>> {
    match s {
        Some(t) => Some(t@),
        None => None,
    }
}

/// An entry as plain values.
pub struct EntryView {
    pub output: Seq<char>,
    pub video: Seq<char>,
    pub mute: bool,
    pub volume: u32,
    pub transition_from: Option<Seq<char>>,
}

/// A group as plain values.
pub struct GroupView {
    pub video: Seq<char>,
    pub outputs: Seq<Seq<char>>,
    pub transition_from: Option<Seq<char>>,
    pub mute: bool,
    pub volume: u32,
    pub with_audio: bool,
}

impl View for VideoEntry {
    type V = EntryView;

    open spec fn view(&self) -> EntryView {
        EntryView {
            output: self.output@,
            video: self.video@,
            mute: self.mute,
            volume: self.volume,
            transition_from: opt_text(self.transition_from),
        }
    }
}

impl View for VideoGroup {
    type V = GroupView;

    open spec fn view(&self) -> GroupView {
        GroupView {
            video: self.video@,
            outputs: self.outputs@.map_values(|o: String| o@),
            transition_from: opt_text(self.transition_from),
            mute: self.mute,
            volume: self.volume,
            with_audio: self.with_audio,
        }
    }
}

/// The views of the entries.
pub open spec fn entry_views(s: Seq<VideoEntry>) -> Seq<EntryView> {
    s.map_values(|e: VideoEntry| e@)
}

/// The views of the groups.
pub open spec fn group_views(s: Seq<VideoGroup>) -> Seq<GroupView> {
    s.map_values(|g: VideoGroup| g@)
}

/// `a` sorts strictly before `b`: code point by code point, a proper prefix
/// first. Code point order is the byte order of the UTF-8 text.
pub open spec fn text_lt(a: Seq<char>, b: Seq<char>) -> bool
    decreases a.len(),
{
    if b.len() == 0 {
        false
    } else if a.len() == 0 {
        true
    } else if a[0] != b[0] {
        (a[0] as u32) < (b[0] as u32)
    } else {
        text_lt(a.drop_first(), b.drop_first())
    }
}

/// `e` placed into entries sorted by output: after every entry whose output
/// is not greater.
pub open spec fn insert_by_output(s: Seq<EntryView>, e: EntryView) -> Seq<EntryView>
    decreases s.len(),
{
    if s.len() == 0 {
        seq![e]
    } else if text_lt(e.output, s.last().output) {
        insert_by_output(s.drop_last(), e).push(s.last())
    } else {
        s.push(e)
    }
}

/// The entries stably sorted by output name: entries with equal names keep
/// their order.
pub open spec fn sort_by_output(s: Seq<EntryView>) -> Seq<EntryView>
    decreases s.len(),
{
    if s.len() == 0 {
        s
    } else {
        insert_by_output(sort_by_output(s.drop_last()), s.last())
    }
}

/// The audio of a video across the entries, in order: muted at the first
/// entry's volume, until an unmuted entry unmutes it at that entry's volume.
pub open spec fn audio_for(s: Seq<EntryView>, video: Seq<char>) -> Option<(bool, u32)>
    decreases s.len(),
{
    if s.len() == 0 {
        None
    } else {
        let earlier = audio_for(s.drop_last(), video);
        let e = s.last();
        if e.video != video {
            earlier
        } else {
            match earlier {
                None => Some((e.mute, e.volume)),
                Some((muted, _)) => if !e.mute && muted {
                    Some((false, e.volume))
                } else {
                    earlier
                },
            }
        }
    }
}

/// The transition source of an entry, dropped when it is the video itself.
pub open spec fn effective_from(e: EntryView) -> Option<Seq<char>> {
    match e.transition_from {
        Some(from) => if from != e.video {
            Some(from)
        } else {
            None
        },
        None => None,
    }
}

/// The first group of `video` entered from `from`.
pub open spec fn first_group(gs: Seq<GroupView>, video: Seq<char>, from: Option<Seq<char>>) -> Option<
    int,
>
    decreases gs.len(),
{
    if gs.len() == 0 {
        None
    } else {
        match first_group(gs.drop_last(), video, from) {
            Some(g) => Some(g),
            None => if gs.last().video == video && gs.last().transition_from == from {
                Some(gs.len() - 1)
            } else {
                None
            },
        }
    }
}

/// The groups of the entries, in order of first appearance; each output joins
/// the group of its video and transition source, and a group takes the audio
/// of its video over `all` entries. No group has audio yet.
pub open spec fn grouped(s: Seq<EntryView>, all: Seq<EntryView>) -> Seq<GroupView>
    decreases s.len(),
{
    if s.len() == 0 {
        Seq::empty()
    } else {
        let gs = grouped(s.drop_last(), all);
        let e = s.last();
        let from = effective_from(e);
        match first_group(gs, e.video, from) {
            Some(g) => gs.update(
                g,
                GroupView { outputs: gs[g].outputs.push(e.output), ..gs[g] },
            ),
            None => {
                let (mute, volume) = match audio_for(all, e.video) {
                    Some(a) => a,
                    None => (true, e.volume),
                };
                gs.push(
                    GroupView {
                        video: e.video,
                        outputs: seq![e.output],
                        transition_from: from,
                        mute,
                        volume,
                        with_audio: false,
                    },
                )
            },
        }
    }
}

/// The groups with audio given to the first group of each video only.
pub open spec fn with_audio_owners(gs: Seq<GroupView>) -> Seq<GroupView> {
    Seq::new(
        gs.len(),
        |i: int|
            GroupView {
                with_audio: forall|j: int| 0 <= j < i ==> gs[j].video != gs[i].video,
                ..gs[i]
            },
    )
}

/// What `group_entries` returns for the entries.
pub open spec fn groups_spec(entries: Seq<EntryView>) -> Seq<GroupView> {
    let sorted = sort_by_output(entries);
    with_audio_owners(grouped(sorted, sorted))
}

fn clone_text(s: &String) -> (copy: String)
    ensures
        copy@ == s@,
{
    s.clone()
}

fn clone_opt_text(s: &Option<String>) -> (copy: Option<String>)
    ensures
        opt_text(copy) == opt_text(*s),
{
    match s {
        Some(t) => Some(clone_text(t)),
        None => None,
    }
}

fn opt_text_eq(a: &Option<String>, b: &Option<String>) -> (same: bool)
    ensures
        same == (opt_text(*a) == opt_text(*b)),
{
    match (a, b) {
        (Some(x), Some(y)) => str_eq(x.as_str(), y.as_str()),
        (None, None) => true,
        _ => false,
    }
}

fn clone_entry(e: &VideoEntry) -> (copy: VideoEntry)
    ensures
        copy@ == e@,
{
    VideoEntry {
        output: clone_text(&e.output),
        video: clone_text(&e.video),
        mute: e.mute,
        volume: e.volume,
        transition_from: clone_opt_text(&e.transition_from),
    }
}

/// Whether `a` sorts strictly before `b`.
pub fn text_less(a: &str, b: &str) -> (less: bool)
    ensures
        less == text_lt(a@, b@),
{
    let x = text_chars(a);
    let y = text_chars(b);
    let mut i: usize = 0;
    assert(a@.subrange(0, a@.len() as int) =~= a@);
    assert(b@.subrange(0, b@.len() as int) =~= b@);
    while i < x.len() && i < y.len()
        invariant
            x@ == a@,
            y@ == b@,
            i <= x.len(),
            i <= y.len(),
            text_lt(a@, b@) == text_lt(a@.subrange(i as int, a@.len() as int), b@.subrange(
                i as int,
                b@.len() as int,
            )),
        decreases x.len() - i,
    {
        let ghost ra = a@.subrange(i as int, a@.len() as int);
        let ghost rb = b@.subrange(i as int, b@.len() as int);
        if x[i] != y[i] {
            assert(ra[0] == x@[i as int] && rb[0] == y@[i as int]);
            return (x[i] as u32) < (y[i] as u32);
        }
        proof {
            assert(ra.drop_first() =~= a@.subrange(i + 1, a@.len() as int));
            assert(rb.drop_first() =~= b@.subrange(i + 1, b@.len() as int));
        }
        i = i + 1;
    }
    i < y.len()
}

proof fn lemma_entry_views_push(s: Seq<VideoEntry>, e: VideoEntry)
    ensures
        entry_views(s.push(e)) == entry_views(s).push(e@),
{
    assert(entry_views(s.push(e)) =~= entry_views(s).push(e@));
}

/// Places an entry into entries sorted by output.
fn insert_entry(sorted: &mut Vec<VideoEntry>, e: VideoEntry)
    ensures
        entry_views(final(sorted)@) == insert_by_output(entry_views(old(sorted)@), e@),
{
    let ghost before = entry_views(sorted@);
    let mut p = sorted.len();
    assert(before.take(p as int) =~= before);
    assert(before.skip(p as int) =~= Seq::<EntryView>::empty());
    loop
        invariant
            p <= sorted.len(),
            entry_views(sorted@) == before,
            insert_by_output(before, e@) == insert_by_output(before.take(p as int), e@)
                + before.skip(p as int),
        ensures
            p <= sorted.len(),
            entry_views(sorted@) == before,
            insert_by_output(before, e@) == insert_by_output(before.take(p as int), e@)
                + before.skip(p as int),
            p == 0 || !text_lt(e@.output, before[p - 1].output),
        decreases p,
    {
        if p == 0 {
            break;
        }
        if !text_less(e.output.as_str(), sorted[p - 1].output.as_str()) {
            assert(sorted@[p - 1]@ == before[p - 1]);
            break;
        }
        proof {
            assert(sorted@[p - 1]@ == before[p - 1]);
            let prefix = before.take(p as int);
            assert(prefix.drop_last() =~= before.take(p - 1));
            assert(prefix.last() == before[p - 1]);
            assert(before.skip(p - 1) =~= seq![before[p - 1]] + before.skip(p as int));
            assert(insert_by_output(prefix, e@) == insert_by_output(before.take(p - 1), e@).push(
                before[p - 1],
            ));
            assert(insert_by_output(before.take(p - 1), e@).push(before[p - 1]) + before.skip(
                p as int,
            ) =~= insert_by_output(before.take(p - 1), e@) + before.skip(p - 1));
        }
        p = p - 1;
    }
    let ghost old_seq = sorted@;
    sorted.insert(p, e);
    proof {
        let prefix = before.take(p as int);
        if p == 0 {
            assert(insert_by_output(prefix, e@) =~= seq![e@]);
        } else {
            assert(prefix.last() == before[p - 1]);
            assert(insert_by_output(prefix, e@) == prefix.push(e@));
        }
        assert(entry_views(sorted@) =~= prefix.push(e@) + before.skip(p as int));
    }
}

/// The audio of `video` over all entries; the video must occur among them.
fn audio_of(sorted: &Vec<VideoEntry>, video: &str) -> (audio: (bool, u32))
    requires
        audio_for(entry_views(sorted@), video@) is Some,
    ensures
        Some(audio) == audio_for(entry_views(sorted@), video@),
{
    let ghost all = entry_views(sorted@);
    let mut state: Option<(bool, u32)> = None;
    let mut i: usize = 0;
    while i < sorted.len()
        invariant
            i <= sorted.len(),
            all == entry_views(sorted@),
            state == audio_for(all.take(i as int), video@),
        decreases sorted.len() - i,
    {
        proof {
            assert(all.take(i + 1).drop_last() =~= all.take(i as int));
            assert(all.take(i + 1).last() == sorted@[i as int]@);
        }
        let e = &sorted[i];
        if str_eq(e.video.as_str(), video) {
            state = match state {
                None => Some((e.mute, e.volume)),
                Some((muted, volume)) => if !e.mute && muted {
                    Some((false, e.volume))
                } else {
                    Some((muted, volume))
                },
            };
        }
        i = i + 1;
    }
    proof {
        assert(all.take(all.len() as int) =~= all);
    }
    match state {
        Some(audio) => audio,
        None => (true, 0),
    }
}

fn find_group(groups: &Vec<VideoGroup>, video: &str, from: &Option<String>) -> (found: Option<usize>)
    ensures
        found matches Some(g) ==> g < groups.len() && first_group(
            group_views(groups@),
            video@,
            opt_text(*from),
        ) == Some(g as int),
        match first_group(group_views(groups@), video@, opt_text(*from)) {
            Some(g) => found == Some(g as usize),
            None => found is None,
        },
{
    let ghost gs = group_views(groups@);
    let mut g: usize = 0;
    while g < groups.len()
        invariant
            g <= groups.len(),
            gs == group_views(groups@),
            first_group(gs.take(g as int), video@, opt_text(*from)) is None,
        decreases groups.len() - g,
    {
        proof {
            assert(gs.take(g + 1).drop_last() =~= gs.take(g as int));
            assert(gs.take(g + 1).last() == groups@[g as int]@);
        }
        if str_eq(groups[g].video.as_str(), video) && opt_text_eq(&groups[g].transition_from, from) {
            proof {
                lemma_first_group_prefix(gs, video@, opt_text(*from), g + 1);
                assert(first_group(gs.take(g + 1), video@, opt_text(*from)) == Some(g as int));
            }
            return Some(g);
        }
        g = g + 1;
    }
    proof {
        assert(gs.take(gs.len() as int) =~= gs);
    }
    None
}

/// A match found in a prefix is the first match of the whole sequence.
proof fn lemma_first_group_prefix(gs: Seq<GroupView>, video: Seq<char>, from: Option<Seq<char>>, n: int)
    requires
        0 <= n <= gs.len(),
        first_group(gs.take(n), video, from) is Some,
    ensures
        first_group(gs, video, from) == first_group(gs.take(n), video, from),
    decreases gs.len() - n,
{
    if n < gs.len() {
        assert(gs.take(n + 1).drop_last() =~= gs.take(n));
        lemma_first_group_prefix(gs, video, from, n + 1);
    } else {
        assert(gs.take(n) =~= gs);
    }
}

/// Groups the entries of a multi-output video wallpaper: sorted by output,
/// one group per video and transition source, with the video's audio, and
/// only the first group of each video playing it.
pub fn group_entries(entries: &[VideoEntry]) -> (groups: Vec<VideoGroup>)
    ensures
        group_views(groups@) == groups_spec(entry_views(entries@)),
{
    let ghost input = entry_views(entries@);
    let mut sorted: Vec<VideoEntry> = Vec::new();
    let mut i: usize = 0;
    while i < entries.len()
        invariant
            i <= entries.len(),
            input == entry_views(entries@),
            entry_views(sorted@) == sort_by_output(input.take(i as int)),
        decreases entries.len() - i,
    {
        proof {
            assert(input.take(i + 1).drop_last() =~= input.take(i as int));
            assert(input.take(i + 1).last() == entries@[i as int]@);
        }
        insert_entry(&mut sorted, clone_entry(&entries[i]));
        i = i + 1;
    }
    proof {
        assert(input.take(input.len() as int) =~= input);
    }
    let ghost all = entry_views(sorted@);
    let mut groups: Vec<VideoGroup> = Vec::new();
    let mut k: usize = 0;
    while k < sorted.len()
        invariant
            k <= sorted.len(),
            all == entry_views(sorted@),
            group_views(groups@) == grouped(all.take(k as int), all),
        decreases sorted.len() - k,
    {
        let ghost gs = group_views(groups@);
        proof {
            assert(all.take(k + 1).drop_last() =~= all.take(k as int));
            assert(all.take(k + 1).last() == sorted@[k as int]@);
        }
        let e = &sorted[k];
        let from: Option<String> = match &e.transition_from {
            Some(f) => if str_eq(f.as_str(), e.video.as_str()) {
                None
            } else {
                Some(clone_text(f))
            },
            None => None,
        };
        assert(opt_text(from) == effective_from(e@));
        let ghost expected = grouped(all.take(k + 1), all);
        assert(all.take(k + 1).last() == e@);
        match find_group(&groups, e.video.as_str(), &from) {
            Some(g) => {
                let mut group = groups.remove(g);
                let ghost before_outputs = group.outputs@;
                group.outputs.push(clone_text(&e.output));
                groups.insert(g, group);
                proof {
                    assert(group.outputs@.map_values(|o: String| o@) =~= before_outputs.map_values(
                        |o: String| o@,
                    ).push(e.output@));
                    assert(group_views(groups@) =~= gs.update(
                        g as int,
                        GroupView { outputs: gs[g as int].outputs.push(e@.output), ..gs[g as int] },
                    ));
                    assert(first_group(gs, e@.video, effective_from(e@)) == Some(g as int));
                    assert(group_views(groups@) == expected);
                }
            },
            None => {
                proof {
                    lemma_audio_present(all, k as int);
                }
                let (mute, volume) = audio_of(&sorted, e.video.as_str());
                let mut outputs: Vec<String> = Vec::new();
                outputs.push(clone_text(&e.output));
                let group = VideoGroup {
                    video: clone_text(&e.video),
                    outputs,
                    transition_from: from,
                    mute,
                    volume,
                    with_audio: false,
                };
                groups.push(group);
                proof {
                    assert(group.outputs@.map_values(|o: String| o@) =~= seq![e.output@]);
                    assert(group_views(groups@) =~= gs.push(group@));
                    assert(first_group(gs, e@.video, effective_from(e@)) is None);
                    assert(audio_for(all, e@.video) == Some((mute, volume)));
                    assert(group@.transition_from == effective_from(e@));
                    assert(group_views(groups@) == expected);
                }
            },
        }
        k = k + 1;
    }
    proof {
        assert(all.take(all.len() as int) =~= all);
    }
    let ghost gs = group_views(groups@);
    let mut owned: Vec<VideoGroup> = Vec::new();
    let mut g: usize = 0;
    while g < groups.len()
        invariant
            g <= groups.len(),
            gs == group_views(groups@),
            owned@.len() == g,
            group_views(owned@) == with_audio_owners(gs).take(g as int),
        decreases groups.len() - g,
    {
        let mut first = true;
        let mut j: usize = 0;
        while j < g
            invariant
                j <= g < groups.len(),
                gs == group_views(groups@),
                first == forall|t: int| 0 <= t < j ==> gs[t].video != gs[g as int].video,
            decreases g - j,
        {
            assert(gs[j as int].video == groups@[j as int].video@);
            assert(gs[g as int].video == groups@[g as int].video@);
            if str_eq(groups[j].video.as_str(), groups[g].video.as_str()) {
                first = false;
            }
            j = j + 1;
        }
        let source = &groups[g];
        let mut outputs: Vec<String> = Vec::new();
        let mut o: usize = 0;
        while o < source.outputs.len()
            invariant
                o <= source.outputs.len(),
                outputs@.len() == o,
                outputs@.map_values(|s: String| s@) == source.outputs@.take(o as int).map_values(
                    |s: String| s@,
                ),
            decreases source.outputs.len() - o,
        {
            let ghost prev = outputs@;
            let copy = clone_text(&source.outputs[o]);
            outputs.push(copy);
            proof {
                let want = source.outputs@.take((o + 1) as int).map_values(|s: String| s@);
                let had = source.outputs@.take(o as int).map_values(|s: String| s@);
                assert(prev.map_values(|s: String| s@) == had);
                assert forall|t: int| 0 <= t < o + 1 implies outputs@.map_values(|s: String| s@)[t]
                    == want[t] by {
                    if t < o {
                        assert(outputs@[t] == prev[t]);
                        assert(prev.map_values(|s: String| s@)[t] == had[t]);
                    } else {
                        assert(outputs@[t] == copy);
                    }
                }
                assert(outputs@.map_values(|s: String| s@) =~= want);
            }
            o = o + 1;
        }
        proof {
            assert(source.outputs@.take(source.outputs.len() as int) =~= source.outputs@);
        }
        let copy = VideoGroup {
            video: clone_text(&source.video),
            outputs,
            transition_from: clone_opt_text(&source.transition_from),
            mute: source.mute,
            volume: source.volume,
            with_audio: first,
        };
        let ghost prev_owned = owned@;
        owned.push(copy);
        proof {
            let target = with_audio_owners(gs);
            assert(gs[g as int] == source@);
            assert(copy@ == target[g as int]);
            assert forall|t: int| 0 <= t < g + 1 implies group_views(owned@)[t] == target.take(
                (g + 1) as int,
            )[t] by {
                if t < g {
                    assert(owned@[t] == prev_owned[t]);
                    assert(group_views(prev_owned)[t] == target.take(g as int)[t]);
                }
            }
            assert(group_views(owned@) =~= target.take((g + 1) as int));
        }
        g = g + 1;
    }
    proof {
        assert(with_audio_owners(gs).take(gs.len() as int) =~= with_audio_owners(gs));
    }
    owned
}

proof fn lemma_audio_present(all: Seq<EntryView>, k: int)
    requires
        0 <= k < all.len(),
    ensures
        audio_for(all, all[k].video) is Some,
    decreases all.len(),
{
    if k < all.len() - 1 {
        lemma_audio_present(all.drop_last(), k);
        assert(all.drop_last()[k] == all[k]);
    }
}

/// Some name of `names` is the name of some output.
pub open spec fn shares_name(outputs: Seq<String>, names: Seq<String>) -> bool {
    exists|i: int, j: int|
        0 <= i < names.len() && 0 <= j < outputs.len() && #[trigger] names[i]@
            == #[trigger] outputs[j]@
}

/// Whether a command reaches a group: commands without a target list reach
/// every group, targeted ones the groups that show one of the targets.
pub fn routed_to(outputs: &[String], wanted: Option<&[String]>) -> (routed: bool)
    ensures
        routed == match wanted {
            None => true,
            Some(w) => shares_name(outputs@, w@),
        },
{
    let targets = match wanted {
        None => return true,
        Some(w) => w,
    };
    let mut i: usize = 0;
    while i < targets.len()
        invariant
            wanted == Some(targets),
            i <= targets.len(),
            forall|a: int, b: int|
                0 <= a < i && 0 <= b < outputs.len() ==> #[trigger] targets@[a]@
                    != #[trigger] outputs@[b]@,
        decreases targets.len() - i,
    {
        let mut j: usize = 0;
        while j < outputs.len()
            invariant
                wanted == Some(targets),
                i < targets.len(),
                j <= outputs.len(),
                forall|a: int, b: int|
                    0 <= a < i && 0 <= b < outputs.len() ==> #[trigger] targets@[a]@
                        != #[trigger] outputs@[b]@,
                forall|b: int| 0 <= b < j ==> targets@[i as int]@ != #[trigger] outputs@[b]@,
            decreases outputs.len() - j,
        {
            if str_eq(targets[i].as_str(), outputs[j].as_str()) {
                assert(targets@[i as int]@ == outputs@[j as int]@);
                assert(shares_name(outputs@, targets@));
                return true;
            }
            j = j + 1;
        }
        i = i + 1;
    }
    false
}

/// Each video plays its audio from exactly one group: the first group of a
/// video has audio, and no two groups of one video both have it.
pub proof fn lemma_one_audio_owner_per_video(entries: Seq<EntryView>)
    ensures
        forall|i: int, j: int|
            0 <= i < j < groups_spec(entries).len() && groups_spec(entries)[i].video
                == groups_spec(entries)[j].video ==> !(#[trigger] groups_spec(entries)[i].with_audio
                && #[trigger] groups_spec(entries)[j].with_audio),
        forall|i: int|
            0 <= i < groups_spec(entries).len() && (forall|t: int|
                0 <= t < i ==> groups_spec(entries)[t].video != groups_spec(entries)[i].video)
                ==> #[trigger] groups_spec(entries)[i].with_audio,
{
    let sorted = sort_by_output(entries);
    let raw = grouped(sorted, sorted);
    let gs = groups_spec(entries);
    assert forall|i: int, j: int|
        0 <= i < j < gs.len() && gs[i].video == gs[j].video implies !(#[trigger] gs[i].with_audio
        && #[trigger] gs[j].with_audio) by {
        assert(gs[i].video == raw[i].video && gs[j].video == raw[j].video);
        assert(raw[i].video == raw[j].video);
    }
    assert forall|i: int|
        0 <= i < gs.len() && (forall|t: int| 0 <= t < i ==> gs[t].video != gs[i].video)
        implies #[trigger] gs[i].with_audio by {
        assert forall|t: int| 0 <= t < i implies raw[t].video != raw[i].video by {
            assert(gs[t].video == raw[t].video);
        }
    }
}

/// Entry `i` is the first entry of `video`.
pub open spec fn first_of_video(s: Seq<EntryView>, video: Seq<char>, i: int) -> bool {
    &&& 0 <= i < s.len()
    &&& s[i].video == video
    &&& forall|j: int| 0 <= j < i ==> (#[trigger] s[j]).video != video
}

/// Entry `i` is the first unmuted entry of `video`.
pub open spec fn first_unmuted(s: Seq<EntryView>, video: Seq<char>, i: int) -> bool {
    &&& 0 <= i < s.len()
    &&& s[i].video == video && !s[i].mute
    &&& forall|j: int| 0 <= j < i ==> !((#[trigger] s[j]).video == video && !s[j].mute)
}

/// A video's audio: none without entries of it; playing at the volume of its
/// first unmuted entry when it has one; else muted at the volume of its first
/// entry.
pub proof fn lemma_audio_for_video(s: Seq<EntryView>, video: Seq<char>)
    ensures
        audio_for(s, video) is None <==> forall|j: int| 0 <= j < s.len() ==> (#[trigger] s[j]).video
            != video,
        audio_for(s, video) matches Some((muted, volume)) ==> {
            &&& muted ==> exists|i: int| first_of_video(s, video, i) && s[i].volume == volume
            &&& muted ==> forall|j: int| 0 <= j < s.len() && (#[trigger] s[j]).video == video
                ==> s[j].mute
            &&& !muted ==> exists|i: int| first_unmuted(s, video, i) && s[i].volume == volume
        },
    decreases s.len(),
{
    if s.len() > 0 {
        let rest = s.drop_last();
        lemma_audio_for_video(rest, video);
        let n = s.len() - 1;
        let e = s.last();
        assert forall|j: int| 0 <= j < n implies s[j] == rest[j] by {}
        match audio_for(rest, video) {
            None => {
                if e.video == video {
                    if e.mute {
                        assert(first_of_video(s, video, n));
                        assert forall|j: int| 0 <= j < s.len() && (#[trigger] s[j]).video == video
                            implies s[j].mute by {
                            if j < n {
                                assert(rest[j].video != video);
                            }
                        }
                    } else {
                        assert(first_unmuted(s, video, n)) by {
                            assert forall|j: int| 0 <= j < n implies !((#[trigger] s[j]).video
                                == video && !s[j].mute) by {
                                assert(rest[j].video != video);
                            }
                        }
                    }
                } else {
                    assert forall|j: int| 0 <= j < s.len() implies (#[trigger] s[j]).video != video by {
                        if j < n {
                            assert(rest[j].video != video);
                        }
                    }
                }
            },
            Some((m0, v0)) => {
                let k = choose|k: int| 0 <= k < rest.len() && (#[trigger] rest[k]).video == video;
                assert(s[k].video == video);
                if m0 {
                    let i = choose|i: int| first_of_video(rest, video, i) && rest[i].volume == v0;
                    assert(first_of_video(s, video, i)) by {
                        assert forall|j: int| 0 <= j < i implies (#[trigger] s[j]).video != video by {
                            assert(rest[j].video != video);
                        }
                    }
                    if e.video == video && !e.mute {
                        assert(first_unmuted(s, video, n)) by {
                            assert forall|j: int| 0 <= j < n implies !((#[trigger] s[j]).video
                                == video && !s[j].mute) by {
                                if rest[j].video == video {
                                    assert(rest[j].mute);
                                }
                            }
                        }
                    } else {
                        assert forall|j: int| 0 <= j < s.len() && (#[trigger] s[j]).video == video
                            implies s[j].mute by {
                            if j < n {
                                assert(rest[j].video == video);
                            }
                        }
                    }
                } else {
                    let i = choose|i: int| first_unmuted(rest, video, i) && rest[i].volume == v0;
                    assert(first_unmuted(s, video, i)) by {
                        assert forall|j: int| 0 <= j < i implies !((#[trigger] s[j]).video == video
                            && !s[j].mute) by {
                            assert(s[j] == rest[j]);
                        }
                    }
                }
            },
        }
    }
}

proof fn lemma_first_group(gs: Seq<GroupView>, video: Seq<char>, from: Option<Seq<char>>)
    ensures
        first_group(gs, video, from) is None <==> forall|k: int|
            0 <= k < gs.len() ==> !((#[trigger] gs[k]).video == video && gs[k].transition_from
                == from),
        first_group(gs, video, from) matches Some(g) ==> 0 <= g < gs.len() && gs[g].video == video
            && gs[g].transition_from == from,
    decreases gs.len(),
{
    if gs.len() > 0 {
        let rest = gs.drop_last();
        lemma_first_group(rest, video, from);
        assert forall|k: int| 0 <= k < rest.len() implies rest[k] == gs[k] by {}
        if first_group(rest, video, from) is None && !(gs.last().video == video
            && gs.last().transition_from == from) {
            assert forall|k: int| 0 <= k < gs.len() implies !((#[trigger] gs[k]).video == video
                && gs[k].transition_from == from) by {
                if k < rest.len() {
                    assert(rest[k] == gs[k]);
                }
            }
        }
        if first_group(rest, video, from) is Some {
            let g = first_group(rest, video, from)->0;
            assert(rest[g] == gs[g]);
        }
    }
}

/// Outputs showing the same video from the same transition source share one
/// group: no two groups have both the same video and the same source, and
/// every group holds at least one output.
pub proof fn lemma_groups_are_distinct(s: Seq<EntryView>, all: Seq<EntryView>)
    ensures
        forall|i: int, j: int|
            0 <= i < j < grouped(s, all).len() ==> !((#[trigger] grouped(s, all)[i]).video
                == (#[trigger] grouped(s, all)[j]).video && grouped(s, all)[i].transition_from
                == grouped(s, all)[j].transition_from),
        forall|i: int|
            0 <= i < grouped(s, all).len() ==> (#[trigger] grouped(s, all)[i]).outputs.len() > 0,
        grouped(s, all).len() <= s.len(),
    decreases s.len(),
{
    if s.len() > 0 {
        let rest = s.drop_last();
        lemma_groups_are_distinct(rest, all);
        let gs = grouped(rest, all);
        let e = s.last();
        let from = effective_from(e);
        lemma_first_group(gs, e.video, from);
        let t = grouped(s, all);
        match first_group(gs, e.video, from) {
            Some(g) => {
                assert forall|i: int| 0 <= i < t.len() implies (#[trigger] t[i]).video == gs[i].video
                    && t[i].transition_from == gs[i].transition_from && t[i].outputs.len() > 0 by {
                    if i == g {
                        assert(t[i].outputs == gs[g].outputs.push(e.output));
                    }
                }
                assert forall|i: int, j: int| 0 <= i < j < t.len() implies !((#[trigger] t[i]).video
                    == (#[trigger] t[j]).video && t[i].transition_from == t[j].transition_from) by {
                    assert(t[i].video == gs[i].video && t[j].video == gs[j].video);
                    assert(t[i].transition_from == gs[i].transition_from);
                    assert(t[j].transition_from == gs[j].transition_from);
                    assert(!(gs[i].video == gs[j].video && gs[i].transition_from
                        == gs[j].transition_from));
                }
            },
            None => {
                assert forall|i: int| 0 <= i < gs.len() implies t[i] == gs[i] by {}
                assert forall|i: int, j: int| 0 <= i < j < t.len() implies !((#[trigger] t[i]).video
                    == (#[trigger] t[j]).video && t[i].transition_from == t[j].transition_from) by {
                    if j < gs.len() {
                        assert(t[i] == gs[i] && t[j] == gs[j]);
                        assert(!(gs[i].video == gs[j].video && gs[i].transition_from
                            == gs[j].transition_from));
                    } else {
                        assert(t[i] == gs[i]);
                        assert(!(gs[i].video == e.video && gs[i].transition_from == from));
                    }
                }
                assert forall|i: int| 0 <= i < t.len() implies (#[trigger] t[i]).outputs.len() > 0 by {
                    if i < gs.len() {
                        assert(t[i] == gs[i]);
                    }
                }
            },
        }
    }
}

} // verus!
