use vstd::prelude::*;
use crate::text::{
    has_prefix, parse_u32_range, parse_u32_spec, split_chars, split_on, starts_with, str_eq,
    text_chars,
};

verus! {

/// The first position of `name` among the arguments.
pub open spec fn first_position(args: Seq<String>, name: Seq<char>, i: int) -> bool {
    &&& 0 <= i < args.len()
    &&& args[i]@ == name
    &&& forall|j: int| 0 <= j < i ==> args[j]@ != name
}

/// The argument that follows the first `name`, if both exist.
pub open spec fn flag_value_spec(args: Seq<String>, name: Seq<char>) -> Option<Seq<char>> {
    if exists|i: int| first_position(args, name, i) {
        let i = choose|i: int| first_position(args, name, i);
        if i + 1 < args.len() {
            Some(args[i + 1]@)
        } else {
            None
        }
    } else {
        None
    }
}

/// The value of the first `name` flag.
pub fn parse_flag<'a>(args: &'a [String], name: &str) -> (value: Option<&'a str>)
    ensures
        match value {
            Some(v) => flag_value_spec(args@, name@) == Some(v@),
            None => flag_value_spec(args@, name@) is None,
        },
{
    let mut i: usize = 0;
    while i < args.len()
        invariant
            i <= args.len(),
            forall|j: int| 0 <= j < i ==> args@[j]@ != name@,
        decreases args.len() - i,
    {
        if str_eq(args[i].as_str(), name) {
            proof {
                assert(first_position(args@, name@, i as int));
                let c = choose|c: int| first_position(args@, name@, c);
                if c < i {
                    assert(args@[c]@ != name@);
                } else if c > i {
                    assert(args@[i as int]@ != name@);
                }
            }
            if i + 1 < args.len() {
                return Some(args[i + 1].as_str());
            } else {
                return None;
            }
        }
        i = i + 1;
    }
    None
}

/// Idle seconds read from text: a `u32`, else 0.
pub fn parse_idle_secs(value: Option<&str>) -> (secs: u32)
    ensures
        secs == match value {
            Some(v) => match parse_u32_spec(v@) {
                Some(n) => n,
                None => 0,
            },
            None => 0,
        },
{
    match value {
        Some(v) => match crate::text::parse_u32_str(v) {
            Some(n) => n,
            None => 0,
        },
        None => 0,
    }
}

/// Which presentation path renders: transitions always take `dmabuf-present`;
/// otherwise an explicit path is kept, except that none or the retired `cpu`
/// path take `shared` on KWin and `dmabuf-present` elsewhere.
pub fn renderer_path<'a>(explicit: Option<&'a str>, kwin: bool, transition: bool) -> (path: &'a str)
    ensures
        path@ == if transition {
            "dmabuf-present"@
        } else {
            match explicit {
                Some(p) => if p@ == "cpu"@ {
                    if kwin {
                        "shared"@
                    } else {
                        "dmabuf-present"@
                    }
                } else {
                    p@
                },
                None => if kwin {
                    "shared"@
                } else {
                    "dmabuf-present"@
                },
            }
        },
{
    if transition {
        return "dmabuf-present";
    }
    let default = if kwin {
        "shared"
    } else {
        "dmabuf-present"
    };
    match explicit {
        Some(p) => {
            if str_eq(p, "cpu") {
                default
            } else {
                p
            }
        },
        None => default,
    }
}

/// Some argument equals `name`.
pub open spec fn has_arg(args: Seq<String>, name: Seq<char>) -> bool {
    exists|i: int| 0 <= i < args.len() && #[trigger] args[i]@ == name
}

fn any_arg(args: &[String], name: &str) -> (found: bool)
    ensures
        found == has_arg(args@, name@),
{
    let mut i: usize = 0;
    while i < args.len()
        invariant
            i <= args.len(),
            forall|j: int| 0 <= j < i ==> args@[j]@ != name@,
        decreases args.len() - i,
    {
        if str_eq(args[i].as_str(), name) {
            assert(args@[i as int]@ == name@);
            return true;
        }
        i = i + 1;
    }
    false
}

/// Control commands are read from standard input unless `--standalone` is given.
pub fn control_stdin_enabled(args: &[String]) -> (enabled: bool)
    ensures
        enabled == !has_arg(args@, "--standalone"@),
{
    !any_arg(args, "--standalone")
}

/// A transition is held until told to finish when `--transition-hold` is given.
pub fn transition_hold_enabled(args: &[String]) -> (held: bool)
    ensures
        held == has_arg(args@, "--transition-hold"@),
{
    any_arg(args, "--transition-hold")
}

/// The audio settings after one `key=value` part: `mute=` is on for `yes`,
/// `true` or `1`; `volume=` takes a `u32`, capped at 100.
pub open spec fn apply_part(part: Seq<char>, mute: bool, volume: u32) -> (bool, u32) {
    let m = if has_prefix(part, "mute="@) {
        let text = part.subrange(5, part.len() as int);
        text == "yes"@ || text == "true"@ || text == "1"@
    } else {
        mute
    };
    let v = if has_prefix(part, "volume="@) {
        match parse_u32_spec(part.subrange(7, part.len() as int)) {
            Some(n) => if n > 100 {
                100u32
            } else {
                n
            },
            None => volume,
        }
    } else {
        volume
    };
    (m, v)
}

/// The audio settings after the parts, in order.
pub open spec fn apply_parts(parts: Seq<Seq<char>>, mute: bool, volume: u32) -> (bool, u32)
    decreases parts.len(),
{
    if parts.len() == 0 {
        (mute, volume)
    } else {
        let (m, v) = apply_parts(parts.drop_last(), mute, volume);
        apply_part(parts.last(), m, v)
    }
}

/// The audio settings the arguments from `i` on give: each `-o` takes the
/// next argument as `;`-separated parts; a final `-o` without value ends.
pub open spec fn audio_spec(args: Seq<String>, i: nat, mute: bool, volume: u32) -> (bool, u32)
    decreases args.len() - i,
{
    if i >= args.len() {
        (mute, volume)
    } else if args[i as int]@ != "-o"@ {
        audio_spec(args, i + 1, mute, volume)
    } else if i + 1 >= args.len() {
        (mute, volume)
    } else {
        let (m, v) = apply_parts(split_on(args[i + 1int]@, ';'), mute, volume);
        audio_spec(args, i + 2, m, v)
    }
}

fn chars_are(s: &[char], start: usize, text: &str) -> (same: bool)
    requires
        start <= s.len(),
    ensures
        same == (s@.subrange(start as int, s@.len() as int) == text@),
{
    let t = text_chars(text);
    if s.len() - start != t.len() {
        return false;
    }
    let mut i: usize = 0;
    while i < t.len()
        invariant
            t@ == text@,
            s.len() - start == t.len(),
            i <= t.len(),
            forall|j: int| 0 <= j < i ==> s@[start + j] == t@[j],
        decreases t.len() - i,
    {
        if s[start + i] != t[i] {
            assert(s@.subrange(start as int, s@.len() as int)[i as int] != t@[i as int]);
            return false;
        }
        i = i + 1;
    }
    assert(s@.subrange(start as int, s@.len() as int) =~= t@);
    true
}

fn apply_audio_part(part: &[char], mute: bool, volume: u32) -> (settings: (bool, u32))
    ensures
        settings == apply_part(part@, mute, volume),
{
    proof {
        reveal_strlit("mute=");
        reveal_strlit("volume=");
        reveal_strlit("yes");
        reveal_strlit("true");
        reveal_strlit("1");
    }
    let mute_prefix = text_chars("mute=");
    let volume_prefix = text_chars("volume=");
    let mut m = mute;
    let mut v = volume;
    if starts_with(part, mute_prefix.as_slice()) {
        m = chars_are(part, 5, "yes") || chars_are(part, 5, "true") || chars_are(part, 5, "1");
    }
    if starts_with(part, volume_prefix.as_slice()) {
        match parse_u32_range(part, 7, part.len()) {
            Some(n) => {
                v = if n > 100 {
                    100
                } else {
                    n
                };
            },
            None => {},
        }
    }
    (m, v)
}

/// Reads `-o mute=..;volume=..` audio options; muted at volume 80 by default.
pub fn parse_audio_opts(args: &[String]) -> (settings: (bool, u32))
    ensures
        settings == audio_spec(args@, 0, true, 80),
{
    let mut mute = true;
    let mut volume: u32 = 80;
    let mut i: usize = 0;
    proof {
        reveal_strlit("-o");
    }
    while i < args.len()
        invariant_except_break
            i <= args.len() + 1,
            audio_spec(args@, 0, true, 80) == audio_spec(args@, i as nat, mute, volume),
        ensures
            audio_spec(args@, 0, true, 80) == (mute, volume),
        decreases args.len() + 1 - i,
    {
        if !str_eq(args[i].as_str(), "-o") {
            i = i + 1;
            continue;
        }
        if i + 1 >= args.len() {
            assert(audio_spec(args@, i as nat, mute, volume) == (mute, volume));
            break;
        }
        let value = text_chars(args[i + 1].as_str());
        let parts = split_chars(value.as_slice(), ';');
        let ghost all = parts@.map_values(|p: Vec<char>| p@);
        let ghost start = (mute, volume);
        let mut k: usize = 0;
        while k < parts.len()
            invariant
                k <= parts.len(),
                all == parts@.map_values(|p: Vec<char>| p@),
                (mute, volume) == apply_parts(all.subrange(0, k as int), start.0, start.1),
            decreases parts.len() - k,
        {
            proof {
                assert(all.subrange(0, k + 1).drop_last() =~= all.subrange(0, k as int));
            }
            let (m, v) = apply_audio_part(parts[k].as_slice(), mute, volume);
            mute = m;
            volume = v;
            k = k + 1;
        }
        assert(all.subrange(0, all.len() as int) =~= all);
        i = i + 2;
    }
    (mute, volume)
}

proof fn lemma_parts_keep_cap(parts: Seq<Seq<char>>, mute: bool, volume: u32)
    requires
        volume <= 100,
    ensures
        apply_parts(parts, mute, volume).1 <= 100,
    decreases parts.len(),
{
    if parts.len() > 0 {
        lemma_parts_keep_cap(parts.drop_last(), mute, volume);
    }
}

proof fn lemma_audio_keeps_cap(args: Seq<String>, i: nat, mute: bool, volume: u32)
    requires
        volume <= 100,
    ensures
        audio_spec(args, i, mute, volume).1 <= 100,
    decreases args.len() - i,
{
    if i < args.len() {
        if args[i as int]@ != "-o"@ {
            lemma_audio_keeps_cap(args, i + 1, mute, volume);
        } else if i + 1 < args.len() {
            let parts = split_on(args[i + 1int]@, ';');
            lemma_parts_keep_cap(parts, mute, volume);
            let (m, v) = apply_parts(parts, mute, volume);
            lemma_audio_keeps_cap(args, i + 2, m, v);
        }
    }
}

/// Whatever the arguments, the audio volume read from them is at most 100.
pub proof fn lemma_audio_volume_at_most_100(args: Seq<String>)
    ensures
        audio_spec(args, 0, true, 80).1 <= 100,
{
    lemma_audio_keeps_cap(args, 0, true, 80);
}

/// A flag's value is the argument right after its first occurrence: with
/// `name` absent from `before`, the arguments `before`, `name`, `value`, ...
/// give `value`, whatever follows; a flag that is the last argument has none.
pub proof fn lemma_flag_value_follows_first(
    before: Seq<String>,
    flag: String,
    value: String,
    after: Seq<String>,
)
    requires
        forall|j: int| 0 <= j < before.len() ==> before[j]@ != flag@,
    ensures
        flag_value_spec(before + seq![flag, value] + after, flag@) == Some(value@),
        flag_value_spec(before + seq![flag], flag@) is None,
        flag_value_spec(before, flag@) is None,
{
    let args = before + seq![flag, value] + after;
    let k = before.len() as int;
    assert(args[k] == flag);
    assert(args[k + 1] == value);
    assert(first_position(args, flag@, k)) by {
        assert forall|j: int| 0 <= j < k implies args[j]@ != flag@ by {
            assert(args[j] == before[j]);
        }
    }
    let c = choose|c: int| first_position(args, flag@, c);
    if c < k {
        assert(args[c] == before[c]);
    }
    let last = before + seq![flag];
    assert(last[k] == flag);
    assert(first_position(last, flag@, k)) by {
        assert forall|j: int| 0 <= j < k implies last[j]@ != flag@ by {
            assert(last[j] == before[j]);
        }
    }
    let d = choose|d: int| first_position(last, flag@, d);
    if d < k {
        assert(last[d] == before[d]);
    }
    assert(!exists|i: int| first_position(before, flag@, i));
}

/// One audio part: `mute=` mutes exactly for `yes`, `true` or `1` and keeps
/// the volume; `volume=` takes a number capped at 100 and keeps the mute, or
/// changes nothing when the number does not parse; other parts change nothing.
pub proof fn lemma_audio_part(text: Seq<char>, other: Seq<char>, mute: bool, volume: u32)
    requires
        !has_prefix(other, "mute="@),
        !has_prefix(other, "volume="@),
    ensures
        apply_part("mute="@ + text, mute, volume) == (text == "yes"@ || text == "true"@ || text
            == "1"@, volume),
        apply_part("volume="@ + text, mute, volume) == (mute, match parse_u32_spec(text) {
            Some(n) => if n > 100 {
                100u32
            } else {
                n
            },
            None => volume,
        }),
        apply_part(other, mute, volume) == (mute, volume),
{
    reveal_strlit("mute=");
    reveal_strlit("volume=");
    let m = "mute="@ + text;
    assert(m.subrange(0, 5) =~= "mute="@);
    assert(m.subrange(5, m.len() as int) =~= text);
    assert(!has_prefix(m, "volume="@)) by {
        if has_prefix(m, "volume="@) {
            assert(m[0] == "volume="@[0]);
        }
    }
    let v = "volume="@ + text;
    assert(v.subrange(0, 7) =~= "volume="@);
    assert(v.subrange(7, v.len() as int) =~= text);
    assert(!has_prefix(v, "mute="@)) by {
        if has_prefix(v, "mute="@) {
            assert(v[0] == "mute="@[0]);
        }
    }
}

/// Without any `-o` argument the audio keeps its defaults: muted at 80.
pub proof fn lemma_audio_defaults_without_options(args: Seq<String>, i: nat, mute: bool, volume: u32)
    requires
        forall|j: int| 0 <= j < args.len() ==> args[j]@ != "-o"@,
    ensures
        audio_spec(args, i, mute, volume) == (mute, volume),
    decreases args.len() - i,
{
    if i < args.len() {
        lemma_audio_defaults_without_options(args, i + 1, mute, volume);
    }
}

} // verus!
