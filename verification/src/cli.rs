use vstd::prelude::*;
use crate::fill::FillMode;
use crate::frame::{
    ColorMatrix, FrameRate, MAX_FRAME_EDGE, MAX_FRAME_PIXELS, RateError, is_first, parse_rate_spec,
    positive_spec,
};
use crate::text::{find_char, split_on, parse_u32_range, parse_u32_spec, str_eq, string_of, text_chars};

verus! {

/// Which argument was not valid UTF-8.
#[derive(Clone, Copy, Debug, PartialEq, Eq, Structural)]
pub enum TextLabel {
    OutputName,
    FrameStreamSize,
    FillMode,
    FrameRate,
}

/// Why a `WIDTHxHEIGHT` size was refused.
#[derive(Clone, Copy, Debug, PartialEq, Eq, Structural)]
pub enum SizeError {
    /// There is no `x`.
    Format,
    /// The width is not a `u32`.
    Width,
    /// The height is not a `u32`.
    Height,
    /// A side is below 16.
    TooSmall,
    /// A side is above `MAX_FRAME_EDGE` or the area above `MAX_FRAME_PIXELS`.
    TooLarge,
}

/// Why the command line was refused.
#[derive(Clone, Copy, Debug, PartialEq, Eq, Structural)]
pub enum CliError {
    /// `--output` is the last argument.
    OutputMissing,
    /// `--frame-stream` is the last argument.
    FrameStreamMissing,
    /// `--fill-mode` is the last argument.
    FillModeMissing,
    /// An argument read as text is not valid UTF-8.
    NotUtf8(TextLabel),
    /// The output list has an empty, duplicated or dash-led name.
    Outputs,
    /// The frame stream size is refused.
    Size(SizeError),
    /// The fill mode is not known.
    UnknownFillMode,
    /// There are not two or three positional arguments.
    Positionals,
    /// The frame rate is refused.
    Rate(RateError),
    /// The colour matrix is neither `bt601` nor `bt709`.
    ColorMatrix,
    /// The probe loop count is not a positive decimal `u32`.
    ProbeLoops(RateError),
    /// Decode-only mode is requested without probe loops or with a value other than `1`.
    DecodeOnly,
}

/// The parts of `s` between commas, as `str::split(',')` yields them.
pub open spec fn split_commas(s: Seq<char>) -> Seq<Seq<char>> {
    split_on(s, ',')
}

/// The output names a `--output` value lists: the comma-separated parts, when
/// none is empty, none starts with `-` and none repeats.
pub open spec fn outputs_spec(s: Seq<char>) -> Option<Seq<Seq<char>>> {
    let parts = split_commas(s);
    if exists|i: int| 0 <= i < parts.len() && (parts[i].len() == 0 || parts[i][0] == '-') {
        None
    } else if exists|i: int, j: int| 0 <= i < j < parts.len() && parts[i] == parts[j] {
        None
    } else {
        Some(parts)
    }
}

/// The characters of each string.
pub open spec fn strings_view(v: Seq<String>) -> Seq<Seq<char>> {
    v.map_values(|s: String| s@)
}

proof fn lemma_first_unique(s: Seq<char>, c: char, i: int)
    requires
        is_first(s, c, i),
    ensures
        s.contains(c),
        (choose|j: int| is_first(s, c, j)) == i,
{
    assert(s[i] == c);
    let j = choose|j: int| is_first(s, c, j);
    if j < i {
        assert(s[j] != c);
    } else if j > i {
        assert(s[i] != c);
    }
}

/// Splits a `--output` value into output names.
pub fn parse_outputs(value: &str) -> (outputs: Result<Vec<String>, CliError>)
    ensures
        match outputs {
            Ok(v) => outputs_spec(value@) == Some(strings_view(v@)),
            Err(e) => outputs_spec(value@) is None && e == CliError::Outputs,
        },
{
    let chars = text_chars(value);
    let n = chars.len();
    let mut parts: Vec<String> = Vec::new();
    let mut current: Vec<char> = Vec::new();
    let mut i: usize = 0;
    assert(value@.subrange(0, 0) =~= Seq::<char>::empty());
    while i < n
        invariant
            chars@ == value@,
            n == chars.len(),
            i <= n,
            split_commas(value@.subrange(0, i as int)) == strings_view(parts@).push(current@),
        decreases n - i,
    {
        let c = chars[i];
        let ghost prefix = value@.subrange(0, i + 1);
        proof {
            assert(prefix.drop_last() =~= value@.subrange(0, i as int));
            assert(prefix.last() == c);
        }
        if c == ',' {
            let part = string_of(current.as_slice());
            let ghost before = parts@;
            parts.push(part);
            current = Vec::new();
            proof {
                assert(strings_view(parts@) =~= strings_view(before).push(part@));
                assert(split_commas(prefix) =~= strings_view(parts@).push(current@));
            }
        } else {
            current.push(c);
            proof {
                let old_parts = strings_view(parts@).push(current@.drop_last());
                assert(split_commas(prefix) =~= strings_view(parts@).push(current@));
            }
        }
        i = i + 1;
    }
    let part = string_of(current.as_slice());
    let ghost before = parts@;
    parts.push(part);
    proof {
        assert(value@.subrange(0, n as int) =~= value@);
        assert(strings_view(parts@) =~= strings_view(before).push(part@));
    }
    let ghost view = strings_view(parts@);
    assert(view == split_commas(value@));
    let mut i: usize = 0;
    while i < parts.len()
        invariant
            view == strings_view(parts@),
            view == split_commas(value@),
            i <= parts.len(),
            forall|k: int| 0 <= k < i ==> !(view[k].len() == 0 || view[k][0] == '-'),
        decreases parts.len() - i,
    {
        let part = text_chars(parts[i].as_str());
        assert(part@ == view[i as int]);
        if part.len() == 0 || part[0] == '-' {
            assert(view[i as int].len() == 0 || view[i as int][0] == '-');
            return Err(CliError::Outputs);
        }
        i = i + 1;
    }
    let mut a: usize = 0;
    while a < parts.len()
        invariant
            view == strings_view(parts@),
            view == split_commas(value@),
            a <= parts.len(),
            forall|k: int| 0 <= k < view.len() ==> !(view[k].len() == 0 || view[k][0] == '-'),
            forall|x: int, y: int| 0 <= x < a && x < y < view.len() ==> view[x] != view[y],
        decreases parts.len() - a,
    {
        let mut b: usize = a + 1;
        while b < parts.len()
            invariant
                view == strings_view(parts@),
                view == split_commas(value@),
                a < parts.len(),
                a + 1 <= b <= parts.len(),
                forall|k: int| 0 <= k < view.len() ==> !(view[k].len() == 0 || view[k][0] == '-'),
                forall|x: int, y: int| 0 <= x < a && x < y < view.len() ==> view[x] != view[y],
                forall|y: int| a < y < b ==> view[a as int] != view[y],
            decreases parts.len() - b,
        {
            if str_eq(parts[a].as_str(), parts[b].as_str()) {
                assert(view[a as int] == view[b as int]);
                return Err(CliError::Outputs);
            }
            b = b + 1;
        }
        a = a + 1;
    }
    Ok(parts)
}

/// What `parse_size` returns for `WIDTHxHEIGHT`.
pub open spec fn size_spec(s: Seq<char>) -> Result<(u32, u32), SizeError> {
    if !s.contains('x') {
        Err(SizeError::Format)
    } else {
        let i = choose|i: int| is_first(s, 'x', i);
        match parse_u32_spec(s.subrange(0, i)) {
            None => Err(SizeError::Width),
            Some(w) => match parse_u32_spec(s.subrange(i + 1, s.len() as int)) {
                None => Err(SizeError::Height),
                Some(h) => if w < 16 || h < 16 {
                    Err(SizeError::TooSmall)
                } else if w > MAX_FRAME_EDGE || h > MAX_FRAME_EDGE || w * h > MAX_FRAME_PIXELS {
                    Err(SizeError::TooLarge)
                } else {
                    Ok((w, h))
                },
            },
        }
    }
}

/// Parses a frame stream size written `WIDTHxHEIGHT`, each side at least 16
/// and within the frame caps.
pub fn parse_size(value: &str) -> (size: Result<(u32, u32), SizeError>)
    ensures
        size == size_spec(value@),
{
    let chars = text_chars(value);
    let n = chars.len();
    match find_char(chars.as_slice(), 'x', 0, n) {
        None => {
            assert(!value@.contains('x'));
            Err(SizeError::Format)
        },
        Some(i) => {
            proof {
                lemma_first_unique(value@, 'x', i as int);
            }
            let width = match parse_u32_range(chars.as_slice(), 0, i) {
                Some(w) => w,
                None => return Err(SizeError::Width),
            };
            let height = match parse_u32_range(chars.as_slice(), i + 1, n) {
                Some(h) => h,
                None => return Err(SizeError::Height),
            };
            if width < 16 || height < 16 {
                return Err(SizeError::TooSmall);
            }
            proof {
                crate::frame::lemma_u32_product_fits(width, height);
            }
            if width > MAX_FRAME_EDGE || height > MAX_FRAME_EDGE || (width as u64) * (height as u64)
                > MAX_FRAME_PIXELS {
                return Err(SizeError::TooLarge);
            }
            Ok((width, height))
        },
    }
}

/// Options of one run of the player.
pub struct Options {
    /// Output names to show the wallpaper on, or all outputs when `None`.
    pub outputs: Option<Vec<String>>,
    /// Position of the input path among the arguments.
    pub input: usize,
    pub frame_rate: FrameRate,
    pub matrix: ColorMatrix,
    pub probe_loops: u32,
    pub decode_only: bool,
    /// Size of frames written to standard output instead of a compositor.
    pub stream_size: Option<(u32, u32)>,
    pub fill_mode: FillMode,
    pub paused: bool,
    pub stream_no_header: bool,
}

/// The outcome of reading the command line.
pub enum ParseResult {
    Run(Options),
    Help,
    Version,
}

/// An optional list of strings as plain values.
pub open spec fn outputs_view(outputs: Option<Vec<String>>) -> Option<Seq<Seq<char>>> {
    match outputs {
        Some(v) => Some(strings_view(v@)),
        None => None,
    }
}

/// The options as plain values.
pub struct OptionsView {
    pub outputs: Option<Seq<Seq<char>>>,
    pub input: usize,
    pub frame_rate: FrameRate,
    pub matrix: ColorMatrix,
    pub probe_loops: u32,
    pub decode_only: bool,
    pub stream_size: Option<(u32, u32)>,
    pub fill_mode: FillMode,
    pub paused: bool,
    pub stream_no_header: bool,
}

/// The outcome as plain values.
pub enum ParsedView {
    Run(OptionsView),
    Help,
    Version,
}

impl Options {
    /// The options as plain values.
    pub open spec fn view(&self) -> OptionsView {
        OptionsView {
            outputs: outputs_view(self.outputs),
            input: self.input,
            frame_rate: self.frame_rate,
            matrix: self.matrix,
            probe_loops: self.probe_loops,
            decode_only: self.decode_only,
            stream_size: self.stream_size,
            fill_mode: self.fill_mode,
            paused: self.paused,
            stream_no_header: self.stream_no_header,
        }
    }
}

impl ParseResult {
    /// The outcome as plain values.
    pub open spec fn view(&self) -> ParsedView {
        match self {
            ParseResult::Run(o) => ParsedView::Run(o.view()),
            ParseResult::Help => ParsedView::Help,
            ParseResult::Version => ParsedView::Version,
        }
    }
}

/// The flags read so far.
pub struct FlagState {
    pub outputs: Option<Seq<Seq<char>>>,
    pub stream_size: Option<(u32, u32)>,
    pub fill_mode: FillMode,
    pub paused: bool,
    pub stream_no_header: bool,
}

/// The argument is valid UTF-8 text equal to `text`.
pub open spec fn is_arg(arg: Option<String>, text: Seq<char>) -> bool {
    arg matches Some(t) && t@ == text
}

/// Reads the leading flags from `index` on. Each flag that takes a value reads
/// the next argument; the first argument that is no flag ends the flags.
/// `fills[i]` is the fill mode that argument `i` names, if any.
pub open spec fn flags_spec(
    args: Seq<Option<String>>,
    fills: Seq<Option<FillMode>>,
    index: nat,
    st: FlagState,
) -> Result<(FlagState, nat), CliError>
    decreases args.len() - index,
{
    if index >= args.len() {
        Ok((st, index))
    } else {
        let arg = args[index as int];
        if is_arg(arg, "--output"@) {
            if index + 1 >= args.len() {
                Err(CliError::OutputMissing)
            } else {
                match args[index + 1int] {
                    None => Err(CliError::NotUtf8(TextLabel::OutputName)),
                    Some(t) => match outputs_spec(t@) {
                        None => Err(CliError::Outputs),
                        Some(o) => flags_spec(
                            args,
                            fills,
                            index + 2,
                            FlagState { outputs: Some(o), ..st },
                        ),
                    },
                }
            }
        } else if is_arg(arg, "--frame-stream"@) {
            if index + 1 >= args.len() {
                Err(CliError::FrameStreamMissing)
            } else {
                match args[index + 1int] {
                    None => Err(CliError::NotUtf8(TextLabel::FrameStreamSize)),
                    Some(t) => match size_spec(t@) {
                        Err(e) => Err(CliError::Size(e)),
                        Ok(size) => flags_spec(
                            args,
                            fills,
                            index + 2,
                            FlagState { stream_size: Some(size), ..st },
                        ),
                    },
                }
            }
        } else if is_arg(arg, "--fill-mode"@) {
            if index + 1 >= args.len() {
                Err(CliError::FillModeMissing)
            } else if args[index + 1int] is None {
                Err(CliError::NotUtf8(TextLabel::FillMode))
            } else {
                match fills[index + 1int] {
                    None => Err(CliError::UnknownFillMode),
                    Some(mode) => flags_spec(
                        args,
                        fills,
                        index + 2,
                        FlagState { fill_mode: mode, ..st },
                    ),
                }
            }
        } else if is_arg(arg, "--paused"@) {
            flags_spec(args, fills, index + 1, FlagState { paused: true, ..st })
        } else if is_arg(arg, "--stream-no-header"@) {
            flags_spec(args, fills, index + 1, FlagState { stream_no_header: true, ..st })
        } else {
            Ok((st, index))
        }
    }
}

/// No flag read yet.
pub open spec fn start_flags() -> FlagState {
    FlagState {
        outputs: None,
        stream_size: None,
        fill_mode: FillMode::Fill,
        paused: false,
        stream_no_header: false,
    }
}

/// What `parse_from` returns: help or version alone, else leading flags
/// followed by the input path, the frame rate and an optional colour matrix.
pub open spec fn parse_spec(args: Seq<Option<String>>, fills: Seq<Option<FillMode>>) -> Result<
    ParsedView,
    CliError,
> {
    if args.len() == 1 && (is_arg(args[0], "-h"@) || is_arg(args[0], "--help"@)) {
        Ok(ParsedView::Help)
    } else if args.len() == 1 && (is_arg(args[0], "-V"@) || is_arg(args[0], "--version"@)) {
        Ok(ParsedView::Version)
    } else {
        match flags_spec(args, fills, 0, start_flags()) {
            Err(e) => Err(e),
            Ok((st, index)) => {
                let count = args.len() - index;
                if count < 2 || count > 3 {
                    Err(CliError::Positionals)
                } else {
                    match args[index + 1int] {
                        None => Err(CliError::NotUtf8(TextLabel::FrameRate)),
                        Some(t) => match parse_rate_spec(t@) {
                            Err(e) => Err(CliError::Rate(e)),
                            Ok(rate) => {
                                let matrix = if count == 2 || is_arg(args[index + 2int], "bt709"@) {
                                    Some(ColorMatrix::Bt709)
                                } else if is_arg(args[index + 2int], "bt601"@) {
                                    Some(ColorMatrix::Bt601)
                                } else {
                                    None
                                };
                                match matrix {
                                    None => Err(CliError::ColorMatrix),
                                    Some(matrix) => Ok(
                                        ParsedView::Run(
                                            OptionsView {
                                                outputs: st.outputs,
                                                input: index as usize,
                                                frame_rate: rate,
                                                matrix,
                                                probe_loops: 0,
                                                decode_only: false,
                                                stream_size: st.stream_size,
                                                fill_mode: st.fill_mode,
                                                paused: st.paused,
                                                stream_no_header: st.stream_no_header,
                                            },
                                        ),
                                    ),
                                }
                            },
                        },
                    }
                }
            },
        }
    }
}

fn arg_is(arg: &Option<String>, text: &str) -> (same: bool)
    ensures
        same == is_arg(*arg, text@),
{
    match arg {
        Some(t) => str_eq(t.as_str(), text),
        None => false,
    }
}

impl Options {
    /// Reads the command line. Each argument is its text, or `None` when it is not
    /// valid UTF-8; `fill_modes[i]` is the fill mode argument `i` names, if any.
    pub fn parse_from(arguments: &[Option<String>], fill_modes: &[Option<FillMode>]) -> (result:
        Result<ParseResult, CliError>)
        requires
            fill_modes.len() == arguments.len(),
        ensures
            match result {
                Ok(parsed) => parse_spec(arguments@, fill_modes@) == Ok::<ParsedView, CliError>(
                    parsed.view(),
                ),
                Err(e) => parse_spec(arguments@, fill_modes@) == Err::<ParsedView, CliError>(e),
            },
    {
        let n = arguments.len();
        if n == 1 && (arg_is(&arguments[0], "-h") || arg_is(&arguments[0], "--help")) {
            return Ok(ParseResult::Help);
        }
        if n == 1 && (arg_is(&arguments[0], "-V") || arg_is(&arguments[0], "--version")) {
            return Ok(ParseResult::Version);
        }
        let mut outputs: Option<Vec<String>> = None;
        let mut stream_size: Option<(u32, u32)> = None;
        let mut fill_mode = FillMode::Fill;
        let mut paused = false;
        let mut stream_no_header = false;
        let mut index: usize = 0;
        let ghost start = start_flags();
        loop
            invariant
                n == arguments.len(),
                fill_modes.len() == n,
                index <= n,
                start == start_flags(),
                !(n == 1 && (is_arg(arguments@[0], "-h"@) || is_arg(arguments@[0], "--help"@))),
                !(n == 1 && (is_arg(arguments@[0], "-V"@) || is_arg(arguments@[0], "--version"@))),
                flags_spec(arguments@, fill_modes@, 0, start) == flags_spec(
                    arguments@,
                    fill_modes@,
                    index as nat,
                    FlagState {
                        outputs: outputs_view(outputs),
                        stream_size,
                        fill_mode,
                        paused,
                        stream_no_header,
                    },
                ),
            ensures
                index <= n,
                flags_spec(arguments@, fill_modes@, 0, start) == Ok::<(FlagState, nat), CliError>(
                    (
                        FlagState {
                            outputs: outputs_view(outputs),
                            stream_size,
                            fill_mode,
                            paused,
                            stream_no_header,
                        },
                        index as nat,
                    ),
                ),
            decreases n - index,
        {
            if index >= n {
                break;
            }
            proof {
                reveal_strlit("--output");
                reveal_strlit("--frame-stream");
                reveal_strlit("--fill-mode");
                reveal_strlit("--paused");
                reveal_strlit("--stream-no-header");
                reveal_strlit("-h");
                reveal_strlit("--help");
                reveal_strlit("-V");
                reveal_strlit("--version");
            }
            let argument = &arguments[index];
            let ghost st = FlagState {
                outputs: outputs_view(outputs),
                stream_size,
                fill_mode,
                paused,
                stream_no_header,
            };
            if arg_is(argument, "--output") {
                if index + 1 >= n {
                    assert(flags_spec(arguments@, fill_modes@, index as nat, st) == Err::<
                        (FlagState, nat),
                        CliError,
                    >(CliError::OutputMissing));
                    return Err(CliError::OutputMissing);
                }
                match &arguments[index + 1] {
                    None => return Err(CliError::NotUtf8(TextLabel::OutputName)),
                    Some(value) => {
                        match parse_outputs(value.as_str()) {
                            Ok(list) => {
                                outputs = Some(list);
                            },
                            Err(e) => return Err(e),
                        }
                    },
                }
                index = index + 2;
            } else if arg_is(argument, "--frame-stream") {
                if index + 1 >= n {
                    return Err(CliError::FrameStreamMissing);
                }
                match &arguments[index + 1] {
                    None => return Err(CliError::NotUtf8(TextLabel::FrameStreamSize)),
                    Some(value) => {
                        match parse_size(value.as_str()) {
                            Ok(size) => {
                                stream_size = Some(size);
                            },
                            Err(e) => return Err(CliError::Size(e)),
                        }
                    },
                }
                index = index + 2;
            } else if arg_is(argument, "--fill-mode") {
                if index + 1 >= n {
                    assert(flags_spec(arguments@, fill_modes@, index as nat, st) == Err::<
                        (FlagState, nat),
                        CliError,
                    >(CliError::FillModeMissing));
                    return Err(CliError::FillModeMissing);
                }
                if arguments[index + 1].is_none() {
                    return Err(CliError::NotUtf8(TextLabel::FillMode));
                }
                match fill_modes[index + 1] {
                    None => return Err(CliError::UnknownFillMode),
                    Some(mode) => {
                        fill_mode = mode;
                    },
                }
                index = index + 2;
            } else if arg_is(argument, "--paused") {
                paused = true;
                index = index + 1;
            } else if arg_is(argument, "--stream-no-header") {
                stream_no_header = true;
                index = index + 1;
            } else {
                break;
            }
        }
        let count = n - index;
        if count < 2 || count > 3 {
            return Err(CliError::Positionals);
        }
        let frame_rate = match &arguments[index + 1] {
            None => return Err(CliError::NotUtf8(TextLabel::FrameRate)),
            Some(text) => match FrameRate::parse(text.as_str()) {
                Ok(rate) => rate,
                Err(e) => return Err(CliError::Rate(e)),
            },
        };
        proof {
            reveal_strlit("bt709");
            reveal_strlit("bt601");
        }
        let matrix = if count == 2 || arg_is(&arguments[index + 2], "bt709") {
            ColorMatrix::Bt709
        } else if arg_is(&arguments[index + 2], "bt601") {
            ColorMatrix::Bt601
        } else {
            return Err(CliError::ColorMatrix);
        };
        Ok(
            ParseResult::Run(
                Options {
                    outputs,
                    input: index,
                    frame_rate,
                    matrix,
                    probe_loops: 0,
                    decode_only: false,
                    stream_size,
                    fill_mode,
                    paused,
                    stream_no_header,
                },
            ),
        )
    }
}

/// Parses a positive decimal integer read from the environment.
pub fn parse_positive_env(value: &str) -> (parsed: Result<u32, RateError>)
    ensures
        parsed == positive_spec(value@),
{
    let chars = text_chars(value);
    let r = crate::frame::parse_positive(chars.as_slice(), 0, chars.len());
    assert(chars@.subrange(0, chars@.len() as int) =~= value@);
    r
}

/// Applies the probe settings read from the environment: a probe loop count,
/// and decode-only mode, which needs probe loops and must be `1`.
pub fn apply_probe_env(options: &mut Options, loops: Option<&str>, decode_only: Option<&str>) -> (result:
    Result<(), CliError>)
    ensures
        ({
            let count = match loops {
                Some(v) => positive_spec(v@),
                None => Ok::<u32, RateError>(0u32),
            };
            match count {
                Err(e) => result == Err::<(), CliError>(CliError::ProbeLoops(e)),
                Ok(n) => match decode_only {
                    None => result is Ok && final(options).view() == (OptionsView {
                        probe_loops: n,
                        decode_only: false,
                        ..old(options).view()
                    }),
                    Some(d) => if d@ == "1"@ && n > 0 {
                        result is Ok && final(options).view() == (OptionsView {
                            probe_loops: n,
                            decode_only: true,
                            ..old(options).view()
                        })
                    } else {
                        result == Err::<(), CliError>(CliError::DecodeOnly)
                    },
                },
            }
        }),
{
    let count = match loops {
        Some(v) => match parse_positive_env(v) {
            Ok(n) => n,
            Err(e) => return Err(CliError::ProbeLoops(e)),
        },
        None => 0,
    };
    options.probe_loops = count;
    match decode_only {
        None => {
            options.decode_only = false;
            Ok(())
        },
        Some(d) => {
            proof {
                reveal_strlit("1");
            }
            if str_eq(d, "1") && count > 0 {
                options.decode_only = true;
                Ok(())
            } else {
                Err(CliError::DecodeOnly)
            }
        },
    }
}

/// The one-line usage text.
pub fn usage() -> (text: &'static str)
    ensures
        text@ == "usage: skwd-paper-tinier [--output NAME | --frame-stream WIDTHxHEIGHT] [--fill-mode MODE] [--paused] [--stream-no-header] <loop.ivf> <fps|fps_num/fps_den> [bt601|bt709]"@,
{
    "usage: skwd-paper-tinier [--output NAME | --frame-stream WIDTHxHEIGHT] [--fill-mode MODE] [--paused] [--stream-no-header] <loop.ivf> <fps|fps_num/fps_den> [bt601|bt709]"
}

/// The command line was accepted to run with colour matrix `m`.
pub open spec fn runs_with_matrix(result: Result<ParsedView, CliError>, m: ColorMatrix) -> bool {
    result matches Ok(ParsedView::Run(o)) && o.matrix == m
}

/// Argument `i` is text that reads as a frame rate.
pub open spec fn rate_arg_ok(args: Seq<Option<String>>, i: int) -> bool {
    &&& 0 <= i < args.len()
    &&& args[i] matches Some(t) && parse_rate_spec(t@) is Ok
}

/// The colour matrix follows the third positional: `bt709` (or no third
/// positional) gives BT.709, `bt601` gives BT.601, anything else is refused.
pub proof fn lemma_matrix_follows_third_positional(
    args: Seq<Option<String>>,
    fills: Seq<Option<FillMode>>,
)
    ensures
        flags_spec(args, fills, 0, start_flags()) matches Ok((st, index)) ==> {
            let count = args.len() - index;
            let r = parse_spec(args, fills);
            &&& (count == 2 && rate_arg_ok(args, index + 1int)) ==> runs_with_matrix(r, ColorMatrix::Bt709)
            &&& (count == 3 && rate_arg_ok(args, index + 1int) && is_arg(args[index + 2int], "bt709"@))
                ==> runs_with_matrix(r, ColorMatrix::Bt709)
            &&& (count == 3 && rate_arg_ok(args, index + 1int) && is_arg(args[index + 2int], "bt601"@))
                ==> runs_with_matrix(r, ColorMatrix::Bt601)
            &&& (count == 3 && rate_arg_ok(args, index + 1int) && !is_arg(args[index + 2int], "bt709"@)
                && !is_arg(args[index + 2int], "bt601"@)) ==> r == Err::<ParsedView, CliError>(
                CliError::ColorMatrix,
            )
        },
{
    reveal_strlit("bt709");
    reveal_strlit("bt601");
    assert("bt709"@[2] != "bt601"@[2]);
    if let Ok((st, index)) = flags_spec(args, fills, 0, start_flags()) {
        let count = args.len() - index;
        if count == 2 || count == 3 {
            assert(!(args.len() == 1));
        }
    }
}

/// The argument is none of the recognised flags.
pub open spec fn plain_arg(t: Seq<char>) -> bool {
    t != "--output"@ && t != "--frame-stream"@ && t != "--fill-mode"@ && t != "--paused"@ && t
        != "--stream-no-header"@
}

/// A bare `<input> <rate>` runs with the defaults: input at index 0, BT.709,
/// fill mode Fill, all outputs, not paused, with stream headers. A leading
/// `--paused` pauses and moves the input to index 1; a leading
/// `--stream-no-header` drops the headers. One positional alone is refused.
pub proof fn lemma_command_line_shapes(
    input: String,
    rate: String,
    flag: String,
    fills: Seq<Option<FillMode>>,
)
    requires
        plain_arg(input@),
        plain_arg(rate@),
        parse_rate_spec(rate@) is Ok,
        input@ != "-h"@ && input@ != "--help"@ && input@ != "-V"@ && input@ != "--version"@,
    ensures
        ({
            let r = parse_rate_spec(rate@)->Ok_0;
            let base = OptionsView {
                outputs: None,
                input: 0,
                frame_rate: r,
                matrix: ColorMatrix::Bt709,
                probe_loops: 0,
                decode_only: false,
                stream_size: None,
                fill_mode: FillMode::Fill,
                paused: false,
                stream_no_header: false,
            };
            &&& parse_spec(seq![Some(input), Some(rate)], fills) == Ok::<ParsedView, CliError>(
                ParsedView::Run(base),
            )
            &&& flag@ == "--paused"@ ==> parse_spec(seq![Some(flag), Some(input), Some(rate)], fills)
                == Ok::<ParsedView, CliError>(
                ParsedView::Run(OptionsView { input: 1, paused: true, ..base }),
            )
            &&& flag@ == "--stream-no-header"@ ==> parse_spec(
                seq![Some(flag), Some(input), Some(rate)],
                fills,
            ) == Ok::<ParsedView, CliError>(
                ParsedView::Run(OptionsView { input: 1, stream_no_header: true, ..base }),
            )
            &&& parse_spec(seq![Some(input)], fills) == Err::<ParsedView, CliError>(
                CliError::Positionals,
            )
        }),
{
    reveal_strlit("--output");
    reveal_strlit("--frame-stream");
    reveal_strlit("--fill-mode");
    reveal_strlit("--paused");
    reveal_strlit("--stream-no-header");
    reveal_strlit("-h");
    reveal_strlit("--help");
    reveal_strlit("-V");
    reveal_strlit("--version");
    reveal_strlit("bt709");
    let two = seq![Some(input), Some(rate)];
    assert(flags_spec(two, fills, 0, start_flags()) == Ok::<(FlagState, nat), CliError>(
        (start_flags(), 0nat),
    ));
    let one = seq![Some(input)];
    assert(flags_spec(one, fills, 0, start_flags()) == Ok::<(FlagState, nat), CliError>(
        (start_flags(), 0nat),
    ));
    let three = seq![Some(flag), Some(input), Some(rate)];
    if flag@ == "--paused"@ {
        assert("--paused"@ != "--output"@ && "--paused"@ != "--frame-stream"@ && "--paused"@
            != "--fill-mode"@) by {
            assert("--paused"@[2] != "--output"@[2]);
            assert("--paused"@[2] != "--frame-stream"@[2]);
            assert("--paused"@[2] != "--fill-mode"@[2]);
        }
        let st = FlagState { paused: true, ..start_flags() };
        assert(flags_spec(three, fills, 1, st) == Ok::<(FlagState, nat), CliError>((st, 1nat)));
        assert(flags_spec(three, fills, 0, start_flags()) == Ok::<(FlagState, nat), CliError>(
            (st, 1nat),
        ));
    }
    if flag@ == "--stream-no-header"@ {
        assert("--stream-no-header"@ != "--output"@ && "--stream-no-header"@ != "--frame-stream"@
            && "--stream-no-header"@ != "--fill-mode"@ && "--stream-no-header"@ != "--paused"@) by {
            assert("--stream-no-header"@[2] != "--output"@[2]);
            assert("--stream-no-header"@[2] != "--frame-stream"@[2]);
            assert("--stream-no-header"@[2] != "--fill-mode"@[2]);
            assert("--stream-no-header"@[2] != "--paused"@[2]);
        }
        let st = FlagState { stream_no_header: true, ..start_flags() };
        assert(flags_spec(three, fills, 1, st) == Ok::<(FlagState, nat), CliError>((st, 1nat)));
        assert(flags_spec(three, fills, 0, start_flags()) == Ok::<(FlagState, nat), CliError>(
            (st, 1nat),
        ));
    }
}

} // verus!
