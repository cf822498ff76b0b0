use skwd_paper::cli::{
    apply_probe_env, parse_outputs, parse_positive_env, parse_size, usage, CliError, Options,
    ParseResult, SizeError,
};
use skwd_paper::fill::FillMode;
use skwd_paper::frame::{ColorMatrix, FrameRate, RateError};

fn fill_mode_named(name: &str) -> Option<FillMode> {
    match name {
        "fill" => Some(FillMode::Fill),
        "fit" => Some(FillMode::Fit),
        "stretch" => Some(FillMode::Stretch),
        "center" => Some(FillMode::Center),
        "tile" => Some(FillMode::Tile),
        "span" => Some(FillMode::Span),
        _ => None,
    }
}

fn parse_from(arguments: &[&str]) -> Result<ParseResult, CliError> {
    let texts: Vec<Option<String>> = arguments.iter().map(|a| Some(a.to_string())).collect();
    let modes: Vec<Option<FillMode>> = arguments.iter().map(|a| fill_mode_named(a)).collect();
    Options::parse_from(&texts, &modes)
}

#[test]
fn positional_contract() {
    let arguments = ["wall.ivf", "30000/1001", "bt601"];
    let parsed = parse_from(&arguments);
    let ParseResult::Run(options) = parsed.unwrap() else {
        panic!("expected run options");
    };
    assert_eq!(arguments[options.input], "wall.ivf");
    assert_eq!(options.frame_rate, FrameRate { numerator: 30_000, denominator: 1001 });
    assert_eq!(options.matrix, ColorMatrix::Bt601);
}

#[test]
fn version_is_a_headless_parse_result() {
    for flag in ["-V", "--version"] {
        assert!(matches!(parse_from(&[flag]), Ok(ParseResult::Version)));
    }
}

#[test]
fn explicit_output_flag() {
    let parsed = parse_from(&["--output", "DP-1", "wall.ivf", "30"]);
    let ParseResult::Run(options) = parsed.unwrap() else {
        panic!("expected run options");
    };
    assert_eq!(options.outputs.as_deref(), Some(["DP-1".to_string()].as_slice()));
    assert_eq!(options.matrix, ColorMatrix::Bt709);
}

#[test]
fn output_set_uniqueness() {
    let parsed = parse_from(&["--output", "DP-1,DP-2", "wall.ivf", "30"]);
    let ParseResult::Run(options) = parsed.unwrap() else {
        panic!("expected run options");
    };
    assert_eq!(options.outputs.unwrap(), ["DP-1", "DP-2"]);
    for output in ["", "DP-1,", "DP-1,DP-1", "-bad"] {
        let parsed = parse_from(&["--output", output, "wall.ivf", "30"]);
        assert!(parsed.is_err(), "{output}");
    }
}

#[test]
fn flags_after_positionals() {
    let parsed = parse_from(&["wall.ivf", "30", "--output", "DP-1"]);
    assert!(parsed.is_err());
}

#[test]
fn frame_stream_contract() {
    let parsed = parse_from(&[
        "--frame-stream",
        "1920x1080",
        "--fill-mode",
        "fit",
        "--paused",
        "--stream-no-header",
        "wall.ivf",
        "30",
    ]);
    let ParseResult::Run(options) = parsed.unwrap() else {
        panic!("expected run options");
    };
    assert_eq!(options.stream_size, Some((1920, 1080)));
    assert_eq!(options.fill_mode, FillMode::Fit);
    assert!(options.paused);
    assert!(options.stream_no_header);
    assert!(options.outputs.is_none());
}

#[test]
fn help_is_a_headless_parse_result() {
    for flag in ["-h", "--help"] {
        assert!(matches!(parse_from(&[flag]), Ok(ParseResult::Help)));
    }
}

#[test]
fn command_line_errors_name_their_cause() {
    assert_eq!(parse_from(&["--output"]).err(), Some(CliError::OutputMissing));
    assert_eq!(parse_from(&["--frame-stream"]).err(), Some(CliError::FrameStreamMissing));
    assert_eq!(parse_from(&["--fill-mode"]).err(), Some(CliError::FillModeMissing));
    assert_eq!(
        parse_from(&["--fill-mode", "zoom", "wall.ivf", "30"]).err(),
        Some(CliError::UnknownFillMode)
    );
    assert_eq!(parse_from(&["wall.ivf"]).err(), Some(CliError::Positionals));
    assert_eq!(parse_from(&["wall.ivf", "30", "bt709", "x"]).err(), Some(CliError::Positionals));
    assert_eq!(parse_from(&["wall.ivf", "0"]).err(), Some(CliError::Rate(RateError::Zero)));
    assert_eq!(parse_from(&["wall.ivf", "30", "bt2020"]).err(), Some(CliError::ColorMatrix));
    assert_eq!(
        parse_from(&["--frame-stream", "8x8", "wall.ivf", "30"]).err(),
        Some(CliError::Size(SizeError::TooSmall))
    );
    let texts = vec![Some("--output".to_string()), None, Some("wall.ivf".to_string()), Some("30".to_string())];
    let modes = vec![None; 4];
    assert!(matches!(Options::parse_from(&texts, &modes), Err(CliError::NotUtf8(_))));
}

#[test]
fn output_lists_split_on_commas() {
    assert_eq!(parse_outputs("DP-1,HDMI-A-1").unwrap(), ["DP-1", "HDMI-A-1"]);
    assert_eq!(parse_outputs("DP-1,,DP-2").err(), Some(CliError::Outputs));
}

#[test]
fn frame_stream_sizes() {
    assert_eq!(parse_size("1920x1080"), Ok((1920, 1080)));
    assert_eq!(parse_size("1920"), Err(SizeError::Format));
    assert_eq!(parse_size("axb"), Err(SizeError::Width));
    assert_eq!(parse_size("16xb"), Err(SizeError::Height));
    assert_eq!(parse_size("15x100"), Err(SizeError::TooSmall));
    assert_eq!(parse_size("8000x8000"), Err(SizeError::TooLarge));
}

#[test]
fn probe_settings_from_the_environment() {
    let ParseResult::Run(mut options) = parse_from(&["wall.ivf", "30"]).unwrap() else {
        panic!("expected run options");
    };
    assert_eq!(parse_positive_env("12"), Ok(12));
    assert!(parse_positive_env("0").is_err());
    assert_eq!(apply_probe_env(&mut options, Some("3"), Some("1")), Ok(()));
    assert_eq!(options.probe_loops, 3);
    assert!(options.decode_only);
    assert_eq!(apply_probe_env(&mut options, None, Some("1")), Err(CliError::DecodeOnly));
    assert_eq!(apply_probe_env(&mut options, Some("x"), None), Err(CliError::ProbeLoops(RateError::NotDecimal)));
    assert_eq!(apply_probe_env(&mut options, None, None), Ok(()));
    assert_eq!(options.probe_loops, 0);
    assert!(!options.decode_only);
}

#[test]
fn usage_names_the_positionals() {
    assert!(usage().contains("<loop.ivf> <fps|fps_num/fps_den> [bt601|bt709]"));
}
