use vstd::prelude::*;

verus! {

/// How a source image is fitted to an output.
#[derive(Clone, Copy, Debug, PartialEq, Eq, Structural)]
pub enum FillMode {
    /// Cover the output, cropping the source.
    Fill,
    /// Show the whole source, leaving bars.
    Fit,
    /// Scale each axis independently.
    Stretch,
    /// Show the source unscaled in the centre.
    Center,
    /// Repeat the source.
    Tile,
    /// Cover the output, spanning several outputs.
    Span,
}

impl Default for FillMode {
    fn default() -> (mode: FillMode)
        ensures
            mode == FillMode::Fill,
    {
        FillMode::Fill
    }
}

/// The sampler addressing a fill mode needs: 0 clamps, 1 uses a border, 2 repeats.
pub open spec fn flag_spec(mode: FillMode) -> i32 {
    match mode {
        FillMode::Fit | FillMode::Center => 1,
        FillMode::Tile => 2,
        _ => 0,
    }
}

/// The sampler addressing for a fill mode.
pub fn flag_for(mode: FillMode) -> (flag: i32)
    ensures
        flag == flag_spec(mode),
{
    match mode {
        FillMode::Fit | FillMode::Center => 1,
        FillMode::Tile => 2,
        _ => 0,
    }
}

/// The addressing an override names: `clamp`, `border` or `repeat`.
pub open spec fn clamp_override_spec(value: Option<Seq<char>>) -> Option<i32> {
    match value {
        Some(text) => if text == "clamp"@ {
            Some(0i32)
        } else if text == "border"@ {
            Some(1i32)
        } else if text == "repeat"@ {
            Some(2i32)
        } else {
            None
        },
        None => None,
    }
}

/// Reads a sampler addressing override.
pub fn clamp_override(value: Option<&str>) -> (flag: Option<i32>)
    ensures
        flag == clamp_override_spec(match value {
            Some(text) => Some(text@),
            None => None,
        }),
{
    match value {
        Some(text) => {
            proof {
                reveal_strlit("clamp");
                reveal_strlit("border");
                reveal_strlit("repeat");
            }
            if crate::text::str_eq(text, "clamp") {
                Some(0)
            } else if crate::text::str_eq(text, "border") {
                Some(1)
            } else if crate::text::str_eq(text, "repeat") {
                Some(2)
            } else {
                None
            }
        },
        None => None,
    }
}

/// The sampler addressing in use: the override when one is set, else the
/// one the fill mode needs.
pub fn fill_flag(clamp_override: Option<i32>, mode: FillMode) -> (flag: i32)
    ensures
        flag == match clamp_override {
            Some(v) => v,
            None => flag_spec(mode),
        },
{
    match clamp_override {
        Some(v) => v,
        None => flag_for(mode),
    }
}

/// Fit and centre leave bars and sample a border, tile repeats, and the
/// covering modes clamp; an override names `clamp` 0, `border` 1, `repeat` 2,
/// and each flag of a mode is the flag its override name gives.
pub proof fn lemma_fill_addressing()
    ensures
        flag_spec(FillMode::Fill) == 0 && flag_spec(FillMode::Stretch) == 0 && flag_spec(
            FillMode::Span,
        ) == 0,
        flag_spec(FillMode::Fit) == 1 && flag_spec(FillMode::Center) == 1,
        flag_spec(FillMode::Tile) == 2,
        clamp_override_spec(Some("clamp"@)) == Some(0i32),
        clamp_override_spec(Some("border"@)) == Some(1i32),
        clamp_override_spec(Some("repeat"@)) == Some(2i32),
        clamp_override_spec(None) == None::<i32>,
        forall|t: Seq<char>|
            #![trigger clamp_override_spec(Some(t))]
            t != "clamp"@ && t != "border"@ && t != "repeat"@ ==> clamp_override_spec(Some(t))
                == None::<i32>,
{
    reveal_strlit("clamp");
    reveal_strlit("border");
    reveal_strlit("repeat");
    assert("clamp"@ != "border"@ && "clamp"@ != "repeat"@) by {
        assert("clamp"@[0] != "border"@[0] && "clamp"@[0] != "repeat"@[0]);
    }
    assert("border"@ != "repeat"@) by {
        assert("border"@[0] != "repeat"@[0]);
    }
}

} // verus!
