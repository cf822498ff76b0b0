use vstd::arithmetic::div_mod::{lemma_fundamental_div_mod, lemma_fundamental_div_mod_converse};
use vstd::prelude::*;
use crate::text::{
    all_digits, append_decimal, decimal_text, decimal_value, digits_only, find_char,
    lemma_decimal_text_roundtrip, parse_digits_u32, push_char, text_chars,
};

verus! {

/// Number of shared-memory buffers a wallpaper cycles through.
pub const BUFFER_COUNT: usize = 2;

/// Largest accepted frame edge, in pixels.
pub const MAX_FRAME_EDGE: u32 = 8192;

/// Largest accepted frame area, in pixels (3840 x 2160).
pub const MAX_FRAME_PIXELS: u64 = 8294400;

/// Highest accepted frame rate, in frames per second.
pub const MAX_FPS: u32 = 240;

/// Nanoseconds in one second.
pub const NS_PER_SECOND: u64 = 1000000000;

/// A frame rate written as the exact fraction `numerator / denominator`.
#[derive(Clone, Copy, Debug, PartialEq, Eq, Structural)]
pub struct FrameRate {
    pub numerator: u32,
    pub denominator: u32,
}

/// Why a frame rate was refused.
#[derive(Clone, Copy, Debug, PartialEq, Eq, Structural)]
pub enum RateError {
    /// A numerator or denominator is zero.
    Zero,
    /// The rate exceeds `MAX_FPS` frames per second.
    TooFast,
    /// A component is empty or holds a character that is not a decimal digit.
    NotDecimal,
    /// A component does not fit in a `u32`.
    Overflow,
    /// The text holds more than one slash.
    ExtraSlash,
}

/// A rate is accepted when both parts are nonzero and it is at most `MAX_FPS`.
pub open spec fn valid_rate(numerator: int, denominator: int) -> bool {
    &&& numerator > 0
    &&& denominator > 0
    &&& numerator <= denominator * MAX_FPS
}

/// The product of two `u32` values fits in a `u64`.
pub proof fn lemma_u32_product_fits(a: u32, b: u32)
    ensures
        0 <= (a as int) * (b as int) <= u64::MAX as int,
{
    assert(0 <= (a as int) * (b as int) <= 0xffff_ffffint * 0xffff_ffffint) by (nonlinear_arith)
        requires
            a <= 0xffff_ffffint,
            b <= 0xffff_ffffint,
    ;
}

/// What `FrameRate::new` returns for the two parts.
pub open spec fn rate_spec(numerator: u32, denominator: u32) -> Result<FrameRate, RateError> {
    if numerator == 0 || denominator == 0 {
        Err(RateError::Zero)
    } else if numerator > denominator * MAX_FPS {
        Err(RateError::TooFast)
    } else {
        Ok(FrameRate { numerator, denominator })
    }
}

/// What parsing one part of a rate gives: a nonempty run of digits whose value
/// fits in a `u32` and is nonzero.
pub open spec fn positive_spec(s: Seq<char>) -> Result<u32, RateError> {
    if s.len() == 0 || !all_digits(s) {
        Err(RateError::NotDecimal)
    } else if decimal_value(s) > u32::MAX {
        Err(RateError::Overflow)
    } else if decimal_value(s) == 0 {
        Err(RateError::Zero)
    } else {
        Ok(decimal_value(s) as u32)
    }
}

/// `i` is the position of the first `c` in `s`.
pub open spec fn is_first(s: Seq<char>, c: char, i: int) -> bool {
    &&& 0 <= i < s.len()
    &&& s[i] == c
    &&& forall|j: int| 0 <= j < i ==> s[j] != c
}

/// What `FrameRate::parse` returns: `fps` or `numerator/denominator`, each part
/// a positive decimal integer, with at most one slash.
pub open spec fn parse_rate_spec(s: Seq<char>) -> Result<FrameRate, RateError> {
    if s.contains('/') {
        let i = choose|i: int| is_first(s, '/', i);
        let left = s.subrange(0, i);
        let right = s.subrange(i + 1, s.len() as int);
        if right.contains('/') {
            Err(RateError::ExtraSlash)
        } else {
            match positive_spec(left) {
                Err(e) => Err(e),
                Ok(n) => match positive_spec(right) {
                    Err(e) => Err(e),
                    Ok(d) => rate_spec(n, d),
                },
            }
        }
    } else {
        match positive_spec(s) {
            Err(e) => Err(e),
            Ok(n) => rate_spec(n, 1),
        }
    }
}

/// The text `label` gives: the numerator alone for whole rates, else `n/d`.
pub open spec fn label_text(rate: FrameRate) -> Seq<char> {
    if rate.denominator == 1 {
        decimal_text(rate.numerator as nat)
    } else {
        decimal_text(rate.numerator as nat) + seq!['/'] + decimal_text(rate.denominator as nat)
    }
}

/// Parses one part of a rate held in `s[start..end]`.
pub(crate) fn parse_positive(s: &[char], start: usize, end: usize) -> (value: Result<u32, RateError>)
    requires
        start <= end <= s.len(),
    ensures
        value == positive_spec(s@.subrange(start as int, end as int)),
{
    if start == end || !digits_only(s, start, end) {
        return Err(RateError::NotDecimal);
    }
    match parse_digits_u32(s, start, end) {
        None => Err(RateError::Overflow),
        Some(0) => Err(RateError::Zero),
        Some(v) => Ok(v),
    }
}

impl FrameRate {
    /// The rate is one that `new` accepts.
    pub open spec fn wf(self) -> bool {
        valid_rate(self.numerator as int, self.denominator as int)
    }

    /// Builds a rate from its two parts, refusing zero parts and rates above `MAX_FPS`.
    pub fn new(numerator: u32, denominator: u32) -> (result: Result<FrameRate, RateError>)
        ensures
            result == rate_spec(numerator, denominator),
    {
        if numerator == 0 || denominator == 0 {
            return Err(RateError::Zero);
        }
        proof {
            lemma_u32_product_fits(denominator, MAX_FPS);
        }
        if (numerator as u64) > (denominator as u64) * (MAX_FPS as u64) {
            return Err(RateError::TooFast);
        }
        Ok(FrameRate { numerator, denominator })
    }

    /// Parses `fps` or `numerator/denominator`.
    pub fn parse(value: &str) -> (result: Result<FrameRate, RateError>)
        ensures
            result == parse_rate_spec(value@),
    {
        let chars = text_chars(value);
        let n = chars.len();
        match find_char(&chars, '/', 0, n) {
            Some(i) => {
                proof {
                    assert(is_first(value@, '/', i as int));
                    assert(value@.contains('/'));
                    let j = choose|j: int| is_first(value@, '/', j);
                    assert(j == i as int);
                }
                let more = find_char(&chars, '/', i + 1, n);
                if more.is_some() {
                    proof {
                        let k = more.unwrap() as int;
                        assert(value@.subrange(i + 1, n as int)[k - i - 1] == '/');
                    }
                    return Err(RateError::ExtraSlash);
                }
                assert(!value@.subrange(i + 1, n as int).contains('/'));
                let numerator = match parse_positive(&chars, 0, i) {
                    Ok(v) => v,
                    Err(e) => return Err(e),
                };
                let denominator = match parse_positive(&chars, i + 1, n) {
                    Ok(v) => v,
                    Err(e) => return Err(e),
                };
                FrameRate::new(numerator, denominator)
            },
            None => {
                assert(!value@.contains('/'));
                assert(chars@.subrange(0, n as int) =~= value@);
                let numerator = match parse_positive(&chars, 0, n) {
                    Ok(v) => v,
                    Err(e) => return Err(e),
                };
                FrameRate::new(numerator, 1)
            },
        }
    }

    /// The rate as text: the numerator alone for whole rates, else `n/d`.
    pub fn label(self) -> (text: String)
        ensures
            text@ == label_text(self),
    {
        let mut text = String::new();
        append_decimal(&mut text, self.numerator as u64);
        if self.denominator != 1 {
            push_char(&mut text, '/');
            append_decimal(&mut text, self.denominator as u64);
        }
        assert(text@ =~= label_text(self));
        text
    }

    /// Two rates are equivalent when they denote the same fraction.
    pub fn equivalent(self, other: FrameRate) -> (same: bool)
        ensures
            same == (self.numerator * other.denominator == other.numerator * self.denominator),
    {
        proof {
            lemma_u32_product_fits(self.numerator, other.denominator);
            lemma_u32_product_fits(other.numerator, self.denominator);
        }
        (self.numerator as u64) * (other.denominator as u64) == (other.numerator as u64) * (
        self.denominator as u64)
    }
}

/// The YUV to RGB matrix a video is decoded with.
#[derive(Clone, Copy, Debug, PartialEq, Eq, Structural)]
pub enum ColorMatrix {
    Bt601,
    Bt709,
}

impl ColorMatrix {
    /// The matrix's conventional name.
    pub fn label(self) -> (name: &'static str)
        ensures
            self == ColorMatrix::Bt601 ==> name@ == "BT.601"@,
            self == ColorMatrix::Bt709 ==> name@ == "BT.709"@,
    {
        match self {
            ColorMatrix::Bt601 => "BT.601",
            ColorMatrix::Bt709 => "BT.709",
        }
    }
}

/// Geometry and pacing of a decoded video, checked against the buffer limits.
#[derive(Clone, Copy, Debug)]
pub struct VideoInfo {
    pub width: u32,
    pub height: u32,
    pub stride: u32,
    pub frame_bytes: usize,
    pub frame_rate: FrameRate,
    pub matrix: ColorMatrix,
}

/// Why decoded geometry was refused.
#[derive(Clone, Copy, Debug, PartialEq, Eq, Structural)]
pub enum GeometryError {
    /// The decoded width is negative.
    InvalidWidth,
    /// The decoded height is negative.
    InvalidHeight,
    /// A side is zero or above `MAX_FRAME_EDGE`, or the area is above `MAX_FRAME_PIXELS`.
    ExceedsCap,
    /// A stride or buffer size does not fit the shared-memory limits.
    ShmLimits,
}

/// The geometry is inside the caps: nonzero sides of at most `MAX_FRAME_EDGE`
/// and at most `MAX_FRAME_PIXELS` pixels.
pub open spec fn geometry_in_cap(width: int, height: int) -> bool {
    &&& 0 < width <= MAX_FRAME_EDGE
    &&& 0 < height <= MAX_FRAME_EDGE
    &&& width * height <= MAX_FRAME_PIXELS
}

impl VideoInfo {
    /// Checks decoded dimensions and derives the 4-byte-per-pixel buffer layout.
    pub fn new(width: i32, height: i32, frame_rate: FrameRate, matrix: ColorMatrix) -> (result:
        Result<VideoInfo, GeometryError>)
        ensures
            width < 0 ==> result == Err::<VideoInfo, GeometryError>(GeometryError::InvalidWidth),
            width >= 0 && height < 0 ==> result == Err::<VideoInfo, GeometryError>(
                GeometryError::InvalidHeight,
            ),
            width >= 0 && height >= 0 && !geometry_in_cap(width as int, height as int) ==> result
                == Err::<VideoInfo, GeometryError>(GeometryError::ExceedsCap),
            geometry_in_cap(width as int, height as int) ==> (result matches Ok(info) && info.width
                == width && info.height == height && info.stride == 4 * width && info.frame_bytes
                == 4 * width * height && info.frame_rate == frame_rate && info.matrix == matrix),
    {
        if width < 0 {
            return Err(GeometryError::InvalidWidth);
        }
        if height < 0 {
            return Err(GeometryError::InvalidHeight);
        }
        let width = width as u32;
        let height = height as u32;
        proof {
            lemma_u32_product_fits(width, height);
        }
        let pixels = (width as u64) * (height as u64);
        if width == 0 || height == 0 || width > MAX_FRAME_EDGE || height > MAX_FRAME_EDGE || pixels
            > MAX_FRAME_PIXELS {
            return Err(GeometryError::ExceedsCap);
        }
        assert((width as int) * 4 * (height as int) == 4 * ((width as int) * (height as int))
            && 2 * (4 * ((width as int) * (height as int))) <= 0x7fff_ffff) by (nonlinear_arith)
            requires
                (width as int) * (height as int) <= 8294400,
        ;
        let stride = match width.checked_mul(4) {
            Some(v) => v,
            None => return Err(GeometryError::ShmLimits),
        };
        let frame_bytes = match stride.checked_mul(height) {
            Some(v) => v,
            None => return Err(GeometryError::ShmLimits),
        };
        let total = match frame_bytes.checked_mul(2) {
            Some(v) => v,
            None => return Err(GeometryError::ShmLimits),
        };
        assert(frame_bytes == 4 * (width * height)) by (nonlinear_arith)
            requires
                frame_bytes == stride * height,
                stride == width * 4,
        ;
        if stride > 0x7fff_ffffu32 || total > 0x7fff_ffffu32 {
            return Err(GeometryError::ShmLimits);
        }
        Ok(VideoInfo { width, height, stride, frame_bytes: frame_bytes as usize, frame_rate, matrix })
    }
}

/// Playback health counters.
#[derive(Debug)]
pub struct RuntimeStats {
    commits: u64,
    first_commit_ns: u64,
    last_commit_ns: u64,
    pub deadline_reanchors: u64,
    max_commit_lateness_ns: u64,
}

impl Default for RuntimeStats {
    fn default() -> (stats: RuntimeStats)
        ensures
            stats.commit_count() == 0,
            stats.first_commit() == 0,
            stats.last_commit() == 0,
            stats.reanchors() == 0,
            stats.max_lateness() == 0,
    {
        RuntimeStats {
            commits: 0,
            first_commit_ns: 0,
            last_commit_ns: 0,
            deadline_reanchors: 0,
            max_commit_lateness_ns: 0,
        }
    }
}

impl RuntimeStats {
    /// Frames committed so far.
    pub closed spec fn commit_count(self) -> u64 {
        self.commits
    }

    /// When the first frame was committed.
    pub closed spec fn first_commit(self) -> u64 {
        self.first_commit_ns
    }

    /// When the latest frame was committed.
    pub closed spec fn last_commit(self) -> u64 {
        self.last_commit_ns
    }

    /// How often the pacing clock was re-anchored (the public field).
    pub closed spec fn reanchors(self) -> u64 {
        self.deadline_reanchors
    }

    /// The worst lateness of a paced commit past its deadline.
    pub closed spec fn max_lateness(self) -> u64 {
        self.max_commit_lateness_ns
    }

    /// Records one commit at `committed_at`; a paced commit later than its
    /// deadline raises the worst lateness seen.
    pub fn record(&mut self, committed_at: u64, target_deadline: u64, paced: bool)
        requires
            old(self).commit_count() < u64::MAX,
        ensures
            final(self).commit_count() == old(self).commit_count() + 1,
            final(self).first_commit() == (if old(self).commit_count() == 0 {
                committed_at
            } else {
                old(self).first_commit()
            }),
            final(self).last_commit() == committed_at,
            final(self).reanchors() == old(self).reanchors(),
            final(self).max_lateness() == (if paced && committed_at > target_deadline
                && committed_at - target_deadline > old(self).max_lateness() {
                (committed_at - target_deadline) as u64
            } else {
                old(self).max_lateness()
            }),
    {
        if self.commits == 0 {
            self.first_commit_ns = committed_at;
        }
        self.last_commit_ns = committed_at;
        self.commits = self.commits + 1;
        if paced && committed_at > target_deadline {
            let late = committed_at - target_deadline;
            if late > self.max_commit_lateness_ns {
                self.max_commit_lateness_ns = late;
            }
        }
    }

    /// Frames committed so far.
    pub fn commits(&self) -> (n: u64)
        ensures
            n == self.commit_count(),
    {
        self.commits
    }

    /// When the first frame was committed.
    pub fn first_commit_ns(&self) -> (t: u64)
        ensures
            t == self.first_commit(),
    {
        self.first_commit_ns
    }

    /// When the latest frame was committed.
    pub fn last_commit_ns(&self) -> (t: u64)
        ensures
            t == self.last_commit(),
    {
        self.last_commit_ns
    }

    /// The worst lateness of a paced commit.
    pub fn max_commit_lateness_ns(&self) -> (t: u64)
        ensures
            t == self.max_lateness(),
    {
        self.max_commit_lateness_ns
    }
}

/// Every accepted rate reads back from its label: `parse(label(r)) == r`.
pub proof fn lemma_label_parses_back(rate: FrameRate)
    requires
        rate.wf(),
    ensures
        parse_rate_spec(label_text(rate)) == Ok::<FrameRate, RateError>(rate),
{
    let n = decimal_text(rate.numerator as nat);
    let d = decimal_text(rate.denominator as nat);
    lemma_decimal_text_roundtrip(rate.numerator as nat);
    lemma_decimal_text_roundtrip(rate.denominator as nat);
    assert(positive_spec(n) == Ok::<u32, RateError>(rate.numerator));
    assert(positive_spec(d) == Ok::<u32, RateError>(rate.denominator));
    let s = label_text(rate);
    if rate.denominator == 1 {
        assert(!s.contains('/')) by {
            if s.contains('/') {
                let k = choose|k: int| 0 <= k < s.len() && s[k] == '/';
                assert(crate::text::is_digit(n[k]));
            }
        }
    } else {
        let i = n.len() as int;
        assert(is_first(s, '/', i)) by {
            assert forall|j: int| 0 <= j < i implies s[j] != '/' by {
                assert(crate::text::is_digit(n[j]));
            }
        }
        assert(s.contains('/'));
        let c = choose|c: int| is_first(s, '/', c);
        assert(c == i) by {
            if c < i {
                assert(s[c] != '/');
            } else if c > i {
                assert(s[i] == '/');
            }
        }
        assert(s.subrange(0, i) =~= n);
        assert(s.subrange(i + 1, s.len() as int) =~= d);
        assert(!d.contains('/')) by {
            if d.contains('/') {
                let k = choose|k: int| 0 <= k < d.len() && d[k] == '/';
                assert(crate::text::is_digit(d[k]));
            }
        }
    }
}

/// Equivalence of rates is reflexive.
pub proof fn lemma_equivalent_reflexive(a: FrameRate)
    ensures
        a.numerator * a.denominator == a.numerator * a.denominator,
{
}

/// Equivalence of rates is symmetric.
pub proof fn lemma_equivalent_symmetric(a: FrameRate, b: FrameRate)
    ensures
        (a.numerator * b.denominator == b.numerator * a.denominator) == (b.numerator
            * a.denominator == a.numerator * b.denominator),
{
}

/// Equivalence of accepted rates is transitive.
pub proof fn lemma_equivalent_transitive(a: FrameRate, b: FrameRate, c: FrameRate)
    requires
        a.wf(),
        b.wf(),
        c.wf(),
        a.numerator * b.denominator == b.numerator * a.denominator,
        b.numerator * c.denominator == c.numerator * b.denominator,
    ensures
        a.numerator * c.denominator == c.numerator * a.denominator,
{
    let (an, ad, bn, bd, cn, cd) = (
        a.numerator as int,
        a.denominator as int,
        b.numerator as int,
        b.denominator as int,
        c.numerator as int,
        c.denominator as int,
    );
    assert(an * cd == cn * ad) by (nonlinear_arith)
        requires
            an * bd == bn * ad,
            bn * cd == cn * bd,
            bn > 0,
            bd > 0,
    ;
}

/// Length of one frame period, in units of `1 / numerator` nanoseconds.
pub open spec fn period_units(rate: FrameRate) -> int {
    NS_PER_SECOND * rate.denominator
}

/// The deadline of the `ticks`-th frame after `anchor`: the exact rational
/// frame time `anchor + ticks * 1e9 * denominator / numerator`, rounded down.
pub open spec fn scheduled_deadline(rate: FrameRate, anchor: int, ticks: nat) -> int {
    anchor + (ticks * period_units(rate)) / (rate.numerator as int)
}

/// Pacing does not drift: after `k * numerator` frames exactly
/// `k * denominator` seconds have passed since the anchor.
pub proof fn lemma_schedule_has_no_drift(rate: FrameRate, anchor: int, k: nat)
    requires
        rate.numerator > 0,
    ensures
        scheduled_deadline(rate, anchor, k * rate.numerator as nat) == anchor + k
            * rate.denominator * NS_PER_SECOND,
{
    let n = rate.numerator as int;
    let units = (k * n) * period_units(rate);
    let q = k * rate.denominator * NS_PER_SECOND;
    assert(units == q * n + 0) by (nonlinear_arith)
        requires
            units == (k * n) * period_units(rate),
            period_units(rate) == NS_PER_SECOND * rate.denominator,
            q == k * rate.denominator * NS_PER_SECOND,
    ;
    lemma_fundamental_div_mod_converse(units, n, q, 0);
}

/// Every period moves the deadline forward: deadlines strictly increase.
pub proof fn lemma_schedule_increases(rate: FrameRate, anchor: int, ticks: nat)
    requires
        rate.wf(),
    ensures
        scheduled_deadline(rate, anchor, ticks) < scheduled_deadline(rate, anchor, ticks + 1),
{
    let n = rate.numerator as int;
    let p = period_units(rate);
    assert(p >= n) by (nonlinear_arith)
        requires
            p == NS_PER_SECOND * rate.denominator,
            rate.denominator >= 1,
            n <= rate.denominator * MAX_FPS,
    ;
    let a = ticks * p;
    let b = (ticks + 1) * p;
    assert(b == a + p) by (nonlinear_arith)
        requires
            a == ticks * p,
            b == (ticks + 1) * p,
    ;
    vstd::arithmetic::div_mod::lemma_div_is_ordered(a + n, b, n);
    vstd::arithmetic::div_mod::lemma_div_plus_one(a, n);
}

/// A whole part and a remainder below `d` that together make `anchor * d + units`
/// are the floor of `units / d` offset by `anchor`.
proof fn lemma_floor_of_exact(whole: int, carry: int, anchor: int, units: int, d: int)
    requires
        d > 0,
        0 <= carry < d,
        whole * d + carry == anchor * d + units,
    ensures
        whole == anchor + units / d,
{
    let q = whole - anchor;
    assert(units == q * d + carry) by (nonlinear_arith)
        requires
            whole * d + carry == anchor * d + units,
            q == whole - anchor,
    ;
    lemma_fundamental_div_mod_converse(units, d, q, carry);
}

/// A deadline generator that advances by exactly one frame period per call,
/// carrying the fractional nanoseconds so that no rounding error accumulates.
pub struct FrameClock {
    pub deadline: u64,
    whole_ns: u64,
    remainder: u64,
    denominator: u64,
    carry: u64,
    rate: Ghost<FrameRate>,
    anchor: Ghost<int>,
    ticks: Ghost<nat>,
}

impl FrameClock {
    /// The deadline the clock currently holds (the public `deadline` field).
    pub closed spec fn current_deadline(self) -> u64 {
        self.deadline
    }

    /// The rate the clock paces.
    pub closed spec fn rate(self) -> FrameRate {
        self.rate@
    }

    /// The instant the current run of frames is measured from.
    pub closed spec fn anchor(self) -> int {
        self.anchor@
    }

    /// How many periods have elapsed since the anchor.
    pub closed spec fn ticks(self) -> nat {
        self.ticks@
    }

    /// The internal state matches the rate: the deadline is the exact schedule
    /// rounded down and the carry holds the fractional remainder.
    pub closed spec fn wf(self) -> bool {
        let rate = self.rate@;
        &&& rate.numerator > 0
        &&& self.denominator == rate.numerator
        &&& self.whole_ns == period_units(rate) / (rate.numerator as int)
        &&& self.remainder == period_units(rate) % (rate.numerator as int)
        &&& self.carry < self.denominator
        &&& self.deadline * self.denominator + self.carry == self.anchor@ * self.denominator
            + self.ticks@ * period_units(rate)
    }

    proof fn lemma_deadline_is_schedule(self)
        requires
            self.wf(),
        ensures
            self.current_deadline() == scheduled_deadline(self.rate(), self.anchor(), self.ticks()),
    {
        lemma_floor_of_exact(
            self.deadline as int,
            self.carry as int,
            self.anchor@,
            self.ticks@ * period_units(self.rate@),
            self.denominator as int,
        );
    }

    /// Starts a clock whose first deadline is `start_ns`.
    pub fn new(rate: FrameRate, start_ns: u64) -> (clock: FrameClock)
        requires
            rate.numerator > 0,
        ensures
            clock.wf(),
            clock.rate() == rate,
            clock.anchor() == start_ns,
            clock.ticks() == 0,
            clock.current_deadline() == start_ns,
    {
        proof {
            lemma_u32_product_fits(1000000000u32, rate.denominator);
        }
        let duration_numerator = NS_PER_SECOND * (rate.denominator as u64);
        let numerator = rate.numerator as u64;
        let clock = FrameClock {
            deadline: start_ns,
            whole_ns: duration_numerator / numerator,
            remainder: duration_numerator % numerator,
            denominator: numerator,
            carry: 0,
            rate: Ghost(rate),
            anchor: Ghost(start_ns as int),
            ticks: Ghost(0),
        };
        clock
    }

    /// The whole nanoseconds of one frame period.
    pub fn period_ns(&self) -> (ns: u64)
        requires
            self.wf(),
        ensures
            ns == period_units(self.rate()) / (self.rate().numerator as int),
            scheduled_deadline(self.rate(), self.anchor(), self.ticks() + 1) <= self.current_deadline()
                + ns + 1,
    {
        proof {
            let rate = self.rate@;
            let d = self.denominator as int;
            let p = period_units(rate);
            lemma_fundamental_div_mod(p, d);
            let sum = self.carry as int + self.remainder as int;
            let step = if sum >= d { 1int } else { 0int };
            let next = self.deadline as int + self.whole_ns as int + step;
            let next_carry = sum - step * d;
            assert(next * d + next_carry == self.anchor@ * d + (self.ticks@ + 1) * p)
                by (nonlinear_arith)
                requires
                    self.deadline * d + self.carry == self.anchor@ * d + self.ticks@ * p,
                    p == d * self.whole_ns + self.remainder,
                    next == self.deadline + self.whole_ns + step,
                    next_carry == self.carry + self.remainder - step * d,
            ;
            lemma_floor_of_exact(next, next_carry, self.anchor@, (self.ticks@ + 1) * p, d);
        }
        self.whole_ns
    }

    /// Moves the deadline one frame period forward.
    pub fn advance(&mut self)
        requires
            old(self).wf(),
            scheduled_deadline(old(self).rate(), old(self).anchor(), old(self).ticks() + 1)
                <= u64::MAX,
        ensures
            final(self).wf(),
            final(self).rate() == old(self).rate(),
            final(self).anchor() == old(self).anchor(),
            final(self).ticks() == old(self).ticks() + 1,
            final(self).current_deadline() == scheduled_deadline(
                final(self).rate(),
                final(self).anchor(),
                final(self).ticks(),
            ),
    {
        let ghost rate = self.rate@;
        let ghost d = self.denominator as int;
        let ghost p = period_units(rate);
        let ghost old_deadline = self.deadline as int;
        let ghost old_carry = self.carry as int;
        let ghost w = self.whole_ns as int;
        let ghost r = self.remainder as int;
        let ghost sum = old_carry + r;
        let ghost step = if sum >= d { 1int } else { 0int };
        let ghost new_deadline = old_deadline + w + step;
        let ghost new_carry = sum - step * d;
        proof {
            lemma_fundamental_div_mod(p, d);
            assert(new_deadline * d + new_carry == self.anchor@ * d + (self.ticks@ + 1) * p)
                by (nonlinear_arith)
                requires
                    old_deadline * d + old_carry == self.anchor@ * d + self.ticks@ * p,
                    p == d * w + r,
                    new_deadline == old_deadline + w + step,
                    new_carry == old_carry + r - step * d,
            ;
            let next = FrameClock {
                deadline: new_deadline as u64,
                whole_ns: self.whole_ns,
                remainder: self.remainder,
                denominator: self.denominator,
                carry: new_carry as u64,
                rate: Ghost(rate),
                anchor: Ghost(self.anchor@),
                ticks: Ghost(self.ticks@ + 1),
            };
            assert(0 <= new_carry < d);
            lemma_floor_of_exact(new_deadline, new_carry, self.anchor@, (self.ticks@ + 1) * p, d);
            assert(next.wf());
            next.lemma_deadline_is_schedule();
        }
        self.deadline = self.deadline + self.whole_ns;
        self.carry = self.carry + self.remainder;
        if self.carry >= self.denominator {
            proof {
                lemma_fundamental_div_mod_converse(sum, d, 1, sum - d);
            }
            self.deadline = self.deadline + self.carry / self.denominator;
            self.carry = self.carry % self.denominator;
        }
        assert(self.deadline == new_deadline && self.carry == new_carry);
        proof {
            self.ticks = Ghost(self.ticks@ + 1);
        }
    }

    /// When `now` is past the deadline, re-anchors the schedule at `now` and
    /// moves one period ahead of it, dropping the frames that were missed.
    /// Returns whether the clock was re-anchored.
    pub fn recover_lag(&mut self, now: u64) -> (lagged: bool)
        requires
            old(self).wf(),
            now > old(self).current_deadline() ==> scheduled_deadline(old(self).rate(), now as int, 1)
                <= u64::MAX,
        ensures
            final(self).wf(),
            final(self).rate() == old(self).rate(),
            lagged == (now > old(self).current_deadline()),
            !lagged ==> *final(self) == *old(self),
            lagged ==> final(self).anchor() == now && final(self).ticks() == 1
                && final(self).current_deadline() == scheduled_deadline(final(self).rate(), now as int, 1),
    {
        if now <= self.deadline {
            return false;
        }
        self.deadline = now;
        self.carry = 0;
        proof {
            self.anchor = Ghost(now as int);
            self.ticks = Ghost(0);
        }
        self.advance();
        true
    }
}

/// Why the monotonic clock reading was refused.
#[derive(Clone, Copy, Debug, PartialEq, Eq, Structural)]
pub enum ClockError {
    /// The seconds are negative.
    Negative,
    /// The nanoseconds are negative.
    Invalid,
    /// The time in nanoseconds does not fit in a `u64`.
    Overflow,
}

/// A monotonic clock reading in nanoseconds, from its seconds and nanoseconds.
pub fn monotonic_from_parts(seconds: i64, nanos: i64) -> (ns: Result<u64, ClockError>)
    ensures
        match ns {
            Ok(t) => seconds >= 0 && nanos >= 0 && t == seconds * NS_PER_SECOND + nanos,
            Err(e) => e == if seconds < 0 {
                ClockError::Negative
            } else if nanos < 0 {
                ClockError::Invalid
            } else {
                ClockError::Overflow
            } && (seconds >= 0 && nanos >= 0 ==> seconds * NS_PER_SECOND + nanos > u64::MAX),
        },
{
    if seconds < 0 {
        return Err(ClockError::Negative);
    }
    if nanos < 0 {
        return Err(ClockError::Invalid);
    }
    let s = seconds as u64;
    let n = nanos as u64;
    match s.checked_mul(NS_PER_SECOND) {
        Some(whole) => match whole.checked_add(n) {
            Some(t) => Ok(t),
            None => Err(ClockError::Overflow),
        },
        None => Err(ClockError::Overflow),
    }
}

/// The poll timeout for waiting from `now` until `deadline`: none once the
/// deadline has passed, else the remaining time in whole milliseconds rounded
/// up, at most `i32::MAX`.
pub fn wait_timeout_ms(now: u64, deadline: u64) -> (timeout: Option<i32>)
    ensures
        now >= deadline ==> timeout is None,
        now < deadline ==> timeout == Some(
            if (deadline - now + 999999) / 1000000 > i32::MAX {
                i32::MAX
            } else {
                ((deadline - now + 999999) / 1000000) as i32
            },
        ),
{
    if now >= deadline {
        return None;
    }
    let remaining = deadline - now;
    let millis = remaining / 1000000 + if remaining % 1000000 > 0 {
        1
    } else {
        0
    };
    assert(millis == (remaining + 999999) / 1000000) by (nonlinear_arith)
        requires
            millis == remaining / 1000000 + if remaining % 1000000 > 0 {
                1int
            } else {
                0int
            },
            remaining >= 0,
    ;
    if millis > 2147483647 {
        Some(2147483647)
    } else {
        Some(millis as i32)
    }
}

/// A rate is accepted exactly when both parts are nonzero and it is at most
/// `MAX_FPS` frames per second, and then it keeps both parts as given;
/// a zero part is reported before a rate that is too fast.
pub proof fn lemma_rate_acceptance(numerator: u32, denominator: u32)
    ensures
        rate_spec(numerator, denominator) is Ok <==> (numerator > 0 && denominator > 0
            && numerator as int <= denominator as int * MAX_FPS as int),
        rate_spec(numerator, denominator) matches Ok(r) ==> r.numerator == numerator
            && r.denominator == denominator,
        (numerator == 0 || denominator == 0) ==> rate_spec(numerator, denominator) == Err::<
            FrameRate,
            RateError,
        >(RateError::Zero),
        (numerator > 0 && denominator > 0 && numerator as int > denominator as int
            * MAX_FPS as int) ==> rate_spec(numerator, denominator) == Err::<FrameRate, RateError>(
            RateError::TooFast,
        ),
{
}

/// A rate without a slash is a whole number of frames per second: the text
/// of `n` parses to `n/1` when `n` is accepted.
pub proof fn lemma_whole_rate_parses(n: u32)
    requires
        0 < n <= MAX_FPS,
    ensures
        parse_rate_spec(crate::text::decimal_text(n as nat)) == Ok::<FrameRate, RateError>(
            FrameRate { numerator: n, denominator: 1 },
        ),
{
    lemma_label_parses_back(FrameRate { numerator: n, denominator: 1 });
}

} // verus!
