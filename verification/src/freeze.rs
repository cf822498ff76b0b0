use vstd::prelude::*;

verus! {

/// Why a still frame could not be encoded.
#[derive(Clone, Copy, Debug, PartialEq, Eq, Structural)]
pub enum FreezeError {
    /// A row of the frame does not fit in memory.
    TooWide,
    /// The frame does not fit in memory.
    TooLarge,
    /// The pixel payload is shorter than the frame.
    Truncated,
}

impl FreezeError {
    /// The message written beside a failed freeze frame.
    pub fn message(&self) -> (text: &'static str)
        ensures
            *self == FreezeError::TooWide ==> text@ == "frame too wide"@,
            *self == FreezeError::TooLarge ==> text@ == "frame too large"@,
            *self == FreezeError::Truncated ==> text@ == "freeze-frame payload is truncated"@,
    {
        match self {
            FreezeError::TooWide => "frame too wide",
            FreezeError::TooLarge => "frame too large",
            FreezeError::Truncated => "freeze-frame payload is truncated",
        }
    }
}

/// The ASCII decimal digits of `n`.
pub open spec fn decimal_bytes(n: nat) -> Seq<u8>
    decreases n,
{
    if n < 10 {
        seq![(n + 48) as u8]
    } else {
        decimal_bytes(n / 10).push((n % 10 + 48) as u8)
    }
}

/// The header of a binary PPM image: `P6`, the dimensions and the maximum
/// sample value 255, each line ended by a newline.
pub open spec fn ppm_header(width: nat, height: nat) -> Seq<u8> {
    seq![80u8, 54u8, 10u8] + decimal_bytes(width) + seq![32u8] + decimal_bytes(height) + seq![
        10u8,
        50u8,
        53u8,
        53u8,
        10u8,
    ]
}

/// The first `rows` rows of `row` bytes each, taken `stride` bytes apart.
pub open spec fn strided_rows(pixels: Seq<u8>, stride: nat, row: nat, rows: nat) -> Seq<u8>
    decreases rows,
{
    if rows == 0 {
        Seq::empty()
    } else {
        let start = (rows - 1) * stride;
        strided_rows(pixels, stride, row, (rows - 1) as nat) + pixels.subrange(
            start as int,
            start + row,
        )
    }
}

/// The RGB samples of the four-byte pixel at `at`: in the stored order, or
/// swapped from blue-green-red.
pub open spec fn pixel_rgb(pixels: Seq<u8>, at: int, bgr: bool) -> Seq<u8> {
    if bgr {
        seq![pixels[at + 2], pixels[at + 1], pixels[at]]
    } else {
        seq![pixels[at], pixels[at + 1], pixels[at + 2]]
    }
}

/// The RGB samples of `count` four-byte pixels starting at `start`.
pub open spec fn rgb_of(pixels: Seq<u8>, start: int, count: nat, bgr: bool) -> Seq<u8>
    decreases count,
{
    if count == 0 {
        Seq::empty()
    } else {
        rgb_of(pixels, start, (count - 1) as nat, bgr) + pixel_rgb(
            pixels,
            start + 4 * (count - 1),
            bgr,
        )
    }
}

/// The RGB samples of the first `rows` rows of `width` blue-green-red-alpha
/// pixels, rows `stride` bytes apart.
pub open spec fn bgra_rows(pixels: Seq<u8>, stride: nat, width: nat, rows: nat) -> Seq<u8>
    decreases rows,
{
    if rows == 0 {
        Seq::empty()
    } else {
        bgra_rows(pixels, stride, width, (rows - 1) as nat) + rgb_of(
            pixels,
            (rows - 1) * stride,
            width,
            true,
        )
    }
}

fn append_decimal_bytes(out: &mut Vec<u8>, n: u64)
    ensures
        final(out)@ == old(out)@ + decimal_bytes(n as nat),
    decreases n,
{
    if n >= 10 {
        append_decimal_bytes(out, n / 10);
    }
    let digit: u8 = (n % 10) as u8;
    out.push(digit + 48);
}

fn ppm_header_bytes(width: u32, height: u32) -> (out: Vec<u8>)
    ensures
        out@ == ppm_header(width as nat, height as nat),
{
    let mut out: Vec<u8> = Vec::new();
    out.push(80);
    out.push(54);
    out.push(10);
    append_decimal_bytes(&mut out, width as u64);
    out.push(32);
    append_decimal_bytes(&mut out, height as u64);
    out.push(10);
    out.push(50);
    out.push(53);
    out.push(53);
    out.push(10);
    proof {
        assert(out@ =~= ppm_header(width as nat, height as nat));
    }
    out
}

proof fn lemma_row_in_bounds(y: nat, stride: nat, row: nat, rows: nat)
    requires
        y < rows,
        row <= stride,
    ensures
        y * stride + row <= rows * stride,
        (y + 1) * stride == y * stride + stride,
{
    assert(y * stride + stride <= rows * stride) by (nonlinear_arith)
        requires
            y < rows,
    ;
    assert((y + 1) * stride == y * stride + stride) by (nonlinear_arith);
}

/// Encodes a frame of packed RGB rows, `stride` bytes apart, as a binary
/// PPM image; the padding at the end of each row is left out.
pub fn rgb_ppm(width: u32, height: u32, pixels: &[u8], stride: usize) -> (encoded: Result<
    Vec<u8>,
    FreezeError,
>)
    ensures
        encoded is Ok <==> 3 * width <= usize::MAX && stride >= 3 * width && pixels.len() >= stride
            * height,
        encoded matches Ok(bytes) ==> bytes@ == ppm_header(width as nat, height as nat)
            + strided_rows(pixels@, stride as nat, 3 * width as nat, height as nat),
        encoded matches Err(e) ==> e == if 3 * width > usize::MAX {
            FreezeError::TooWide
        } else {
            FreezeError::Truncated
        },
{
    let w = width as usize;
    let row = match w.checked_mul(3) {
        Some(row) => row,
        None => return Err(FreezeError::TooWide),
    };
    let rows = height as usize;
    let total = match stride.checked_mul(rows) {
        Some(total) => total,
        None => return Err(FreezeError::Truncated),
    };
    if stride < row || pixels.len() < total {
        return Err(FreezeError::Truncated);
    }
    let mut out = ppm_header_bytes(width, height);
    let ghost header = out@;
    let mut y: usize = 0;
    while y < rows
        invariant
            y <= rows,
            rows == height,
            row == 3 * width,
            row <= stride,
            stride * rows == total,
            total <= pixels.len(),
            header == ppm_header(width as nat, height as nat),
            out@ == header + strided_rows(pixels@, stride as nat, row as nat, y as nat),
        decreases rows - y,
    {
        proof {
            lemma_row_in_bounds(y as nat, stride as nat, row as nat, rows as nat);
            assert(rows * stride == stride * rows) by (nonlinear_arith);
        }
        let start = y * stride;
        let ghost before = out@;
        let mut x: usize = 0;
        while x < row
            invariant
                x <= row,
                start + row <= pixels.len(),
                out@ == before + pixels@.subrange(start as int, start + x),
            decreases row - x,
        {
            out.push(pixels[start + x]);
            proof {
                assert(pixels@.subrange(start as int, start + x + 1) =~= pixels@.subrange(
                    start as int,
                    start + x,
                ).push(pixels@[start + x]));
            }
            x = x + 1;
        }
        proof {
            assert(out@ =~= header + strided_rows(pixels@, stride as nat, row as nat, (y + 1) as nat));
        }
        y = y + 1;
    }
    Ok(out)
}

/// Encodes the first `width` x `height` pixels of an RGBA payload as a binary
/// PPM image, leaving out the alpha samples.
pub fn rgba_ppm(width: u32, height: u32, pixels: &[u8]) -> (encoded: Result<Vec<u8>, FreezeError>)
    ensures
        encoded is Ok <==> 4 * width * height <= usize::MAX && pixels.len() >= 4 * width * height,
        encoded matches Ok(bytes) ==> bytes@ == ppm_header(width as nat, height as nat) + rgb_of(
            pixels@,
            0,
            (width * height) as nat,
            false,
        ),
        encoded matches Err(e) ==> e == if 4 * width * height > usize::MAX {
            FreezeError::TooLarge
        } else {
            FreezeError::Truncated
        },
{
    let count = match (width as usize).checked_mul(height as usize) {
        Some(count) => count,
        None => {
            proof {
                assert(4 * width * height >= width * height) by (nonlinear_arith);
            }
            return Err(FreezeError::TooLarge);
        },
    };
    let expected = match count.checked_mul(4) {
        Some(expected) => expected,
        None => {
            proof {
                assert(4 * width * height == 4 * (width * height)) by (nonlinear_arith);
            }
            return Err(FreezeError::TooLarge);
        },
    };
    proof {
        assert(4 * width * height == 4 * (width * height)) by (nonlinear_arith);
    }
    if pixels.len() < expected {
        return Err(FreezeError::Truncated);
    }
    let mut out = ppm_header_bytes(width, height);
    let ghost header = out@;
    let mut i: usize = 0;
    while i < count
        invariant
            i <= count,
            expected == 4 * count,
            expected <= pixels.len(),
            out@ == header + rgb_of(pixels@, 0, i as nat, false),
        decreases count - i,
    {
        let at = 4 * i;
        out.push(pixels[at]);
        out.push(pixels[at + 1]);
        out.push(pixels[at + 2]);
        proof {
            assert(out@ =~= header + rgb_of(pixels@, 0, (i + 1) as nat, false));
        }
        i = i + 1;
    }
    Ok(out)
}

/// Encodes a frame of blue-green-red-alpha rows, `stride` bytes apart, as a
/// binary PPM image with the samples in red-green-blue order.
pub fn bgra_ppm(width: u32, height: u32, stride: u32, pixels: &[u8]) -> (bytes: Vec<u8>)
    requires
        4 * width <= stride,
        stride * height <= pixels.len(),
    ensures
        bytes@ == ppm_header(width as nat, height as nat) + bgra_rows(
            pixels@,
            stride as nat,
            width as nat,
            height as nat,
        ),
{
    let mut out = ppm_header_bytes(width, height);
    let ghost header = out@;
    let w = width as usize;
    let s = stride as usize;
    let rows = height as usize;
    let mut y: usize = 0;
    while y < rows
        invariant
            y <= rows,
            rows == height,
            w == width,
            s == stride,
            4 * w <= s,
            s * rows <= pixels.len(),
            header == ppm_header(width as nat, height as nat),
            out@ == header + bgra_rows(pixels@, s as nat, w as nat, y as nat),
        decreases rows - y,
    {
        proof {
            lemma_row_in_bounds(y as nat, s as nat, (4 * w) as nat, rows as nat);
            assert(rows * s == s * rows) by (nonlinear_arith);
        }
        let start = y * s;
        let ghost before = out@;
        let mut x: usize = 0;
        while x < w
            invariant
                x <= w,
                start + 4 * w <= pixels.len(),
                out@ == before + rgb_of(pixels@, start as int, x as nat, true),
            decreases w - x,
        {
            let at = start + 4 * x;
            out.push(pixels[at + 2]);
            out.push(pixels[at + 1]);
            out.push(pixels[at]);
            proof {
                assert(out@ =~= before + rgb_of(pixels@, start as int, (x + 1) as nat, true));
            }
            x = x + 1;
        }
        proof {
            assert(out@ =~= header + bgra_rows(pixels@, s as nat, w as nat, (y + 1) as nat));
        }
        y = y + 1;
    }
    out
}

/// A PPM header reads `P6`, newline, the width, a space, the height, newline,
/// `255`, newline; numbers are written in decimal, most significant digit
/// first.
pub proof fn lemma_ppm_header_layout(width: nat, height: nat, q: nat, d: nat)
    requires
        d < 10,
    ensures
        ppm_header(width, height).subrange(0, 3) == seq![80u8, 54u8, 10u8],
        ppm_header(width, height).len() == decimal_bytes(width).len() + decimal_bytes(height).len()
            + 9,
        decimal_bytes(d) == seq![(48 + d) as u8],
        q > 0 ==> decimal_bytes(10 * q + d) == decimal_bytes(q).push((48 + d) as u8),
        decimal_bytes(10) == seq![49u8, 48u8],
{
    let h = ppm_header(width, height);
    assert(h.subrange(0, 3) =~= seq![80u8, 54u8, 10u8]);
    if q > 0 {
        assert((10 * q + d) / 10 == q && (10 * q + d) % 10 == d) by (nonlinear_arith)
            requires
                d < 10,
        ;
    }
    assert(decimal_bytes(10) == decimal_bytes(1).push(48u8));
}

/// The RGB samples of `count` pixels: three bytes per pixel, pixel `i`
/// giving its first three bytes in order, or reversed when stored as BGR.
pub proof fn lemma_rgb_of_samples(pixels: Seq<u8>, start: int, count: nat, bgr: bool)
    ensures
        rgb_of(pixels, start, count, bgr).len() == 3 * count,
        forall|i: int, c: int|
            0 <= i < count && 0 <= c < 3 ==> #[trigger] rgb_of(pixels, start, count, bgr)[3 * i + c]
                == if bgr {
                pixels[start + 4 * i + 2 - c]
            } else {
                pixels[start + 4 * i + c]
            },
    decreases count,
{
    if count > 0 {
        let n = (count - 1) as nat;
        lemma_rgb_of_samples(pixels, start, n, bgr);
        let prev = rgb_of(pixels, start, n, bgr);
        let last = pixel_rgb(pixels, start + 4 * n, bgr);
        let all = rgb_of(pixels, start, count, bgr);
        assert(all == prev + last);
        assert forall|i: int, c: int| 0 <= i < count && 0 <= c < 3 implies #[trigger] all[3 * i + c]
            == if bgr {
            pixels[start + 4 * i + 2 - c]
        } else {
            pixels[start + 4 * i + c]
        } by {
            if i < n {
                assert(all[3 * i + c] == prev[3 * i + c]);
            } else {
                assert(i == n);
                assert(all[3 * i + c] == last[c]);
            }
        }
    }
}

/// A BGRA frame's RGB samples: three bytes per pixel, row after row, pixel
/// `x` of row `y` giving the red, green and blue bytes of the pixel at
/// `y * stride + 4 * x`.
pub proof fn lemma_bgra_rows_samples(pixels: Seq<u8>, stride: nat, width: nat, rows: nat)
    ensures
        bgra_rows(pixels, stride, width, rows).len() == 3 * width * rows,
        forall|y: int, x: int, c: int|
            0 <= y < rows && 0 <= x < width && 0 <= c < 3 ==> #[trigger] bgra_rows(
                pixels,
                stride,
                width,
                rows,
            )[3 * width * y + 3 * x + c] == pixels[y * stride + 4 * x + 2 - c],
    decreases rows,
{
    if rows > 0 {
        let n = (rows - 1) as nat;
        lemma_bgra_rows_samples(pixels, stride, width, n);
        lemma_rgb_of_samples(pixels, (n * stride) as int, width, true);
        let prev = bgra_rows(pixels, stride, width, n);
        let last = rgb_of(pixels, (n * stride) as int, width, true);
        let all = bgra_rows(pixels, stride, width, rows);
        assert(all == prev + last);
        assert(3 * width * rows == 3 * width * n + 3 * width) by (nonlinear_arith)
            requires
                n == rows - 1,
        ;
        assert forall|y: int, x: int, c: int|
            0 <= y < rows && 0 <= x < width && 0 <= c < 3 implies #[trigger] all[3 * width * y + 3 * x
            + c] == pixels[y * stride + 4 * x + 2 - c] by {
            if y < n {
                assert(3 * width * y + 3 * x + c < 3 * width * n) by (nonlinear_arith)
                    requires
                        0 <= y < n,
                        0 <= x < width,
                        0 <= c < 3,
                ;
                assert(all[3 * width * y + 3 * x + c] == prev[3 * width * y + 3 * x + c]);
            } else {
                assert(y == n);
                assert(3 * width * y + 3 * x + c - 3 * width * n == 3 * x + c) by (nonlinear_arith)
                    requires
                        y == n,
                ;
                assert(3 * width * y + 3 * x + c >= 3 * width * n) by (nonlinear_arith)
                    requires
                        y == n,
                        x >= 0,
                        c >= 0,
                ;
                assert(all[3 * width * y + 3 * x + c] == last[3 * x + c]);
                assert(y * stride == n * stride);
            }
        }
    } else {
        assert(3 * width * rows == 0) by (nonlinear_arith)
            requires
                rows == 0,
        ;
    }
}
} // verus!
